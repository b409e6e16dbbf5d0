use vstd::prelude::*;
use vstd::string::*;
use chrono::Timelike;
use crate::time::{Weekday, WeeklyInterval, day_at, day_name};
use crate::section::{Course, CourseView, views};
use crate::present::texts;
use crate::text::{contains_text, starts_with_text, find_from, occurs_at, text_contains, text_starts_with, text_find_from};

verus! {

/// The 12-hour clock format of the listing's times, as in "2:30PM".
pub const CLOCK_FORMAT: &'static str = "%I:%M%P";

/// The separator between the start and the end of a meeting time.
pub const TIME_SEPARATOR: &'static str = " to ";

/// The pattern of the lines that separate two sections of a listing: a line
/// holding only a number.
pub const SECTION_BREAK: &'static str = r"(?m)^\s*(\d+)\s*$";

/// A line without one trailing carriage return.
pub open spec fn strip_cr(l: Seq<char>) -> Seq<char> {
    if l.len() > 0 && l.last() == '\r' {
        l.drop_last()
    } else {
        l
    }
}

/// The lines of `s` from position `i` on, the line under way having begun
/// at `start`: each line ends at a line feed, which it loses together with
/// one carriage return before it; a last line without a line feed is kept
/// as it is, and an empty one is not a line.
pub open spec fn lines_from(s: Seq<char>, start: int, i: int) -> Seq<Seq<char>>
    decreases s.len() - i,
{
    if i >= s.len() {
        if 0 <= start < s.len() {
            seq![s.subrange(start, s.len() as int)]
        } else {
            Seq::empty()
        }
    } else if s[i] == '\n' {
        seq![strip_cr(s.subrange(start, i))] + lines_from(s, i + 1, i + 1)
    } else {
        lines_from(s, start, i + 1)
    }
}

/// The lines of a text, cut as `str::lines` cuts them.
pub open spec fn lines_of(s: Seq<char>) -> Seq<Seq<char>> {
    lines_from(s, 0, 0)
}

/// A text without its leading and trailing white space, as `str::trim` cuts it.
pub uninterp spec fn trimmed(s: Seq<char>) -> Seq<char>;

/// The pieces that fancy-regex cuts `text` into at the matches of
/// `pattern` (each `None` where matching failed); `None` when the pattern
/// does not compile.
pub uninterp spec fn pattern_pieces(pattern: Seq<char>, text: Seq<char>) -> Option<Seq<Option<Seq<char>>>>;

/// The (hour, minute) that chrono reads from `s` in format `fmt`, if any.
pub uninterp spec fn clock_parsed(s: Seq<char>, fmt: Seq<char>) -> Option<(u32, u32)>;

/// The lines of `s` (see `lines_of`).
pub fn split_lines(s: &str) -> (r: Vec<String>)
    ensures
        texts(r@) == lines_of(s@),
{
    let n = s.unicode_len();
    let mut r: Vec<String> = Vec::new();
    let mut start: usize = 0;
    let mut i: usize = 0;
    while i < n
        invariant
            n == s@.len(),
            start <= i <= n,
            lines_of(s@) == texts(r@) + lines_from(s@, start as int, i as int),
        decreases n - i,
    {
        if s.get_char(i) == '\n' {
            let end = if i > start && s.get_char(i - 1) == '\r' {
                i - 1
            } else {
                i
            };
            let line = s.substring_char(start, end);
            proof {
                assert(line@ =~= strip_cr(s@.subrange(start as int, i as int)));
            }
            let ghost before = texts(r@);
            r.push(String::from_str(line));
            assert(texts(r@) =~= before.push(line@));
            start = i + 1;
        }
        i = i + 1;
    }
    if start < n {
        let ghost before = texts(r@);
        r.push(String::from_str(s.substring_char(start, n)));
        assert(texts(r@) =~= before.push(s@.subrange(start as int, n as int)));
    }
    assert(texts(r@) =~= lines_of(s@));
    r
}

/// Relies on `str::trim`: `s` without surrounding white space, which
/// depends on `s` alone.
#[verifier::external_body]
fn trim_text(s: &str) -> (r: String)
    ensures
        r@ == trimmed(s@),
{
    String::from(s.trim())
}

/// Relies on `chrono::NaiveTime::parse_from_str` to read a time of day from
/// `s` in format `fmt`, and on `Timelike::hour` and `Timelike::minute`,
/// which give an hour below 24 and a minute below 60.
#[verifier::external_body]
fn parse_clock(s: &str, fmt: &str) -> (r: Option<(u32, u32)>)
    ensures
        r == clock_parsed(s@, fmt@),
        match r {
            Some((h, m)) => h < 24 && m < 60,
            None => true,
        },
{
    match chrono::NaiveTime::parse_from_str(s, fmt) {
        Ok(t) => Some((t.hour(), t.minute())),
        Err(_) => None,
    }
}

/// Relies on `fancy_regex::Regex::new`, which compiles `pattern` (`None`
/// when it is not valid), and `fancy_regex::Regex::split`, which cuts `text`
/// at the matches: the pieces between them, each `None` where matching
/// failed. The result depends on the two texts alone.
#[verifier::external_body]
fn split_by_pattern(pattern: &str, text: &str) -> (r: Option<Vec<Option<String>>>)
    ensures
        match r {
            Some(v) => pattern_pieces(pattern@, text@) == Some(piece_texts(v@)),
            None => pattern_pieces(pattern@, text@).is_none(),
        },
{
    let re = fancy_regex::Regex::new(pattern).ok()?;
    Some(re.split(text).map(|p| p.ok().map(String::from)).collect())
}

/// The trimmed lines of a section's text.
pub open spec fn clean_lines(s: Seq<char>) -> Seq<Seq<char>> {
    lines_of(s).map_values(|l: Seq<char>| trimmed(l))
}

/// What the reading of one section's text has gathered so far.
pub struct Gathered {
    pub class_code: Seq<char>,
    pub tutorial_code: Seq<char>,
    pub lab_code: Seq<char>,
    pub instructor: Seq<char>,
    pub times: Seq<WeeklyInterval>,
}

/// Nothing gathered yet.
pub open spec fn nothing_gathered() -> Gathered {
    Gathered {
        class_code: Seq::empty(),
        tutorial_code: Seq::empty(),
        lab_code: Seq::empty(),
        instructor: Seq::empty(),
        times: Seq::empty(),
    }
}

/// The line names day `d`.
pub open spec fn names_day(line: Seq<char>, d: Weekday) -> bool {
    contains_text(line, day_name(d))
}

/// The line names some weekday.
pub open spec fn names_any_day(line: Seq<char>) -> bool {
    exists|k: int| 0 <= k < 6 && #[trigger] names_day(line, day_at(k))
}

/// The line names an instructor, by one of the titles in use.
pub open spec fn names_instructor(line: Seq<char>) -> bool {
    contains_text(line, "Mr."@) || contains_text(line, "Ms."@) || contains_text(line, "Dr."@)
        || contains_text(line, "Prof."@) || contains_text(line, "Professor"@)
}

/// The first two pieces of `s` cut at `TIME_SEPARATOR`: the text before the
/// first separator, and the text between it and the next one (or the end).
pub open spec fn time_pieces(s: Seq<char>) -> (Seq<char>, Option<Seq<char>>) {
    let sep = TIME_SEPARATOR@;
    match find_from(s, sep, 0) {
        None => (s, None),
        Some(k) => {
            let rest = s.subrange(k + sep.len(), s.len() as int);
            (
                s.subrange(0, k),
                Some(
                    match find_from(rest, sep, 0) {
                        Some(j) => rest.subrange(0, j),
                        None => rest,
                    },
                ),
            )
        },
    }
}

/// Minutes after midnight of an (hour, minute) pair.
pub open spec fn minutes_of(hm: (u32, u32)) -> int {
    hm.0 * 60 + hm.1
}

/// The meeting time written on line `s` as "start to end", in minutes after
/// midnight; `None` unless both times read and the start comes first.
pub open spec fn slot_of(s: Seq<char>) -> Option<(int, int)> {
    match time_pieces(s).1 {
        None => None,
        Some(b) => match (clock_parsed(time_pieces(s).0, CLOCK_FORMAT@), clock_parsed(b, CLOCK_FORMAT@)) {
            (Some(x), Some(y)) => if minutes_of(x) < minutes_of(y) {
                Some((minutes_of(x), minutes_of(y)))
            } else {
                None
            },
            _ => None,
        },
    }
}

/// `times` with the meeting `w` added, unless it is already there.
pub open spec fn add_once(times: Seq<WeeklyInterval>, w: WeeklyInterval) -> Seq<WeeklyInterval> {
    if times.contains(w) {
        times
    } else {
        times.push(w)
    }
}

/// `times` with a meeting from `start` to `end` added on each of the first
/// `n` weekdays that `line` names.
pub open spec fn add_days(times: Seq<WeeklyInterval>, line: Seq<char>, start: int, end: int, n: int) -> Seq<
    WeeklyInterval,
>
    decreases n,
{
    if n <= 0 {
        times
    } else {
        let before = add_days(times, line, start, end, n - 1);
        if names_day(line, day_at(n - 1)) {
            add_once(before, WeeklyInterval { day: day_at(n - 1), start: start as u32, end: end as u32 })
        } else {
            before
        }
    }
}

/// `g` with the codes read from `line`: a lecture-like code (LEC, CLW,
/// PRJ), else a tutorial code, else a lab code.
pub open spec fn read_codes(g: Gathered, line: Seq<char>) -> Gathered {
    if contains_text(line, "LEC"@) || contains_text(line, "CLW"@) || contains_text(line, "PRJ"@) {
        Gathered { class_code: line, ..g }
    } else if contains_text(line, "TUT"@) {
        Gathered { tutorial_code: line, ..g }
    } else if contains_text(line, "LAB"@) {
        Gathered { lab_code: line, ..g }
    } else {
        g
    }
}

/// `g` after line `i`: its codes; then, for a line naming weekdays, the
/// meeting written on the next line, on each of them; else, for a line
/// naming an instructor, the instructor.
pub open spec fn read_line(lines: Seq<Seq<char>>, i: int, g: Gathered) -> Gathered {
    let line = lines[i];
    let g1 = read_codes(g, line);
    if names_any_day(line) {
        if i + 1 < lines.len() {
            match slot_of(lines[i + 1]) {
                Some((s, e)) => Gathered { times: add_days(g1.times, line, s, e, 6), ..g1 },
                None => g1,
            }
        } else {
            g1
        }
    } else if names_instructor(line) {
        Gathered { instructor: line, ..g1 }
    } else {
        g1
    }
}

/// Enough has been read to make a section.
pub open spec fn complete(g: Gathered) -> bool {
    g.instructor.len() > 0 && g.times.len() > 0 && g.class_code.len() > 0
}

/// How reading a section's text ends.
pub enum ScanEnd {
    /// The second line does not start with "Open": the section is closed.
    Closed,
    /// The text ran out before a section was complete.
    Incomplete,
    /// A complete section was read.
    Found(Gathered),
}

/// Reads the lines from `i` on, having gathered `g`.
pub open spec fn scan(lines: Seq<Seq<char>>, i: int, g: Gathered) -> ScanEnd
    decreases lines.len() - i,
{
    if i < 0 || i >= lines.len() {
        ScanEnd::Incomplete
    } else if i == 1 && !starts_with_text(lines[1], "Open"@) {
        ScanEnd::Closed
    } else if complete(read_line(lines, i, g)) {
        ScanEnd::Found(read_line(lines, i, g))
    } else {
        scan(lines, i + 1, read_line(lines, i, g))
    }
}

/// The section of course `code` made of what was gathered.
pub open spec fn section_of(code: Seq<char>, g: Gathered) -> CourseView {
    CourseView {
        name: code,
        times: g.times,
        instructor: g.instructor,
        class_code: g.class_code,
        tutorial_code: g.tutorial_code,
        lab_code: g.lab_code,
    }
}

proof fn lemma_find_from_occurs(s: Seq<char>, p: Seq<char>, i: int)
    requires
        find_from(s, p, i).is_some(),
    ensures
        occurs_at(s, p, find_from(s, p, i).unwrap()),
        i <= find_from(s, p, i).unwrap(),
    decreases s.len() + 1 - i,
{
    if !(i < 0 || i + p.len() > s.len()) && !occurs_at(s, p, i) {
        lemma_find_from_occurs(s, p, i + 1);
    }
}

/// The meeting time written on `s` as "start to end" (see `slot_of`).
fn time_slot(s: &str) -> (r: Option<(u32, u32)>)
    ensures
        match r {
            Some((a, b)) => slot_of(s@) == Some((a as int, b as int)) && a < b && b < 1440,
            None => slot_of(s@).is_none(),
        },
{
    let sep = TIME_SEPARATOR;
    let n = s.unicode_len();
    let k = match text_find_from(s, sep, 0) {
        Some(k) => k,
        None => {
            return None;
        },
    };
    proof {
        lemma_find_from_occurs(s@, sep@, 0);
    }
    let m = sep.unicode_len();
    let first = s.substring_char(0, k);
    let rest = s.substring_char(k + m, n);
    let second = match text_find_from(rest, sep, 0) {
        Some(j) => {
            proof {
                lemma_find_from_occurs(rest@, sep@, 0);
            }
            rest.substring_char(0, j)
        },
        None => rest,
    };
    assert(time_pieces(s@) == (first@, Some(second@)));
    let x = match parse_clock(first, CLOCK_FORMAT) {
        Some(x) => x,
        None => {
            return None;
        },
    };
    let y = match parse_clock(second, CLOCK_FORMAT) {
        Some(y) => y,
        None => {
            return None;
        },
    };
    let start = x.0 * 60 + x.1;
    let end = y.0 * 60 + y.1;
    if start < end {
        Some((start, end))
    } else {
        None
    }
}

/// Adds `w` to `times` unless it is already there.
fn add_meeting(times: &mut Vec<WeeklyInterval>, w: WeeklyInterval)
    ensures
        final(times)@ == add_once(old(times)@, w),
{
    let mut i: usize = 0;
    while i < times.len()
        invariant
            i <= times@.len(),
            times@ == old(times)@,
            forall|k: int| 0 <= k < i ==> times@[k] != w,
        decreases times@.len() - i,
    {
        if times[i] == w {
            assert(times@.contains(w));
            return;
        }
        i = i + 1;
    }
    times.push(w);
}

/// Whether `line` names day `d`.
fn names(line: &str, d: Weekday) -> (r: bool)
    ensures
        r == names_day(line@, d),
{
    text_contains(line, d.name())
}

/// Whether `line` names some weekday.
fn names_a_day(line: &str) -> (r: bool)
    ensures
        r == names_any_day(line@),
{
    let days = Weekday::all();
    let mut k: usize = 0;
    while k < 6
        invariant
            k <= 6,
            days@.len() == 6,
            forall|j: int| 0 <= j < 6 ==> days@[j] == day_at(j),
            forall|j: int| 0 <= j < k ==> !names_day(line@, #[trigger] day_at(j)),
        decreases 6 - k,
    {
        if names(line, days[k]) {
            assert(names_day(line@, day_at(k as int)));
            return true;
        }
        k = k + 1;
    }
    false
}

/// Adds a meeting from `start` to `end` on each weekday that `line` names.
fn add_on_named_days(times: &mut Vec<WeeklyInterval>, line: &str, start: u32, end: u32)
    ensures
        final(times)@ == add_days(old(times)@, line@, start as int, end as int, 6),
{
    let days = Weekday::all();
    let mut k: usize = 0;
    while k < 6
        invariant
            k <= 6,
            days@.len() == 6,
            forall|j: int| 0 <= j < 6 ==> days@[j] == day_at(j),
            times@ == add_days(old(times)@, line@, start as int, end as int, k as int),
        decreases 6 - k,
    {
        let d = days[k];
        if names(line, d) {
            add_meeting(times, WeeklyInterval { day: d, start, end });
        }
        k = k + 1;
    }
}

/// Whether `line` names an instructor.
fn names_an_instructor(line: &str) -> (r: bool)
    ensures
        r == names_instructor(line@),
{
    text_contains(line, "Mr.") || text_contains(line, "Ms.") || text_contains(line, "Dr.") || text_contains(
        line,
        "Prof.",
    ) || text_contains(line, "Professor")
}

/// The trimmed lines of `data`.
fn clean_lines_of(data: &str) -> (r: Vec<String>)
    ensures
        texts(r@) == clean_lines(data@),
{
    let raw = split_lines(data);
    let ghost rl = lines_of(data@);
    let mut r: Vec<String> = Vec::new();
    let mut i: usize = 0;
    while i < raw.len()
        invariant
            i <= raw@.len(),
            texts(raw@) == rl,
            r@.len() == i,
            forall|k: int| 0 <= k < i ==> (#[trigger] r@[k])@ == trimmed(rl[k]),
        decreases raw@.len() - i,
    {
        assert(rl[i as int] == raw@[i as int]@);
        r.push(trim_text(raw[i].as_str()));
        i = i + 1;
    }
    assert(texts(r@) =~= clean_lines(data@));
    r
}

/// Reads one section of course `course_code` from the text of a listing:
/// the lines are trimmed, and read in order (see `scan`) until a section is
/// complete, which is then added to `course_vec`. Returns false, leaving
/// `course_vec` as it was, when the section is closed (its second line does
/// not start with "Open").
pub fn data_formating(course_code: &str, data: &str, course_vec: &mut Vec<Course>) -> (open: bool)
    ensures
        match scan(clean_lines(data@), 0, nothing_gathered()) {
            ScanEnd::Closed => !open && final(course_vec)@ == old(course_vec)@,
            ScanEnd::Incomplete => open && final(course_vec)@ == old(course_vec)@,
            ScanEnd::Found(g) => open && views(final(course_vec)@) == views(old(course_vec)@).push(
                section_of(course_code@, g),
            ),
        },
{
    let lines = clean_lines_of(data);
    let ghost ls = clean_lines(data@);
    let mut class_code = String::new();
    let mut tutorial_code = String::new();
    let mut lab_code = String::new();
    let mut instructor = String::new();
    let mut datetime: Vec<WeeklyInterval> = Vec::new();
    let ghost g0 = nothing_gathered();
    proof {
        assert(Gathered {
            class_code: class_code@,
            tutorial_code: tutorial_code@,
            lab_code: lab_code@,
            instructor: instructor@,
            times: datetime@,
        } == g0);
    }
    let mut i: usize = 0;
    while i < lines.len()
        invariant
            i <= lines@.len(),
            texts(lines@) == ls,
            ls == clean_lines(data@),
            g0 == nothing_gathered(),
            course_vec@ == old(course_vec)@,
            scan(ls, 0, g0) == scan(
                ls,
                i as int,
                Gathered {
                    class_code: class_code@,
                    tutorial_code: tutorial_code@,
                    lab_code: lab_code@,
                    instructor: instructor@,
                    times: datetime@,
                },
            ),
        decreases lines@.len() - i,
    {
        let ghost g = Gathered {
            class_code: class_code@,
            tutorial_code: tutorial_code@,
            lab_code: lab_code@,
            instructor: instructor@,
            times: datetime@,
        };
        let line = lines[i].as_str();
        assert(line@ == ls[i as int]);
        if i == 1 && !text_starts_with(line, "Open") {
            assert(scan(ls, i as int, g) == ScanEnd::Closed);
            return false;
        }
        if text_contains(line, "LEC") || text_contains(line, "CLW") || text_contains(line, "PRJ") {
            class_code = lines[i].clone();
        } else if text_contains(line, "TUT") {
            tutorial_code = lines[i].clone();
        } else if text_contains(line, "LAB") {
            lab_code = lines[i].clone();
        }
        if names_a_day(line) {
            if i + 1 < lines.len() {
                assert(lines@[i + 1]@ == ls[i + 1]);
                match time_slot(lines[i + 1].as_str()) {
                    Some((start, end)) => {
                        add_on_named_days(&mut datetime, line, start, end);
                    },
                    None => {},
                }
            }
        } else if names_an_instructor(line) {
            instructor = lines[i].clone();
        }
        let ghost g2 = Gathered {
            class_code: class_code@,
            tutorial_code: tutorial_code@,
            lab_code: lab_code@,
            instructor: instructor@,
            times: datetime@,
        };
        assert(g2 == read_line(ls, i as int, g));
        if instructor.unicode_len() > 0 && datetime.len() > 0 && class_code.unicode_len() > 0 {
            let course = Course::create_course_time(
                String::from_str(course_code),
                datetime,
                instructor,
                class_code,
                tutorial_code,
                lab_code,
            );
            assert(complete(g2));
            assert(scan(ls, i as int, g) == ScanEnd::Found(g2));
            assert(course@ == section_of(course_code@, g2));
            course_vec.push(course);
            assert(views(course_vec@) =~= views(old(course_vec)@).push(section_of(course_code@, g2)));
            return true;
        }
        i = i + 1;
    }
    true
}

/// The contents of the pieces of a listing.
pub open spec fn piece_texts(v: Seq<Option<String>>) -> Seq<Option<Seq<char>>> {
    v.map_values(|p: Option<String>| match p {
        Some(t) => Some(t@),
        None => None,
    })
}

/// Reads each piece of a listing of course `code` in turn (a missing piece
/// is skipped): whether some piece was an open section, and the sections
/// read, in order.
pub open spec fn listing_of(code: Seq<char>, pieces: Seq<Option<Seq<char>>>) -> (bool, Seq<CourseView>)
    decreases pieces.len(),
{
    if pieces.len() == 0 {
        (false, Seq::empty())
    } else {
        let before = listing_of(code, pieces.drop_last());
        match pieces.last() {
            None => before,
            Some(t) => match scan(clean_lines(t), 0, nothing_gathered()) {
                ScanEnd::Closed => before,
                ScanEnd::Incomplete => (true, before.1),
                ScanEnd::Found(g) => (true, before.1.push(section_of(code, g))),
            },
        }
    }
}

/// The sections of course `course` read from the pieces of its listing;
/// `None` when no piece is an open section.
pub fn collect_listing(course: &str, pieces: &Vec<Option<String>>) -> (r: Option<Vec<Course>>)
    ensures
        match r {
            Some(v) => listing_of(course@, piece_texts(pieces@)).0 && views(v@) == listing_of(
                course@,
                piece_texts(pieces@),
            ).1,
            None => !listing_of(course@, piece_texts(pieces@)).0,
        },
{
    let ghost ps = piece_texts(pieces@);
    let mut course_vec: Vec<Course> = Vec::new();
    let mut any_open = false;
    assert(views(course_vec@) =~= Seq::<CourseView>::empty());
    assert(ps.take(0) =~= Seq::<Option<Seq<char>>>::empty());
    let mut i: usize = 0;
    while i < pieces.len()
        invariant
            i <= pieces@.len(),
            ps == piece_texts(pieces@),
            listing_of(course@, ps.take(i as int)) == (any_open, views(course_vec@)),
        decreases pieces@.len() - i,
    {
        assert(ps.take(i as int + 1).drop_last() =~= ps.take(i as int));
        match &pieces[i] {
            Some(text) => {
                assert(ps[i as int] == Some(text@));
                if data_formating(course, text.as_str(), &mut course_vec) {
                    any_open = true;
                }
            },
            None => {},
        }
        i = i + 1;
    }
    assert(ps.take(i as int) =~= ps);
    if any_open {
        Some(course_vec)
    } else {
        None
    }
}

/// The sections of course `course` read from the text of its listing: the
/// text is trimmed, cut into pieces at the lines that hold only a number
/// (`SECTION_BREAK`), and the pieces are read as `listing_of` says. `None`
/// for an empty text, when the pattern cannot be used, or when no piece is
/// an open section.
pub open spec fn listing_result(course: Seq<char>, text: Seq<char>) -> Option<Seq<CourseView>> {
    let t = trimmed(text);
    if t.len() == 0 {
        None
    } else {
        match pattern_pieces(SECTION_BREAK@, t) {
            None => None,
            Some(p) => if listing_of(course, p).0 {
                Some(listing_of(course, p).1)
            } else {
                None
            },
        }
    }
}

/// The sections of course `course` read from the text of its listing (see
/// `listing_result`).
pub fn parse_course_listing(course: &str, text: &str) -> (r: Option<Vec<Course>>)
    ensures
        match r {
            Some(v) => listing_result(course@, text@) == Some(views(v@)),
            None => listing_result(course@, text@).is_none(),
        },
{
    let course_time = trim_text(text);
    if course_time.unicode_len() == 0 {
        return None;
    }
    match split_by_pattern(SECTION_BREAK, course_time.as_str()) {
        Some(pieces) => collect_listing(course, &pieces),
        None => None,
    }
}

} // verus!
