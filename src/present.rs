use vstd::prelude::*;
use vstd::string::*;
use crate::time::{WeeklyInterval, MINUTES_PER_DAY, day_index, clock_text, clock_string};
use crate::section::{Course, CourseView, views};

verus! {

/// Number of hourly rows of the timetable grid (09:00 to 22:59).
pub const GRID_HOURS: usize = 14;

/// First hour shown by the timetable grid.
pub const FIRST_HOUR: u32 = 9;

/// Number of cells of the timetable grid: one per weekday and hourly row.
pub const GRID_CELLS: usize = 84;

/// The cell of a meeting in the grid, from the hour in which it starts and
/// its weekday: (hour - 9) * 6 + the weekday's number, Monday being 1 and
/// Saturday 6. `None` when the hour comes before the grid's first hour or
/// the cell falls beyond the grid's last cell.
pub open spec fn cell_of(t: WeeklyInterval) -> Option<int> {
    let hour = t.start / 60;
    let cell = (hour - FIRST_HOUR) * 6 + day_index(t.day) + 1;
    if FIRST_HOUR <= hour && cell < GRID_CELLS {
        Some(cell)
    } else {
        None
    }
}

/// A meeting can be drawn when its cell lies in the grid and it ends
/// within the day.
pub open spec fn drawable(t: WeeklyInterval) -> bool {
    cell_of(t).is_some() && t.end <= MINUTES_PER_DAY
}

/// Every meeting of every section of `a` can be drawn.
pub open spec fn all_drawable(a: Seq<CourseView>) -> bool {
    forall|i: int, p: int| 0 <= i < a.len() && 0 <= p < a[i].times.len() ==> drawable(#[trigger] a[i].times[p])
}

/// The text of a cell: course name, "HH:MM - HH:MM", instructor, one per line.
pub open spec fn cell_text(c: CourseView, t: WeeklyInterval) -> Seq<char> {
    c.name + "\n"@ + clock_text(t.start as int) + " - "@ + clock_text(t.end as int) + "\n"@ + c.instructor
}

/// `g` with the meetings `times` of section `c` written into their cells,
/// in order; a later meeting overwrites an earlier one in the same cell.
pub open spec fn paint(g: Seq<Seq<char>>, c: CourseView, times: Seq<WeeklyInterval>) -> Seq<Seq<char>>
    decreases times.len(),
{
    if times.len() == 0 {
        g
    } else {
        let before = paint(g, c, times.drop_last());
        before.update(cell_of(times.last()).unwrap(), cell_text(c, times.last()))
    }
}

/// The grid with no meeting drawn.
pub open spec fn empty_grid() -> Seq<Seq<char>> {
    Seq::new(GRID_CELLS as nat, |i: int| Seq::<char>::empty())
}

/// The grid of a selection: its sections painted in order.
pub open spec fn grid_of(a: Seq<CourseView>) -> Seq<Seq<char>>
    decreases a.len(),
{
    if a.len() == 0 {
        empty_grid()
    } else {
        paint(grid_of(a.drop_last()), a.last(), a.last().times)
    }
}

/// The contents of a sequence of strings.
pub open spec fn texts(v: Seq<String>) -> Seq<Seq<char>> {
    v.map_values(|s: String| s@)
}

/// The registration codes of a section: the lecture code, then the lab code
/// and the tutorial code when they are not empty.
pub open spec fn codes_of(c: CourseView) -> Seq<Seq<char>> {
    seq![c.class_code] + (if c.lab_code.len() > 0 {
        seq![c.lab_code]
    } else {
        Seq::empty()
    }) + (if c.tutorial_code.len() > 0 {
        seq![c.tutorial_code]
    } else {
        Seq::empty()
    })
}

/// For each section of `a`, in order: its course name and its codes.
pub open spec fn choices_of(a: Seq<CourseView>) -> Seq<(Seq<char>, Seq<Seq<char>>)> {
    a.map_values(|c: CourseView| (c.name, codes_of(c)))
}

/// The contents of a list of (course, codes) pairs.
pub open spec fn choice_texts(v: Seq<(String, Vec<String>)>) -> Seq<(Seq<char>, Seq<Seq<char>>)> {
    v.map_values(|e: (String, Vec<String>)| (e.0@, texts(e.1@)))
}

/// The grid cell of a meeting (see `cell_of`); `None` when the computed
/// cell lies outside the grid.
pub fn find_timetable_index(t: WeeklyInterval) -> (r: Option<usize>)
    ensures
        match r {
            Some(i) => cell_of(t) == Some(i as int) && i < GRID_CELLS,
            None => cell_of(t).is_none(),
        },
{
    let hour = t.start / 60;
    if hour < FIRST_HOUR || hour - FIRST_HOUR >= GRID_HOURS as u32 {
        return None;
    }
    let cell = ((hour - FIRST_HOUR) as usize) * 6 + t.day.index() + 1;
    if cell < GRID_CELLS {
        Some(cell)
    } else {
        None
    }
}

/// Whether every meeting of every section of `course_set` can be drawn.
pub fn grid_drawable(course_set: &Vec<Course>) -> (r: bool)
    ensures
        r == all_drawable(views(course_set@)),
{
    let ghost a = views(course_set@);
    let mut k: usize = 0;
    while k < course_set.len()
        invariant
            k <= course_set@.len(),
            a == views(course_set@),
            forall|i: int, p: int| 0 <= i < k && 0 <= p < a[i].times.len() ==> drawable(#[trigger] a[i].times[p]),
        decreases course_set@.len() - k,
    {
        let times = &course_set[k].datetime;
        assert(a[k as int].times == times@);
        let mut j: usize = 0;
        while j < times.len()
            invariant
                k < course_set@.len(),
                a == views(course_set@),
                a[k as int].times == times@,
                j <= times@.len(),
                forall|i: int, p: int| 0 <= i < k && 0 <= p < a[i].times.len() ==> drawable(#[trigger] a[i].times[p]),
                forall|p: int| 0 <= p < j ==> drawable(#[trigger] a[k as int].times[p]),
            decreases times@.len() - j,
        {
            let t = times[j];
            if find_timetable_index(t).is_none() || t.end > MINUTES_PER_DAY {
                assert(!drawable(a[k as int].times[j as int]));
                return false;
            }
            j = j + 1;
        }
        k = k + 1;
    }
    true
}

/// The text of the cell of meeting `t` of section `c`.
fn cell_string(c: &Course, t: WeeklyInterval) -> (r: String)
    requires
        t.start <= MINUTES_PER_DAY,
        t.end <= MINUTES_PER_DAY,
    ensures
        r@ == cell_text(c@, t),
{
    let mut s = c.course_name.clone();
    s.append("\n");
    s.append(clock_string(t.start).as_str());
    s.append(" - ");
    s.append(clock_string(t.end).as_str());
    s.append("\n");
    s.append(c.instructor.as_str());
    s
}

/// The timetable grid of a selection: `GRID_CELLS` texts, each empty or
/// describing the meeting drawn there. Every meeting must have a cell in the
/// grid and end within the day (`grid_drawable` tells).
pub fn reduce_course_set_to_timetable_string(course_set: &Vec<Course>) -> (r: Vec<String>)
    requires
        all_drawable(views(course_set@)),
    ensures
        texts(r@) == grid_of(views(course_set@)),
{
    let ghost a = views(course_set@);
    let mut res: Vec<String> = Vec::new();
    let mut n: usize = 0;
    while n < GRID_CELLS
        invariant
            n <= GRID_CELLS,
            res@.len() == n,
            forall|i: int| 0 <= i < n ==> (#[trigger] res@[i])@ == Seq::<char>::empty(),
        decreases GRID_CELLS - n,
    {
        res.push(String::new());
        n = n + 1;
    }
    assert(texts(res@) =~= grid_of(a.take(0)));
    let mut k: usize = 0;
    while k < course_set.len()
        invariant
            k <= course_set@.len(),
            a == views(course_set@),
            texts(res@) == grid_of(a.take(k as int)),
            all_drawable(a),
            res@.len() == GRID_CELLS,
        decreases course_set@.len() - k,
    {
        let course = &course_set[k];
        let times = &course.datetime;
        assert(a[k as int] == course@);
        let ghost base = grid_of(a.take(k as int));
        let mut j: usize = 0;
        while j < times.len()
            invariant
                k < course_set@.len(),
                a == views(course_set@),
                a[k as int] == course@,
                times@ == course@.times,
                j <= times@.len(),
                res@.len() == GRID_CELLS,
                base.len() == GRID_CELLS,
                texts(res@) == paint(base, course@, times@.take(j as int)),
                all_drawable(a),
            decreases times@.len() - j,
        {
            let t = times[j];
            assert(times@.take(j as int + 1).drop_last() =~= times@.take(j as int));
            assert(drawable(a[k as int].times[j as int]));
            if let Some(i) = find_timetable_index(t) {
                let s = cell_string(course, t);
                res.set(i, s);
                assert(texts(res@) =~= paint(base, course@, times@.take(j as int + 1)));
            }
            j = j + 1;
        }
        proof {
            assert(times@.take(j as int) =~= times@);
            assert(a.take(k as int + 1).drop_last() =~= a.take(k as int));
        }
        k = k + 1;
    }
    assert(a.take(k as int) =~= a);
    res
}

/// The registration codes of one section (see `codes_of`).
fn section_codes(c: &Course) -> (r: Vec<String>)
    ensures
        texts(r@) == codes_of(c@),
{
    let mut codes: Vec<String> = Vec::new();
    codes.push(c.class_code.clone());
    if c.lab_code.unicode_len() > 0 {
        codes.push(c.lab_code.clone());
    }
    if c.tutorial_code.unicode_len() > 0 {
        codes.push(c.tutorial_code.clone());
    }
    assert(texts(codes@) =~= codes_of(c@));
    codes
}

/// For each section of a selection, in order, its course name and the codes
/// to register for it.
pub fn reduce_course_set_to_course_and_choice_vec(course_set: &Vec<Course>) -> (r: Vec<(String, Vec<String>)>)
    ensures
        choice_texts(r@) == choices_of(views(course_set@)),
{
    let ghost a = views(course_set@);
    let mut r: Vec<(String, Vec<String>)> = Vec::new();
    let mut k: usize = 0;
    while k < course_set.len()
        invariant
            k <= course_set@.len(),
            a == views(course_set@),
            r@.len() == k,
            forall|i: int| 0 <= i < k ==> ((#[trigger] r@[i]).0@, texts(r@[i].1@)) == (a[i].name, codes_of(a[i])),
        decreases course_set@.len() - k,
    {
        let c = &course_set[k];
        assert(a[k as int] == c@);
        let entry = (c.course_name.clone(), section_codes(c));
        r.push(entry);
        k = k + 1;
    }
    assert(choice_texts(r@) =~= choices_of(a));
    r
}

} // verus!
