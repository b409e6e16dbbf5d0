use vstd::prelude::*;
use vstd::string::*;

verus! {

/// Minutes in one day; a time of day is a count of minutes after midnight.
pub const MINUTES_PER_DAY: u32 = 1440;

/// The six teaching days of a week (Sunday has no classes).
#[derive(Clone, Copy, Debug, PartialEq, Eq, Structural)]
pub enum Weekday {
    Monday,
    Tuesday,
    Wednesday,
    Thursday,
    Friday,
    Saturday,
}

/// The position of a day in the week, Monday first.
pub open spec fn day_index(d: Weekday) -> int {
    match d {
        Weekday::Monday => 0,
        Weekday::Tuesday => 1,
        Weekday::Wednesday => 2,
        Weekday::Thursday => 3,
        Weekday::Friday => 4,
        Weekday::Saturday => 5,
    }
}

/// The day at a position of the week (positions 0 to 5).
pub open spec fn day_at(i: int) -> Weekday {
    if i == 0 {
        Weekday::Monday
    } else if i == 1 {
        Weekday::Tuesday
    } else if i == 2 {
        Weekday::Wednesday
    } else if i == 3 {
        Weekday::Thursday
    } else if i == 4 {
        Weekday::Friday
    } else {
        Weekday::Saturday
    }
}

/// The English name of a day.
pub open spec fn day_name(d: Weekday) -> Seq<char> {
    match d {
        Weekday::Monday => "Monday"@,
        Weekday::Tuesday => "Tuesday"@,
        Weekday::Wednesday => "Wednesday"@,
        Weekday::Thursday => "Thursday"@,
        Weekday::Friday => "Friday"@,
        Weekday::Saturday => "Saturday"@,
    }
}

/// The day whose English name is exactly `s`, if there is one.
pub open spec fn day_named(s: Seq<char>) -> Option<Weekday> {
    if s == "Monday"@ {
        Some(Weekday::Monday)
    } else if s == "Tuesday"@ {
        Some(Weekday::Tuesday)
    } else if s == "Wednesday"@ {
        Some(Weekday::Wednesday)
    } else if s == "Thursday"@ {
        Some(Weekday::Thursday)
    } else if s == "Friday"@ {
        Some(Weekday::Friday)
    } else if s == "Saturday"@ {
        Some(Weekday::Saturday)
    } else {
        None
    }
}

/// Character-wise equality of two strings.
pub fn text_eq(a: &str, b: &str) -> (r: bool)
    ensures
        r == (a@ == b@),
{
    let n = a.unicode_len();
    if n != b.unicode_len() {
        return false;
    }
    let mut i: usize = 0;
    while i < n
        invariant
            n == a@.len(),
            n == b@.len(),
            i <= n,
            forall|k: int| 0 <= k < i ==> a@[k] == b@[k],
        decreases n - i,
    {
        if a.get_char(i) != b.get_char(i) {
            return false;
        }
        i = i + 1;
    }
    assert(a@ =~= b@);
    true
}

impl Weekday {
    /// All six days, Monday first.
    pub fn all() -> (r: Vec<Weekday>)
        ensures
            r@.len() == 6,
            forall|i: int| 0 <= i < 6 ==> r@[i] == day_at(i),
    {
        vec![
            Weekday::Monday,
            Weekday::Tuesday,
            Weekday::Wednesday,
            Weekday::Thursday,
            Weekday::Friday,
            Weekday::Saturday,
        ]
    }

    /// Position in the week, Monday being 0.
    pub fn index(self) -> (r: usize)
        ensures
            r == day_index(self),
            r < 6,
            day_at(r as int) == self,
    {
        match self {
            Weekday::Monday => 0,
            Weekday::Tuesday => 1,
            Weekday::Wednesday => 2,
            Weekday::Thursday => 3,
            Weekday::Friday => 4,
            Weekday::Saturday => 5,
        }
    }

    /// The English name of the day.
    pub fn name(self) -> (r: &'static str)
        ensures
            r@ == day_name(self),
    {
        match self {
            Weekday::Monday => "Monday",
            Weekday::Tuesday => "Tuesday",
            Weekday::Wednesday => "Wednesday",
            Weekday::Thursday => "Thursday",
            Weekday::Friday => "Friday",
            Weekday::Saturday => "Saturday",
        }
    }

    /// Reads a day from its English name; any other text names no day.
    pub fn from_name(s: &str) -> (r: Option<Weekday>)
        ensures
            r == day_named(s@),
    {
        if text_eq(s, "Monday") {
            Some(Weekday::Monday)
        } else if text_eq(s, "Tuesday") {
            Some(Weekday::Tuesday)
        } else if text_eq(s, "Wednesday") {
            Some(Weekday::Wednesday)
        } else if text_eq(s, "Thursday") {
            Some(Weekday::Thursday)
        } else if text_eq(s, "Friday") {
            Some(Weekday::Friday)
        } else if text_eq(s, "Saturday") {
            Some(Weekday::Saturday)
        } else {
            None
        }
    }
}

/// One weekly class meeting: a day, and the minutes after midnight at which
/// it starts and ends.
#[derive(Clone, Copy, Debug, PartialEq, Eq, Structural)]
pub struct WeeklyInterval {
    pub day: Weekday,
    pub start: u32,
    pub end: u32,
}

impl WeeklyInterval {
    /// A meeting is well formed when it starts before it ends, within one day.
    pub open spec fn wf(self) -> bool {
        self.start < self.end && self.end <= MINUTES_PER_DAY
    }

    /// A meeting from `start` to `end` (minutes after midnight) on `day`;
    /// `None` unless it starts before it ends, within one day.
    pub fn new(day: Weekday, start: u32, end: u32) -> (r: Option<WeeklyInterval>)
        ensures
            r == (if start < end && end <= MINUTES_PER_DAY {
                Some(WeeklyInterval { day, start, end })
            } else {
                None
            }),
    {
        if start < end && end <= MINUTES_PER_DAY {
            Some(WeeklyInterval { day, start, end })
        } else {
            None
        }
    }
}

/// Two meetings clash when they fall on the same day and their half-open
/// time ranges overlap.
pub open spec fn clash(a: WeeklyInterval, b: WeeklyInterval) -> bool {
    a.day == b.day && b.start < a.end && b.end > a.start
}

/// The digit character for `d` (0 to 9).
pub open spec fn digit(d: int) -> char {
    "0123456789"@[d]
}

/// `n` (below 100) written with two digits, zero-padded.
pub open spec fn two_digits(n: int) -> Seq<char> {
    seq![digit(n / 10), digit(n % 10)]
}

/// A time of day as "HH:MM".
pub open spec fn clock_text(m: int) -> Seq<char> {
    two_digits(m / 60) + ":"@ + two_digits(m % 60)
}

fn digit_text(d: u32) -> (r: &'static str)
    requires
        d < 10,
    ensures
        r@ == seq![digit(d as int)],
{
    proof {
        reveal_strlit("0123456789");
    }
    let r = "0123456789".substring_char(d as usize, d as usize + 1);
    assert(r@ =~= seq![digit(d as int)]);
    r
}

/// Writes a time of day (minutes after midnight, at most one day) as "HH:MM".
pub fn clock_string(m: u32) -> (r: String)
    requires
        m <= MINUTES_PER_DAY,
    ensures
        r@ == clock_text(m as int),
{
    let h = m / 60;
    let mm = m % 60;
    let mut r = String::from_str(digit_text(h / 10));
    r.append(digit_text(h % 10));
    r.append(":");
    r.append(digit_text(mm / 10));
    r.append(digit_text(mm % 10));
    assert(r@ =~= clock_text(m as int));
    r
}

} // verus!
