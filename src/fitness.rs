use vstd::prelude::*;
use crate::time::{Weekday, WeeklyInterval, day_at, day_index};
use crate::section::{Course, CourseView, views};

verus! {

/// `t` with `x` placed before the first meeting that starts later than `x`
/// (at the end if there is none): one step of a stable sort by start time.
pub open spec fn insert_by_start(t: Seq<WeeklyInterval>, x: WeeklyInterval) -> Seq<WeeklyInterval>
    decreases t.len(),
{
    if t.len() == 0 {
        seq![x]
    } else if x.start < t[0].start {
        seq![x] + t
    } else {
        seq![t[0]] + insert_by_start(t.drop_first(), x)
    }
}

/// `t` with the meetings of `times` that fall on `d` inserted one by one,
/// in their order.
pub open spec fn place_day(t: Seq<WeeklyInterval>, times: Seq<WeeklyInterval>, d: Weekday) -> Seq<WeeklyInterval>
    decreases times.len(),
{
    if times.len() == 0 {
        t
    } else {
        let before = place_day(t, times.drop_last(), d);
        if times.last().day == d {
            insert_by_start(before, times.last())
        } else {
            before
        }
    }
}

/// The meetings of all sections of `a` on day `d`, sorted by start time;
/// meetings that start together keep the order in which they occur in `a`.
pub open spec fn timeline(a: Seq<CourseView>, d: Weekday) -> Seq<WeeklyInterval>
    decreases a.len(),
{
    if a.len() == 0 {
        Seq::empty()
    } else {
        place_day(timeline(a.drop_last(), d), a.last().times, d)
    }
}

/// The sum, over each pair of consecutive meetings, of the minutes from the
/// end of the first to the start of the next.
pub open spec fn gap_total(t: Seq<WeeklyInterval>) -> int
    decreases t.len(),
{
    if t.len() < 2 {
        0
    } else {
        gap_total(t.drop_last()) + t.last().start - t[t.len() - 2].end
    }
}

/// What one day adds to a score: 20 for a day with a single meeting; the
/// total gap for a day with two or more meetings, unless it is the preferred
/// day off; nothing otherwise.
pub open spec fn day_score(t: Seq<WeeklyInterval>, preferred: bool) -> int {
    if t.len() == 1 {
        20
    } else if t.len() >= 2 && !preferred {
        gap_total(t)
    } else {
        0
    }
}

/// What the preferred day off adds to a score: 100 for each meeting on that
/// day; -200 when no meeting falls on it, or when no day is preferred.
pub open spec fn day_off_score(a: Seq<CourseView>, preferred: Option<Weekday>) -> int {
    match preferred {
        Some(p) => if timeline(a, p).len() > 0 {
            timeline(a, p).len() as int * 100
        } else {
            -200
        },
        None => -200,
    }
}

/// The day scores of the first `n` days of the week.
pub open spec fn week_score(a: Seq<CourseView>, preferred: Option<Weekday>, n: int) -> int
    decreases n,
{
    if n <= 0 {
        0
    } else {
        week_score(a, preferred, n - 1) + day_score(
            timeline(a, day_at(n - 1)),
            preferred == Some(day_at(n - 1)),
        )
    }
}

/// The fitness of a selection of sections. Lower is better: a free day off
/// and compact days give low scores.
pub open spec fn fitness(a: Seq<CourseView>, preferred: Option<Weekday>) -> int {
    day_off_score(a, preferred) + week_score(a, preferred, 6)
}

proof fn lemma_insert_at(t: Seq<WeeklyInterval>, x: WeeklyInterval, i: int)
    requires
        0 <= i <= t.len(),
        forall|j: int| 0 <= j < i ==> (#[trigger] t[j]).start <= x.start,
        i == t.len() || x.start < t[i].start,
    ensures
        insert_by_start(t, x) == t.insert(i, x),
    decreases i,
{
    if i == 0 {
        if t.len() == 0 {
            assert(t.insert(0, x) =~= seq![x]);
        } else {
            assert(t.insert(0, x) =~= seq![x] + t);
        }
    } else {
        let r = t.drop_first();
        assert forall|j: int| 0 <= j < i - 1 implies (#[trigger] r[j]).start <= x.start by {
            assert(r[j] == t[j + 1]);
        }
        lemma_insert_at(r, x, i - 1);
        assert(t.insert(i, x) =~= seq![t[0]] + r.insert(i - 1, x));
    }
}

/// Inserts `x` into `t` before the first meeting that starts later.
fn insert_meeting(t: &mut Vec<WeeklyInterval>, x: WeeklyInterval)
    ensures
        final(t)@ == insert_by_start(old(t)@, x),
{
    let mut i: usize = 0;
    while i < t.len() && t[i].start <= x.start
        invariant
            i <= t@.len(),
            t@ == old(t)@,
            forall|j: int| 0 <= j < i ==> (#[trigger] t@[j]).start <= x.start,
        decreases t@.len() - i,
    {
        i = i + 1;
    }
    proof {
        lemma_insert_at(t@, x, i as int);
    }
    t.insert(i, x);
}

/// The meetings of all sections of `solution` on day `d`, sorted by start.
pub fn day_timeline(solution: &Vec<Course>, d: Weekday) -> (r: Vec<WeeklyInterval>)
    ensures
        r@ == timeline(views(solution@), d),
{
    let ghost a = views(solution@);
    let mut t: Vec<WeeklyInterval> = Vec::new();
    let mut k: usize = 0;
    while k < solution.len()
        invariant
            k <= solution@.len(),
            a == views(solution@),
            t@ == timeline(a.take(k as int), d),
        decreases solution@.len() - k,
    {
        let times = &solution[k].datetime;
        let ghost base = timeline(a.take(k as int), d);
        let mut j: usize = 0;
        while j < times.len()
            invariant
                k < solution@.len(),
                times@ == a[k as int].times,
                j <= times@.len(),
                t@ == place_day(base, times@.take(j as int), d),
            decreases times@.len() - j,
        {
            assert(times@.take(j as int + 1).drop_last() =~= times@.take(j as int));
            if times[j].day == d {
                insert_meeting(&mut t, times[j]);
            }
            j = j + 1;
        }
        assert(times@.take(j as int) =~= times@);
        assert(a.take(k as int + 1).drop_last() =~= a.take(k as int));
        k = k + 1;
    }
    assert(a.take(k as int) =~= a);
    t
}

/// For each day of the week, Monday first, the day's meetings sorted by start.
pub fn transform_course_set(solution: &Vec<Course>) -> (r: Vec<Vec<WeeklyInterval>>)
    ensures
        r@.len() == 6,
        forall|i: int| 0 <= i < 6 ==> (#[trigger] r@[i])@ == timeline(views(solution@), day_at(i)),
{
    let days = Weekday::all();
    let mut r: Vec<Vec<WeeklyInterval>> = Vec::new();
    let mut i: usize = 0;
    while i < 6
        invariant
            i <= 6,
            days@.len() == 6,
            forall|j: int| 0 <= j < 6 ==> days@[j] == day_at(j),
            r@.len() == i,
            forall|j: int| 0 <= j < i ==> (#[trigger] r@[j])@ == timeline(views(solution@), day_at(j)),
        decreases 6 - i,
    {
        r.push(day_timeline(solution, days[i]));
        i = i + 1;
    }
    r
}

/// The total gap of a sorted day.
fn gap_sum(t: &Vec<WeeklyInterval>) -> (r: i128)
    ensures
        r == gap_total(t@),
        -(t@.len() as int) * 0x1_0000_0000 <= r <= (t@.len() as int) * 0x1_0000_0000,
{
    if t.len() < 2 {
        return 0;
    }
    let mut g: i128 = 0;
    let mut i: usize = 1;
    while i < t.len()
        invariant
            1 <= i <= t@.len(),
            g == gap_total(t@.take(i as int)),
            -(i as int) * 0x1_0000_0000 <= g <= (i as int) * 0x1_0000_0000,
        decreases t@.len() - i,
    {
        assert(t@.take(i as int + 1).drop_last() =~= t@.take(i as int));
        g = g + (t[i].start as i128 - t[i - 1].end as i128);
        i = i + 1;
    }
    assert(t@.take(i as int) =~= t@);
    g
}

/// The fitness of `solution` (see `fitness`) for the preferred day off.
pub fn cal_fitness_score(solution: &Vec<Course>, preferred: Option<Weekday>) -> (r: i128)
    ensures
        r == fitness(views(solution@), preferred),
{
    let ghost a = views(solution@);
    let time_slot = transform_course_set(solution);
    let mut score: i128 = match preferred {
        Some(p) => {
            let n = time_slot[p.index()].len();
            if n > 0 {
                n as i128 * 100
            } else {
                -200
            }
        },
        None => -200,
    };
    let ghost off = score as int;
    assert(off == day_off_score(a, preferred));
    let mut i: usize = 0;
    while i < 6
        invariant
            i <= 6,
            time_slot@.len() == 6,
            forall|j: int| 0 <= j < 6 ==> (#[trigger] time_slot@[j])@ == timeline(a, day_at(j)),
            -200 <= off <= 0x1_0000_0000_0000_0000 * 100,
            score == off + week_score(a, preferred, i as int),
            -(i as int) * 0x1_0000_0000_0000_0000_0000_0000 <= week_score(a, preferred, i as int)
                <= (i as int) * 0x1_0000_0000_0000_0000_0000_0000,
        decreases 6 - i,
    {
        let day = &time_slot[i];
        let is_preferred = match preferred {
            Some(p) => p.index() == i,
            None => false,
        };
        proof {
            if let Some(p) = preferred {
                assert((day_index(p) == i) == (p == day_at(i as int)));
            }
        }
        if day.len() == 1 {
            score = score + 20;
        } else if day.len() >= 2 && !is_preferred {
            let g = gap_sum(day);
            score = score + g;
        }
        i = i + 1;
    }
    score
}

} // verus!
