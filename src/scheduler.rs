use vstd::prelude::*;
use crate::time::{Weekday, WeeklyInterval, clash, day_named};
use crate::conflict::{available, fits};
use crate::section::{Course, CourseView, views, identities, duplicate_all, same_selection};
use crate::catalog::{Catalog, catalog_wf, course_names};
use crate::fitness::{fitness, cal_fitness_score};
use crate::present::{
    grid_of, all_drawable, texts, choices_of, choice_texts, reduce_course_set_to_timetable_string,
    grid_drawable,
    reduce_course_set_to_course_and_choice_vec,
};

verus! {

/// A scored selection held by the ranking store.
pub struct Candidate {
    score: i128,
    assignment: Vec<Course>,
}

impl View for Candidate {
    type V = (int, Seq<CourseView>);

    closed spec fn view(&self) -> (int, Seq<CourseView>) {
        (self.score as int, views(self.assignment@))
    }
}

/// The views of the stored candidates.
pub open spec fn candidate_views(s: Seq<Candidate>) -> Seq<(int, Seq<CourseView>)> {
    s.map_values(|c: Candidate| c@)
}

/// All meetings of the sections of `a`, section after section.
pub open spec fn flat_times(a: Seq<CourseView>) -> Seq<WeeklyInterval>
    decreases a.len(),
{
    if a.len() == 0 {
        Seq::empty()
    } else {
        flat_times(a.drop_last()) + a.last().times
    }
}

/// No meeting of one section of `a` clashes with a meeting of another.
pub open spec fn conflict_free(a: Seq<CourseView>) -> bool {
    forall|i: int, j: int, p: int, q: int|
        0 <= i < a.len() && 0 <= j < a.len() && i != j && 0 <= p < a[i].times.len() && 0 <= q
            < a[j].times.len() ==> !clash(#[trigger] a[i].times[p], #[trigger] a[j].times[q])
}

/// `a` takes, for each of the first `a.len()` courses of catalog `c`, one
/// of that course's sections.
pub open spec fn picks_from(c: Seq<(Seq<char>, Seq<CourseView>)>, a: Seq<CourseView>) -> bool {
    &&& a.len() <= c.len()
    &&& forall|i: int| 0 <= i < a.len() ==> c[i].1.contains(#[trigger] a[i])
}

/// `a` is a timetable for catalog `c`: one section of every course, no two
/// of them meeting at the same time.
pub open spec fn is_solution(c: Seq<(Seq<char>, Seq<CourseView>)>, a: Seq<CourseView>) -> bool {
    &&& a.len() == c.len()
    &&& picks_from(c, a)
    &&& conflict_free(a)
}

/// Some stored candidate holds the same sections as `a`.
pub open spec fn stores(s: Seq<(int, Seq<CourseView>)>, a: Seq<CourseView>) -> bool {
    exists|m: int| 0 <= m < s.len() && identities((#[trigger] s[m]).1) == identities(a)
}

/// Scores never decrease along the store.
pub open spec fn sorted_by_score(s: Seq<(int, Seq<CourseView>)>) -> bool {
    forall|i: int, j: int| 0 <= i <= j < s.len() ==> (#[trigger] s[i]).0 <= (#[trigger] s[j]).0
}

/// No two stored candidates hold the same sections.
pub open spec fn distinct_selections(s: Seq<(int, Seq<CourseView>)>) -> bool {
    forall|i: int, j: int|
        0 <= i < j < s.len() ==> identities((#[trigger] s[i]).1) != identities((#[trigger] s[j]).1)
}

/// The invariant of the ranking store.
pub open spec fn store_ok(s: Seq<(int, Seq<CourseView>)>) -> bool {
    sorted_by_score(s) && distinct_selections(s)
}

/// `idx` places each candidate of `s` in `t`, at increasing positions.
pub open spec fn embedding(
    s: Seq<(int, Seq<CourseView>)>,
    t: Seq<(int, Seq<CourseView>)>,
    idx: Seq<int>,
) -> bool {
    &&& idx.len() == s.len()
    &&& forall|k: int| 0 <= k < s.len() ==> 0 <= #[trigger] idx[k] < t.len() && t[idx[k]] == s[k]
    &&& forall|i: int, j: int| 0 <= i < j < s.len() ==> #[trigger] idx[i] < #[trigger] idx[j]
}

/// Every candidate of `s` is still in `t`, and they keep their order:
/// `s` is a subsequence of `t`.
pub open spec fn keeps(s: Seq<(int, Seq<CourseView>)>, t: Seq<(int, Seq<CourseView>)>) -> bool {
    exists|idx: Seq<int>| embedding(s, t, idx)
}

/// Every candidate of `t` was in `s`, or is a timetable for `c` that extends
/// `prefix`, scored by its fitness for `preferred`.
pub open spec fn only_adds(
    s: Seq<(int, Seq<CourseView>)>,
    t: Seq<(int, Seq<CourseView>)>,
    c: Seq<(Seq<char>, Seq<CourseView>)>,
    prefix: Seq<CourseView>,
    preferred: Option<Weekday>,
) -> bool {
    forall|k: int|
        0 <= k < t.len() ==> s.contains(#[trigger] t[k]) || (is_solution(c, t[k].1) && t[k].1.take(
            prefix.len() as int,
        ) == prefix && t[k].0 == fitness(t[k].1, preferred))
}

pub proof fn lemma_flat_member(a: Seq<CourseView>, idx: int)
    requires
        0 <= idx < flat_times(a).len(),
    ensures
        exists|i: int, p: int|
            0 <= i < a.len() && 0 <= p < a[i].times.len() && flat_times(a)[idx] == #[trigger] a[i].times[p],
    decreases a.len(),
{
    let b = a.drop_last();
    if idx < flat_times(b).len() {
        lemma_flat_member(b, idx);
        let (i, p) = choose|i: int, p: int|
            0 <= i < b.len() && 0 <= p < b[i].times.len() && flat_times(b)[idx] == #[trigger] b[i].times[p];
        assert(b[i] == a[i]);
    } else {
        let p = idx - flat_times(b).len();
        assert(flat_times(a)[idx] == a[a.len() - 1].times[p]);
    }
}

pub proof fn lemma_flat_has(a: Seq<CourseView>, i: int, p: int)
    requires
        0 <= i < a.len(),
        0 <= p < a[i].times.len(),
    ensures
        exists|idx: int| 0 <= idx < flat_times(a).len() && #[trigger] flat_times(a)[idx] == a[i].times[p],
    decreases a.len(),
{
    let b = a.drop_last();
    if i < a.len() - 1 {
        lemma_flat_has(b, i, p);
        let idx = choose|idx: int| 0 <= idx < flat_times(b).len() && #[trigger] flat_times(b)[idx] == b[i].times[p];
        assert(flat_times(a)[idx] == flat_times(b)[idx]);
    } else {
        let idx = flat_times(b).len() + p;
        assert(flat_times(a)[idx] == a[i].times[p]);
    }
}

/// Extending a conflict-free selection by a section none of whose meetings
/// clash with the selection's meetings keeps it conflict-free.
proof fn lemma_extend_conflict_free(a: Seq<CourseView>, s: CourseView)
    requires
        conflict_free(a),
        fits(flat_times(a), s.times),
    ensures
        conflict_free(a.push(s)),
{
    let b = a.push(s);
    assert forall|i: int, j: int, p: int, q: int|
        0 <= i < b.len() && 0 <= j < b.len() && i != j && 0 <= p < b[i].times.len() && 0 <= q
            < b[j].times.len() implies !clash(#[trigger] b[i].times[p], #[trigger] b[j].times[q]) by {
        if i < a.len() && j < a.len() {
            assert(b[i] == a[i] && b[j] == a[j]);
        } else if i < a.len() {
            assert(b[i] == a[i]);
            lemma_flat_has(a, i, p);
            let idx = choose|idx: int| 0 <= idx < flat_times(a).len() && #[trigger] flat_times(a)[idx] == a[i].times[p];
            assert(!clash(flat_times(a)[idx], s.times[q]));
        } else {
            assert(b[j] == a[j]);
            lemma_flat_has(a, j, q);
            let idx = choose|idx: int| 0 <= idx < flat_times(a).len() && #[trigger] flat_times(a)[idx] == a[j].times[q];
            assert(!clash(flat_times(a)[idx], s.times[p]));
        }
    }
}

/// When a section clashes with a selection, no conflict-free selection holds
/// both.
proof fn lemma_clash_blocks(a: Seq<CourseView>, s: CourseView, full: Seq<CourseView>)
    requires
        !fits(flat_times(a), s.times),
        a.len() < full.len(),
        full.take(a.len() as int) == a,
        full[a.len() as int] == s,
    ensures
        !conflict_free(full),
{
    let (idx, q) = choose|idx: int, q: int|
        0 <= idx < flat_times(a).len() && 0 <= q < s.times.len() && clash(
            #[trigger] flat_times(a)[idx],
            #[trigger] s.times[q],
        );
    lemma_flat_member(a, idx);
    let (i, p) = choose|i: int, p: int|
        0 <= i < a.len() && 0 <= p < a[i].times.len() && flat_times(a)[idx] == #[trigger] a[i].times[p];
    assert(full[i] == full.take(a.len() as int)[i]);
    assert(clash(full[i].times[p], full[a.len() as int].times[q]));
}

proof fn lemma_keeps_refl(s: Seq<(int, Seq<CourseView>)>)
    ensures
        keeps(s, s),
{
    let idx = Seq::new(s.len(), |k: int| k);
    assert(embedding(s, s, idx));
}

proof fn lemma_keeps_trans(
    s: Seq<(int, Seq<CourseView>)>,
    t: Seq<(int, Seq<CourseView>)>,
    u: Seq<(int, Seq<CourseView>)>,
)
    requires
        keeps(s, t),
        keeps(t, u),
    ensures
        keeps(s, u),
{
    let f = choose|idx: Seq<int>| embedding(s, t, idx);
    let g = choose|idx: Seq<int>| embedding(t, u, idx);
    let h = Seq::new(s.len(), |k: int| g[f[k]]);
    assert forall|i: int, j: int| 0 <= i < j < s.len() implies #[trigger] h[i] < #[trigger] h[j] by {
        assert(f[i] < f[j]);
        assert(g[f[i]] < g[f[j]]);
    }
    assert forall|k: int| 0 <= k < s.len() implies 0 <= #[trigger] h[k] < u.len() && u[h[k]] == s[k] by {
        assert(0 <= f[k] < t.len() && t[f[k]] == s[k]);
        assert(0 <= g[f[k]] < u.len() && u[g[f[k]]] == t[f[k]]);
    }
    assert(embedding(s, u, h));
}

proof fn lemma_stores_kept(t: Seq<(int, Seq<CourseView>)>, u: Seq<(int, Seq<CourseView>)>, a: Seq<CourseView>)
    requires
        keeps(t, u),
        stores(t, a),
    ensures
        stores(u, a),
{
    let m = choose|m: int| 0 <= m < t.len() && identities((#[trigger] t[m]).1) == identities(a);
    let f = choose|idx: Seq<int>| embedding(t, u, idx);
    assert(0 <= f[m] < u.len() && u[f[m]] == t[m]);
    assert(identities(u[f[m]].1) == identities(a));
}

proof fn lemma_only_adds_trans(
    s: Seq<(int, Seq<CourseView>)>,
    t: Seq<(int, Seq<CourseView>)>,
    u: Seq<(int, Seq<CourseView>)>,
    c: Seq<(Seq<char>, Seq<CourseView>)>,
    prefix: Seq<CourseView>,
    longer: Seq<CourseView>,
    preferred: Option<Weekday>,
)
    requires
        only_adds(s, t, c, prefix, preferred),
        only_adds(t, u, c, longer, preferred),
        prefix.len() <= longer.len(),
        longer.len() <= c.len(),
        longer.take(prefix.len() as int) == prefix,
    ensures
        only_adds(s, u, c, prefix, preferred),
{
    assert forall|k: int| 0 <= k < u.len() implies s.contains(#[trigger] u[k]) || (is_solution(c, u[k].1)
        && u[k].1.take(prefix.len() as int) == prefix && u[k].0 == fitness(u[k].1, preferred)) by {
        if t.contains(u[k]) {
            let m = choose|m: int| 0 <= m < t.len() && t[m] == u[k];
            assert(s.contains(t[m]) || (is_solution(c, t[m].1) && t[m].1.take(prefix.len() as int) == prefix
                && t[m].0 == fitness(t[m].1, preferred)));
        } else {
            assert(u[k].1.take(longer.len() as int) == longer);
            assert(u[k].1.take(prefix.len() as int) =~= u[k].1.take(longer.len() as int).take(
                prefix.len() as int,
            ));
        }
    }
}

/// Places `c` after every candidate whose score is not above its own,
/// found by binary search, so that the store stays sorted.
fn insert_sorted(store: &mut Vec<Candidate>, c: Candidate) -> (pos: usize)
    requires
        sorted_by_score(candidate_views(old(store)@)),
    ensures
        pos <= old(store)@.len(),
        final(store)@ == old(store)@.insert(pos as int, c),
        sorted_by_score(candidate_views(final(store)@)),
{
    let ghost v = candidate_views(store@);
    let mut lo: usize = 0;
    let mut hi: usize = store.len();
    while lo < hi
        invariant
            0 <= lo <= hi <= store@.len(),
            v == candidate_views(store@),
            sorted_by_score(v),
            forall|j: int| 0 <= j < lo ==> (#[trigger] v[j]).0 <= c.score,
            forall|j: int| hi <= j < v.len() ==> (#[trigger] v[j]).0 > c.score,
        decreases hi - lo,
    {
        let mid = lo + (hi - lo) / 2;
        assert(v[mid as int].0 == store@[mid as int].score);
        if store[mid].score <= c.score {
            assert forall|j: int| 0 <= j <= mid implies (#[trigger] v[j]).0 <= c.score by {
                assert(v[j].0 <= v[mid as int].0);
            }
            lo = mid + 1;
        } else {
            assert forall|j: int| mid <= j < v.len() implies (#[trigger] v[j]).0 > c.score by {
                assert(v[mid as int].0 <= v[j].0);
            }
            hi = mid;
        }
    }
    store.insert(lo, c);
    proof {
        let w = candidate_views(store@);
        assert(w =~= v.insert(lo as int, c@));
    }
    lo
}

/// The search state and the ranking store of one planning session.
///
/// Scores follow one convention throughout: lower is better. The store is
/// kept in ascending order of score, so its first candidate is the best.
pub struct Scheduler {
    /// Meetings of the selection under construction.
    time_slot: Vec<WeeklyInterval>,
    /// Selection under construction: one section for each of the first
    /// courses of the catalog, in catalog order.
    scheduled_course_details: Vec<Course>,
    /// Scored timetables found so far, by ascending score.
    candidate_solutions: Vec<Candidate>,
    /// Browsing position in `candidate_solutions`.
    index: i128,
}

impl Scheduler {
    /// The stored candidates, as (score, sections) pairs.
    pub closed spec fn candidates(&self) -> Seq<(int, Seq<CourseView>)> {
        candidate_views(self.candidate_solutions@)
    }

    /// The browsing position.
    pub closed spec fn cursor(&self) -> int {
        self.index as int
    }

    /// No search is under way.
    pub closed spec fn idle(&self) -> bool {
        self.scheduled_course_details@.len() == 0 && self.time_slot@.len() == 0
    }

    /// The invariant: the store is sorted by score and holds no selection
    /// twice.
    pub open spec fn wf(&self) -> bool {
        self.idle() && store_ok(self.candidates())
    }

    /// A scheduler with an empty store, its cursor on the first position.
    pub fn new() -> (r: Scheduler)
        ensures
            r.wf(),
            r.candidates().len() == 0,
            r.cursor() == 0,
    {
        Scheduler {
            time_slot: Vec::new(),
            scheduled_course_details: Vec::new(),
            candidate_solutions: Vec::new(),
            index: 0,
        }
    }

    /// Number of stored candidates.
    pub fn candidate_count(&self) -> (r: usize)
        ensures
            r == self.candidates().len(),
    {
        self.candidate_solutions.len()
    }

    /// Adds the selection under construction to the store, scored, unless
    /// the store already holds the same sections.
    fn record(&mut self, preferred: Option<Weekday>)
        requires
            store_ok(candidate_views(old(self).candidate_solutions@)),
        ensures
            store_ok(candidate_views(final(self).candidate_solutions@)),
            final(self).scheduled_course_details@ == old(self).scheduled_course_details@,
            final(self).time_slot@ == old(self).time_slot@,
            final(self).index == old(self).index,
            keeps(candidate_views(old(self).candidate_solutions@), candidate_views(final(self).candidate_solutions@)),
            forall|k: int|
                0 <= k < final(self).candidate_solutions@.len() ==> candidate_views(old(self).candidate_solutions@).contains(
                    #[trigger] candidate_views(final(self).candidate_solutions@)[k],
                ) || (candidate_views(final(self).candidate_solutions@)[k].1 == views(old(self).scheduled_course_details@)
                    && candidate_views(final(self).candidate_solutions@)[k].0 == fitness(
                    views(old(self).scheduled_course_details@),
                    preferred,
                )),
            stores(candidate_views(final(self).candidate_solutions@), views(old(self).scheduled_course_details@)),
    {
        let ghost v = candidate_views(self.candidate_solutions@);
        let ghost a = views(self.scheduled_course_details@);
        let mut i: usize = 0;
        while i < self.candidate_solutions.len()
            invariant
                i <= self.candidate_solutions@.len(),
                self.candidate_solutions@ == old(self).candidate_solutions@,
                self.scheduled_course_details@ == old(self).scheduled_course_details@,
                self.time_slot@ == old(self).time_slot@,
                self.index == old(self).index,
                v == candidate_views(self.candidate_solutions@),
                store_ok(v),
                a == views(self.scheduled_course_details@),
                forall|k: int| 0 <= k < i ==> identities((#[trigger] v[k]).1) != identities(a),
            decreases self.candidate_solutions@.len() - i,
        {
            assert(v[i as int].1 == views(self.candidate_solutions@[i as int].assignment@));
            if same_selection(&self.candidate_solutions[i].assignment, &self.scheduled_course_details) {
                proof {
                    lemma_keeps_refl(v);
                }
                return;
            }
            i = i + 1;
        }
        let score = cal_fitness_score(&self.scheduled_course_details, preferred);
        let snapshot = duplicate_all(&self.scheduled_course_details);
        let c = Candidate { score, assignment: snapshot };
        assert(c@ == (fitness(a, preferred), a));
        let pos = insert_sorted(&mut self.candidate_solutions, c);
        proof {
            let w = candidate_views(self.candidate_solutions@);
            assert(w =~= v.insert(pos as int, c@));
            let idx = Seq::new(v.len(), |k: int| if k < pos { k } else { k + 1 });
            assert forall|k: int| 0 <= k < v.len() implies 0 <= #[trigger] idx[k] < w.len() && w[idx[k]] == v[k] by {
                if k < pos {
                    assert(w[k] == v[k]);
                } else {
                    assert(w[k + 1] == v[k]);
                }
            }
            assert(embedding(v, w, idx));
            assert forall|x: int, y: int| 0 <= x < y < w.len() implies identities((#[trigger] w[x]).1)
                != identities((#[trigger] w[y]).1) by {
                if x < pos && y < pos {
                } else if x < pos && y == pos {
                } else if x < pos {
                    assert(w[y] == v[y - 1]);
                } else if x == pos {
                    assert(w[y] == v[y - 1]);
                } else {
                    assert(w[x] == v[x - 1] && w[y] == v[y - 1]);
                }
            }
            assert forall|k: int| 0 <= k < w.len() implies v.contains(#[trigger] w[k]) || (w[k].1 == a && w[k].0
                == fitness(a, preferred)) by {
                if k < pos {
                    assert(w[k] == v[k]);
                } else if k > pos {
                    assert(w[k] == v[k - 1]);
                }
            }
            assert(w[pos as int].1 == a);
        }
    }

    /// Depth-first search over the courses of `catalog` not yet in the
    /// selection under construction (those after its length, in catalog
    /// order). Each section of the next course that clashes with none of the
    /// occupied meetings is tried in turn: its meetings are occupied and it
    /// joins the selection, the search goes one course deeper, and both
    /// changes are undone before the next section. A complete selection is
    /// recorded in the store.
    fn search(&mut self, catalog: &Catalog, preferred: Option<Weekday>)
        requires
            store_ok(candidate_views(old(self).candidate_solutions@)),
            picks_from(catalog@, views(old(self).scheduled_course_details@)),
            conflict_free(views(old(self).scheduled_course_details@)),
            old(self).time_slot@ == flat_times(views(old(self).scheduled_course_details@)),
        ensures
            store_ok(candidate_views(final(self).candidate_solutions@)),
            final(self).scheduled_course_details@ == old(self).scheduled_course_details@,
            final(self).time_slot@ == old(self).time_slot@,
            final(self).index == old(self).index,
            keeps(candidate_views(old(self).candidate_solutions@), candidate_views(final(self).candidate_solutions@)),
            only_adds(
                candidate_views(old(self).candidate_solutions@),
                candidate_views(final(self).candidate_solutions@),
                catalog@,
                views(old(self).scheduled_course_details@),
                preferred,
            ),
            forall|a: Seq<CourseView>|
                is_solution(catalog@, a) && a.take(old(self).scheduled_course_details@.len() as int) == views(
                    old(self).scheduled_course_details@,
                ) ==> #[trigger] stores(candidate_views(final(self).candidate_solutions@), a),
        decreases catalog@.len() - old(self).scheduled_course_details@.len(),
    {
        let ghost c0 = candidate_views(self.candidate_solutions@);
        let ghost p = views(self.scheduled_course_details@);
        let ghost cat = catalog@;
        let k = self.scheduled_course_details.len();
        if k == catalog.len() {
            self.record(preferred);
            proof {
                let c1 = candidate_views(self.candidate_solutions@);
                assert(p.take(k as int) =~= p);
                assert forall|a: Seq<CourseView>|
                    is_solution(cat, a) && a.take(k as int) == p implies #[trigger] stores(c1, a) by {
                    assert(a.take(k as int) =~= a);
                }
            }
            return;
        }
        let sections = catalog.sections(k);
        let ghost secs = views(sections@);
        proof {
            lemma_keeps_refl(c0);
        }
        let mut j: usize = 0;
        while j < sections.len()
            invariant
                j <= sections@.len(),
                k < cat.len(),
                k == p.len(),
                cat == catalog@,
                secs == views(sections@),
                secs == cat[k as int].1,
                picks_from(cat, p),
                conflict_free(p),
                p == views(self.scheduled_course_details@),
                self.scheduled_course_details@ == old(self).scheduled_course_details@,
                self.time_slot@ == old(self).time_slot@,
                self.time_slot@ == flat_times(p),
                self.index == old(self).index,
                c0 == candidate_views(old(self).candidate_solutions@),
                store_ok(candidate_views(self.candidate_solutions@)),
                keeps(c0, candidate_views(self.candidate_solutions@)),
                only_adds(c0, candidate_views(self.candidate_solutions@), cat, p, preferred),
                forall|a: Seq<CourseView>|
                    is_solution(cat, a) && a.take(k as int) == p && (exists|t: int|
                        0 <= t < j && a[k as int] == #[trigger] secs[t]) ==> #[trigger] stores(
                        candidate_views(self.candidate_solutions@),
                        a,
                    ),
            decreases sections@.len() - j,
        {
            let sec = &sections[j];
            let ghost sv = secs[j as int];
            assert(sv == sec@);
            let ghost c1 = candidate_views(self.candidate_solutions@);
            let ghost store1 = self.candidate_solutions@;
            if available(&self.time_slot, &sec.datetime) {
                let mark = self.time_slot.len();
                let mut t: usize = 0;
                while t < sec.datetime.len()
                    invariant
                        t <= sec.datetime@.len(),
                        mark == flat_times(p).len(),
                        self.candidate_solutions@ == store1,
                        self.scheduled_course_details@ == old(self).scheduled_course_details@,
                        self.index == old(self).index,
                        self.time_slot@ == flat_times(p) + sec.datetime@.take(t as int),
                    decreases sec.datetime@.len() - t,
                {
                    self.time_slot.push(sec.datetime[t]);
                    t = t + 1;
                    assert(self.time_slot@ =~= flat_times(p) + sec.datetime@.take(t as int));
                }
                self.scheduled_course_details.push(sec.duplicate());
                proof {
                    let q = views(self.scheduled_course_details@);
                    assert(q =~= p.push(sv));
                    assert(q.drop_last() =~= p);
                    assert(sec.datetime@.take(t as int) =~= sec.datetime@);
                    assert(self.time_slot@ =~= flat_times(q));
                    lemma_extend_conflict_free(p, sv);
                    assert(cat[k as int].1.contains(secs[j as int]));
                    assert forall|i: int| 0 <= i < q.len() implies cat[i].1.contains(#[trigger] q[i]) by {
                        if i < k {
                            assert(q[i] == p[i]);
                        }
                    }
                }
                self.search(catalog, preferred);
                self.scheduled_course_details.pop();
                self.time_slot.truncate(mark);
                proof {
                    let c2 = candidate_views(self.candidate_solutions@);
                    let q = p.push(sv);
                    assert(self.time_slot@ =~= flat_times(p));
                    assert(q.take(k as int) =~= p);
                    lemma_keeps_trans(c0, c1, c2);
                    lemma_only_adds_trans(c0, c1, c2, cat, p, q, preferred);
                    assert forall|a: Seq<CourseView>|
                        is_solution(cat, a) && a.take(k as int) == p && (exists|t: int|
                            0 <= t < j + 1 && a[k as int] == #[trigger] secs[t]) implies #[trigger] stores(c2, a) by {
                        let t = choose|t: int| 0 <= t < j + 1 && a[k as int] == #[trigger] secs[t];
                        if t < j {
                            assert(stores(c1, a));
                            lemma_stores_kept(c1, c2, a);
                        } else {
                            assert(a.take(k as int + 1) =~= q);
                        }
                    }
                }
            } else {
                proof {
                    assert forall|a: Seq<CourseView>|
                        is_solution(cat, a) && a.take(k as int) == p && (exists|t: int|
                            0 <= t < j + 1 && a[k as int] == #[trigger] secs[t]) implies #[trigger] stores(c1, a) by {
                        let t = choose|t: int| 0 <= t < j + 1 && a[k as int] == #[trigger] secs[t];
                        if t == j {
                            lemma_clash_blocks(p, sv, a);
                        }
                    }
                }
            }
            j = j + 1;
        }
        proof {
            let c2 = candidate_views(self.candidate_solutions@);
            assert forall|a: Seq<CourseView>|
                is_solution(cat, a) && a.take(k as int) == p implies #[trigger] stores(c2, a) by {
                assert(cat[k as int].1.contains(a[k as int]));
                let t = choose|t: int| 0 <= t < secs.len() && secs[t] == a[k as int];
            }
        }
    }

    /// Searches `course_dict` for every timetable (one section of each
    /// course, no two meeting at the same time) and records each one not
    /// already stored, scored for the day named by `day_off_preference`
    /// (no day is preferred when the text names none). Courses are taken in
    /// catalog order and sections in list order; the cursor does not move.
    pub fn generate_schedule(&mut self, course_dict: &Catalog, day_off_preference: String)
        requires
            old(self).wf(),
        ensures
            final(self).wf(),
            final(self).cursor() == old(self).cursor(),
            keeps(old(self).candidates(), final(self).candidates()),
            only_adds(
                old(self).candidates(),
                final(self).candidates(),
                course_dict@,
                Seq::empty(),
                day_named(day_off_preference@),
            ),
            forall|a: Seq<CourseView>| is_solution(course_dict@, a) ==> #[trigger] stores(final(self).candidates(), a),
    {
        let preferred = Weekday::from_name(day_off_preference.as_str());
        proof {
            assert(views(self.scheduled_course_details@) =~= Seq::<CourseView>::empty());
            assert(self.time_slot@ =~= flat_times(Seq::<CourseView>::empty()));
        }
        self.search(course_dict, preferred);
        proof {
            assert forall|a: Seq<CourseView>| is_solution(course_dict@, a) implies #[trigger] stores(
                self.candidates(),
                a,
            ) by {
                assert(a.take(0) =~= Seq::<CourseView>::empty());
            }
        }
    }

    /// The stored candidate at `i`: its score and its sections.
    pub fn candidate(&self, i: usize) -> (r: (i128, &Vec<Course>))
        requires
            i < self.candidates().len(),
        ensures
            r.0 == self.candidates()[i as int].0,
            views(r.1@) == self.candidates()[i as int].1,
    {
        let c = &self.candidate_solutions[i];
        (c.score, &c.assignment)
    }

    /// The browsing position.
    pub fn index(&self) -> (r: i128)
        ensures
            r == self.cursor(),
    {
        self.index
    }

    /// Shows the candidate under the cursor, as its grid (`None` when a
    /// meeting cannot be drawn) and its list of codes, then moves the
    /// cursor one step forward (`direction` 1) or back (`direction` 0);
    /// any other direction leaves it in place. `None`, with the cursor left
    /// in place, when the cursor is off the store.
    pub fn get_next_schedule(&mut self, direction: i8) -> (r: Option<(Option<Vec<String>>, Vec<(String, Vec<String>)>)>)
        requires
            old(self).wf(),
        ensures
            final(self).wf(),
            final(self).candidates() == old(self).candidates(),
            match r {
                Some((g, ch)) => {
                    let a = old(self).candidates()[old(self).cursor()].1;
                    &&& 0 <= old(self).cursor() < old(self).candidates().len()
                    &&& choice_texts(ch@) == choices_of(a)
                    &&& match g {
                        Some(cells) => all_drawable(a) && texts(cells@) == grid_of(a),
                        None => !all_drawable(a),
                    }
                    &&& final(self).cursor() == old(self).cursor() + (if direction == 1 {
                        1int
                    } else if direction == 0 {
                        -1int
                    } else {
                        0int
                    })
                },
                None => {
                    &&& !(0 <= old(self).cursor() < old(self).candidates().len())
                    &&& final(self).cursor() == old(self).cursor()
                },
            },
    {
        if 0 <= self.index && self.index < self.candidate_solutions.len() as i128 {
            let schedule = &self.candidate_solutions[self.index as usize].assignment;
            let result = Some(
                (
                    if grid_drawable(schedule) {
                        Some(reduce_course_set_to_timetable_string(schedule))
                    } else {
                        None
                    },
                    reduce_course_set_to_course_and_choice_vec(schedule),
                ),
            );
            if direction == 1 {
                self.index = self.index + 1;
            } else if direction == 0 {
                self.index = self.index - 1;
            }
            result
        } else {
            None
        }
    }

    /// The codes of the best candidate: the first of the store, whose score
    /// is the lowest. `None` when the store is empty.
    pub fn get_schedule_with_best_fitness_score(&self) -> (r: Option<Vec<(String, Vec<String>)>>)
        requires
            self.wf(),
        ensures
            match r {
                Some(ch) => self.candidates().len() > 0 && choice_texts(ch@) == choices_of(self.candidates()[0].1),
                None => self.candidates().len() == 0,
            },
    {
        if self.candidate_solutions.len() > 0 {
            Some(reduce_course_set_to_course_and_choice_vec(&self.candidate_solutions[0].assignment))
        } else {
            None
        }
    }
}

/// Every timetable covers the catalog: the course names of its sections are
/// exactly the catalog's course names.
pub proof fn lemma_solution_covers_catalog(c: Seq<(Seq<char>, Seq<CourseView>)>, a: Seq<CourseView>)
    requires
        catalog_wf(c),
        is_solution(c, a),
    ensures
        a.map_values(|s: CourseView| s.name).to_set() == course_names(c),
{
    let an = a.map_values(|s: CourseView| s.name);
    let cn = c.map_values(|e: (Seq<char>, Seq<CourseView>)| e.0);
    assert forall|i: int| 0 <= i < a.len() implies an[i] == cn[i] by {
        assert(c[i].1.contains(a[i]));
        let k = choose|k: int| 0 <= k < c[i].1.len() && c[i].1[k] == a[i];
        assert(c[i].1[k].name == c[i].0);
    }
    assert(an =~= cn);
}

/// In every timetable, two different sections never have meetings on the
/// same weekday whose times overlap.
pub proof fn lemma_solution_no_overlap(
    c: Seq<(Seq<char>, Seq<CourseView>)>,
    a: Seq<CourseView>,
    i: int,
    j: int,
    p: int,
    q: int,
)
    requires
        is_solution(c, a),
        0 <= i < a.len(),
        0 <= j < a.len(),
        i != j,
        0 <= p < a[i].times.len(),
        0 <= q < a[j].times.len(),
        a[i].times[p].day == a[j].times[q].day,
    ensures
        !(a[j].times[q].start < a[i].times[p].end && a[j].times[q].end > a[i].times[p].start),
{
    assert(!clash(a[i].times[p], a[j].times[q]));
}

/// The store of a well-formed scheduler never holds two candidates with the
/// same sections, and its scores never decrease along it.
pub proof fn lemma_store_invariant(s: &Scheduler)
    requires
        s.wf(),
    ensures
        distinct_selections(s.candidates()),
        sorted_by_score(s.candidates()),
{
}

} // verus!