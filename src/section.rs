use vstd::prelude::*;
use crate::time::WeeklyInterval;

verus! {

/// One section of a course: the weekly meetings it holds, who teaches it,
/// and the codes to register for it (the lecture code always; a lab and a
/// tutorial code, empty when the section has none).
#[derive(Debug)]
pub struct Course {
    pub course_name: String,
    pub datetime: Vec<WeeklyInterval>,
    pub instructor: String,
    pub class_code: String,
    pub tutorial_code: String,
    pub lab_code: String,
}

/// What a section holds, as mathematical values.
pub struct CourseView {
    pub name: Seq<char>,
    pub times: Seq<WeeklyInterval>,
    pub instructor: Seq<char>,
    pub class_code: Seq<char>,
    pub tutorial_code: Seq<char>,
    pub lab_code: Seq<char>,
}

impl View for Course {
    type V = CourseView;

    open spec fn view(&self) -> CourseView {
        CourseView {
            name: self.course_name@,
            times: self.datetime@,
            instructor: self.instructor@,
            class_code: self.class_code@,
            tutorial_code: self.tutorial_code@,
            lab_code: self.lab_code@,
        }
    }
}

/// What makes two sections the same section: course, instructor and the
/// three registration codes. Meeting times play no part.
pub open spec fn identity(c: CourseView) -> (Seq<char>, Seq<char>, Seq<char>, Seq<char>, Seq<char>) {
    (c.name, c.instructor, c.class_code, c.tutorial_code, c.lab_code)
}

/// The views of a sequence of sections.
pub open spec fn views(s: Seq<Course>) -> Seq<CourseView> {
    s.map_values(|c: Course| c@)
}

/// The identities of the sections of a selection, as a set.
pub open spec fn identities(a: Seq<CourseView>) -> Set<(Seq<char>, Seq<char>, Seq<char>, Seq<char>, Seq<char>)> {
    a.map_values(|c: CourseView| identity(c)).to_set()
}

pub fn copy_times(v: &Vec<WeeklyInterval>) -> (r: Vec<WeeklyInterval>)
    ensures
        r@ == v@,
{
    let mut r: Vec<WeeklyInterval> = Vec::new();
    let mut i: usize = 0;
    while i < v.len()
        invariant
            i <= v@.len(),
            r@ == v@.subrange(0, i as int),
        decreases v@.len() - i,
    {
        r.push(v[i]);
        i = i + 1;
        assert(r@ =~= v@.subrange(0, i as int));
    }
    assert(r@ =~= v@);
    r
}

impl Course {
    pub fn create_course_time(
        course_name: String,
        datetime: Vec<WeeklyInterval>,
        instructor: String,
        class_code: String,
        tutorial_code: String,
        lab_code: String,
    ) -> (r: Course)
        ensures
            r@ == (CourseView {
                name: course_name@,
                times: datetime@,
                instructor: instructor@,
                class_code: class_code@,
                tutorial_code: tutorial_code@,
                lab_code: lab_code@,
            }),
    {
        Course { course_name, datetime, instructor, class_code, tutorial_code, lab_code }
    }

    /// A separate section equal to this one in every field.
    pub fn duplicate(&self) -> (r: Course)
        ensures
            r@ == self@,
    {
        Course {
            course_name: self.course_name.clone(),
            datetime: copy_times(&self.datetime),
            instructor: self.instructor.clone(),
            class_code: self.class_code.clone(),
            tutorial_code: self.tutorial_code.clone(),
            lab_code: self.lab_code.clone(),
        }
    }

    /// Whether `other` is the same section (see `identity`).
    pub fn same_section(&self, other: &Course) -> (r: bool)
        ensures
            r == (identity(self@) == identity(other@)),
    {
        self.course_name == other.course_name && self.instructor == other.instructor
            && self.class_code == other.class_code && self.tutorial_code == other.tutorial_code
            && self.lab_code == other.lab_code
    }
}

/// Copies a selection of sections field by field.
pub fn duplicate_all(v: &Vec<Course>) -> (r: Vec<Course>)
    ensures
        views(r@) == views(v@),
{
    let mut r: Vec<Course> = Vec::new();
    let mut i: usize = 0;
    while i < v.len()
        invariant
            i <= v@.len(),
            r@.len() == i,
            forall|k: int| 0 <= k < i ==> (#[trigger] r@[k])@ == v@[k]@,
        decreases v@.len() - i,
    {
        let c = v[i].duplicate();
        r.push(c);
        i = i + 1;
    }
    assert(views(r@) =~= views(v@));
    r
}

/// Some section of `s` has identity `x`.
pub open spec fn holds_identity(
    s: Seq<CourseView>,
    x: (Seq<char>, Seq<char>, Seq<char>, Seq<char>, Seq<char>),
) -> bool {
    exists|j: int| 0 <= j < s.len() && identity(#[trigger] s[j]) == x
}

pub proof fn lemma_identities_contains(
    s: Seq<CourseView>,
    x: (Seq<char>, Seq<char>, Seq<char>, Seq<char>, Seq<char>),
)
    ensures
        identities(s).contains(x) <==> holds_identity(s, x),
{
    let m = s.map_values(|c: CourseView| identity(c));
    if holds_identity(s, x) {
        let j = choose|j: int| 0 <= j < s.len() && identity(#[trigger] s[j]) == x;
        assert(m[j] == x);
    }
    if identities(s).contains(x) {
        assert(m.contains(x));
        let j = choose|j: int| 0 <= j < m.len() && m[j] == x;
        assert(identity(s[j]) == x);
    }
}

/// Whether every section of `a` is also, by identity, in `b`.
fn covered_by(a: &Vec<Course>, b: &Vec<Course>) -> (r: bool)
    ensures
        r == identities(views(a@)).subset_of(identities(views(b@))),
{
    let ghost va = views(a@);
    let ghost vb = views(b@);
    let mut i: usize = 0;
    while i < a.len()
        invariant
            i <= a@.len(),
            va == views(a@),
            vb == views(b@),
            forall|k: int| 0 <= k < i ==> holds_identity(vb, #[trigger] identity(va[k])),
        decreases a@.len() - i,
    {
        let mut found = false;
        let mut j: usize = 0;
        while j < b.len()
            invariant
                i < a@.len(),
                j <= b@.len(),
                va == views(a@),
                vb == views(b@),
                found == (exists|t: int| 0 <= t < j && identity(#[trigger] vb[t]) == identity(va[i as int])),
            decreases b@.len() - j,
        {
            assert(vb[j as int] == b@[j as int]@);
            assert(va[i as int] == a@[i as int]@);
            if a[i].same_section(&b[j]) {
                found = true;
            }
            j = j + 1;
        }
        if !found {
            proof {
                lemma_identities_contains(vb, identity(va[i as int]));
                lemma_identities_contains(va, identity(va[i as int]));
                assert(identities(va).contains(identity(va[i as int])));
            }
            return false;
        }
        i = i + 1;
    }
    assert forall|x| identities(va).contains(x) implies identities(vb).contains(x) by {
        lemma_identities_contains(va, x);
        lemma_identities_contains(vb, x);
        let k = choose|k: int| 0 <= k < va.len() && identity(#[trigger] va[k]) == x;
    }
    true
}

/// Whether two selections hold the same sections, order aside.
pub fn same_selection(a: &Vec<Course>, b: &Vec<Course>) -> (r: bool)
    ensures
        r == (identities(views(a@)) == identities(views(b@))),
{
    let ab = covered_by(a, b);
    let ba = covered_by(b, a);
    proof {
        if ab && ba {
            assert(identities(views(a@)) =~= identities(views(b@)));
        }
    }
    ab && ba
}

} // verus!
