use vstd::prelude::*;
use crate::section::{Course, CourseView, views};

verus! {

/// The sections offered for one course.
pub struct CatalogEntry {
    name: String,
    sections: Vec<Course>,
}

/// For each course, by name, the list of its sections; courses keep the
/// order in which they were first added.
pub struct Catalog {
    entries: Vec<CatalogEntry>,
}

/// A catalog is well formed when no course name occurs twice and every
/// section is listed under its own course.
pub open spec fn catalog_wf(c: Seq<(Seq<char>, Seq<CourseView>)>) -> bool {
    &&& forall|i: int, j: int| 0 <= i < j < c.len() ==> (#[trigger] c[i]).0 != (#[trigger] c[j]).0
    &&& forall|i: int, k: int|
        0 <= i < c.len() && 0 <= k < c[i].1.len() ==> (#[trigger] c[i].1[k]).name == c[i].0
}

/// The course names of a catalog, as a set.
pub open spec fn course_names(c: Seq<(Seq<char>, Seq<CourseView>)>) -> Set<Seq<char>> {
    c.map_values(|e: (Seq<char>, Seq<CourseView>)| e.0).to_set()
}

/// Every section of `sections` is listed under `name`.
pub open spec fn all_named(sections: Seq<CourseView>, name: Seq<char>) -> bool {
    forall|k: int| 0 <= k < sections.len() ==> (#[trigger] sections[k]).name == name
}

impl View for Catalog {
    type V = Seq<(Seq<char>, Seq<CourseView>)>;

    closed spec fn view(&self) -> Seq<(Seq<char>, Seq<CourseView>)> {
        self.entries@.map_values(|e: CatalogEntry| (e.name@, views(e.sections@)))
    }
}

impl Catalog {
    pub open spec fn wf(&self) -> bool {
        catalog_wf(self@)
    }

    /// A catalog with no course.
    pub fn new() -> (r: Catalog)
        ensures
            r@ == Seq::<(Seq<char>, Seq<CourseView>)>::empty(),
            r.wf(),
    {
        let r = Catalog { entries: Vec::new() };
        assert(r@ =~= Seq::<(Seq<char>, Seq<CourseView>)>::empty());
        r
    }

    /// Number of courses.
    pub fn len(&self) -> (r: usize)
        ensures
            r == self@.len(),
    {
        self.entries.len()
    }

    /// Name of the `k`-th course.
    pub fn name(&self, k: usize) -> (r: &String)
        requires
            k < self@.len(),
        ensures
            r@ == self@[k as int].0,
    {
        &self.entries[k].name
    }

    /// Sections of the `k`-th course.
    pub fn sections(&self, k: usize) -> (r: &Vec<Course>)
        requires
            k < self@.len(),
        ensures
            views(r@) == self@[k as int].1,
    {
        &self.entries[k].sections
    }

    /// Position of the course named `name`, if it is listed.
    pub fn position(&self, name: &String) -> (r: Option<usize>)
        ensures
            match r {
                Some(k) => k < self@.len() && self@[k as int].0 == name@,
                None => forall|k: int| 0 <= k < self@.len() ==> (#[trigger] self@[k]).0 != name@,
            },
    {
        let mut k: usize = 0;
        while k < self.entries.len()
            invariant
                k <= self@.len(),
                self@.len() == self.entries@.len(),
                forall|t: int| 0 <= t < k ==> (#[trigger] self@[t]).0 != name@,
            decreases self@.len() - k,
        {
            assert(self@[k as int].0 == self.entries@[k as int].name@);
            if self.entries[k].name == *name {
                return Some(k);
            }
            k = k + 1;
        }
        None
    }

    /// Lists `sections` as the sections of course `name`: replaces the list
    /// of a course already present, else adds the course last. Refused, with
    /// the catalog left as it was, when a section belongs to another course.
    pub fn insert(&mut self, name: String, sections: Vec<Course>) -> (r: bool)
        requires
            old(self).wf(),
        ensures
            final(self).wf(),
            r == all_named(views(sections@), name@),
            !r ==> final(self)@ == old(self)@,
            r ==> (exists|k: int|
                0 <= k < old(self)@.len() && old(self)@[k].0 == name@
                    && final(self)@ == old(self)@.update(k, (name@, views(sections@))))
                || ((forall|k: int| 0 <= k < old(self)@.len() ==> (#[trigger] old(self)@[k]).0 != name@)
                    && final(self)@ == old(self)@.push((name@, views(sections@)))),
    {
        let mut i: usize = 0;
        while i < sections.len()
            invariant
                i <= sections@.len(),
                self@ == old(self)@,
                self.wf(),
                forall|t: int| 0 <= t < i ==> (#[trigger] sections@[t])@.name == name@,
            decreases sections@.len() - i,
        {
            if !(sections[i].course_name == name) {
                assert(views(sections@)[i as int] == sections@[i as int]@);
                return false;
            }
            i = i + 1;
        }
        assert(all_named(views(sections@), name@)) by {
            assert forall|t: int| 0 <= t < sections@.len() implies (#[trigger] views(sections@)[t]).name == name@ by {
                assert(views(sections@)[t] == sections@[t]@);
            }
        }
        let ghost before = self@;
        match self.position(&name) {
            Some(k) => {
                self.entries.set(k, CatalogEntry { name, sections });
                assert(self@ =~= before.update(k as int, (name@, views(sections@))));
            },
            None => {
                self.entries.push(CatalogEntry { name, sections });
                assert(self@ =~= before.push((name@, views(sections@))));
            },
        }
        true
    }
}

} // verus!
