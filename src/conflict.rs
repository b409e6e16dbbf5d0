use vstd::prelude::*;
use crate::time::{WeeklyInterval, clash};

verus! {

/// True when no meeting of `proposed` clashes with a meeting of `occupied`.
pub open spec fn fits(occupied: Seq<WeeklyInterval>, proposed: Seq<WeeklyInterval>) -> bool {
    forall|i: int, j: int|
        0 <= i < occupied.len() && 0 <= j < proposed.len() ==> !clash(
            #[trigger] occupied[i],
            #[trigger] proposed[j],
        )
}

/// Checks every pair of meetings: true iff none of `proposed` clashes with one
/// of `occupied`.
pub fn available(occupied: &Vec<WeeklyInterval>, proposed: &Vec<WeeklyInterval>) -> (r: bool)
    ensures
        r == fits(occupied@, proposed@),
{
    let mut j: usize = 0;
    while j < proposed.len()
        invariant
            j <= proposed@.len(),
            forall|a: int, b: int|
                0 <= a < occupied@.len() && 0 <= b < j ==> !clash(
                    #[trigger] occupied@[a],
                    #[trigger] proposed@[b],
                ),
        decreases proposed@.len() - j,
    {
        let p = proposed[j];
        let mut i: usize = 0;
        while i < occupied.len()
            invariant
                j < proposed@.len(),
                p == proposed@[j as int],
                i <= occupied@.len(),
                forall|a: int, b: int|
                    0 <= a < occupied@.len() && 0 <= b < j ==> !clash(
                        #[trigger] occupied@[a],
                        #[trigger] proposed@[b],
                    ),
                forall|a: int| 0 <= a < i ==> !clash(#[trigger] occupied@[a], p),
            decreases occupied@.len() - i,
        {
            let o = occupied[i];
            if o.day == p.day && p.start < o.end && p.end > o.start {
                return false;
            }
            i = i + 1;
        }
        j = j + 1;
    }
    true
}

} // verus!
