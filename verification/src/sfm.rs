//! Decisions of the structure-from-motion pipeline.

use vstd::prelude::*;

verus! {

/// Index of the candidate pose with the most points in front of both
/// cameras; among equally good candidates the last one wins.
pub fn best_pose_index(counts: &Vec<usize>) -> (best: usize)
    requires
        counts@.len() > 0,
    ensures
        best < counts@.len(),
        forall|i: int| 0 <= i < counts@.len() ==> #[trigger] counts@[i] <= counts@[best as int],
        forall|i: int| best < i < counts@.len() ==> #[trigger] counts@[i] < counts@[best as int],
{
    let mut best: usize = 0;
    let mut i: usize = 1;
    while i < counts.len()
        invariant
            1 <= i <= counts@.len(),
            best < i,
            forall|k: int| 0 <= k < i ==> #[trigger] counts@[k] <= counts@[best as int],
            forall|k: int| best < k < i ==> #[trigger] counts@[k] < counts@[best as int],
        decreases counts@.len() - i,
    {
        if counts[i] >= counts[best] {
            best = i;
        }
        i = i + 1;
    }
    best
}

} // verus!
