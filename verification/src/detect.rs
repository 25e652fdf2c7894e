//! Cycle detection: recognising a previously seen board state.

use vstd::prelude::*;

use crate::board::clone_cells;
use crate::board::Conway;

verus! {

/// Element-for-element equality of two cell vectors.
fn cells_equal(a: &Vec<bool>, b: &Vec<bool>) -> (eq: bool)
    ensures
        eq == (a@ == b@),
{
    if a.len() != b.len() {
        return false;
    }
    let mut i: usize = 0;
    while i < a.len()
        invariant
            a@.len() == b@.len(),
            i <= a@.len(),
            forall|j: int| 0 <= j < i ==> a@[j] == b@[j],
        decreases a@.len() - i,
    {
        if a[i] != b[i] {
            return false;
        }
        i += 1;
    }
    proof {
        assert(a@ =~= b@);
    }
    true
}

impl Conway {
    /// Reports whether the current board state is an exact repeat of one
    /// already in `seen`. A repeat leaves `seen` unchanged; a novel state is
    /// appended as a full snapshot.
    pub fn track_duplicates(&self, seen: &mut Vec<Vec<bool>>) -> (dup: bool)
        ensures
            dup == (exists|j: int| 0 <= j < old(seen)@.len() && old(seen)@[j]@ == self.board@),
            dup ==> final(seen)@ == old(seen)@,
            !dup ==> final(seen)@.len() == old(seen)@.len() + 1,
            !dup ==> forall|j: int| 0 <= j < old(seen)@.len() ==> final(seen)@[j] == old(seen)@[j],
            !dup ==> final(seen)@[old(seen)@.len() as int]@ == self.board@,
    {
        let mut i: usize = 0;
        while i < seen.len()
            invariant
                *seen == *old(seen),
                i <= seen@.len(),
                forall|j: int| 0 <= j < i ==> seen@[j]@ != self.board@,
            decreases seen@.len() - i,
        {
            if cells_equal(&seen[i], &self.board) {
                return true;
            }
            i += 1;
        }
        seen.push(clone_cells(&self.board));
        false
    }
}

} // verus!
