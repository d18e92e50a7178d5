//! Driver support: detecting rows on which the expressions disagree.

use vstd::prelude::*;

verus! {

/// Reports whether all values in the list are identical, so a driver can
/// flag the truth-table rows on which its expressions disagree; an empty
/// list counts as agreeing.
pub fn all_same(vals: &[bool]) -> (r: bool)
    ensures
        r <==> (forall|i: int, j: int|
            0 <= i < vals@.len() && 0 <= j < vals@.len() ==> vals@[i] == vals@[j]),
{
    if vals.len() == 0 {
        return true;
    }
    let first = vals[0];
    let mut i: usize = 1;
    while i < vals.len()
        invariant
            1 <= i <= vals@.len(),
            first == vals@[0],
            forall|j: int| 0 <= j < i ==> vals@[j] == first,
        decreases vals@.len() - i,
    {
        if vals[i] != first {
            proof {
                assert(vals@[i as int] != vals@[0]);
            }
            return false;
        }
        i = i + 1;
    }
    true
}

} // verus!
