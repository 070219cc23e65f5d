//! Small helpers.

use vstd::prelude::*;

verus! {

/// The second of a pair.
pub fn pair_second<A, B>(pair: (A, B)) -> (b: B)
    ensures
        b == pair.1,
{
    pair.1
}

} // verus!
