//! The native representation of the `u32` type.

use vstd::prelude::*;

verus! {

/// Build the register type of a `u32`: a 32-bit integer.
pub fn build() -> (r: u64)
    ensures
        r == 32,
{
    32
}

} // verus!
