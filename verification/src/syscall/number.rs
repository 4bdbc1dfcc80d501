//! Machine words as signed and unsigned numbers.

use vstd::prelude::*;

verus! {

/// The signed number with the bits of `x`.
pub open spec fn as_signed(x: int) -> int {
    if x <= isize::MAX {
        x
    } else {
        x - usize::MAX - 1
    }
}

/// The unsigned number with the bits of `x`.
pub open spec fn as_unsigned(x: int) -> int {
    if x >= 0 {
        x
    } else {
        x + usize::MAX + 1
    }
}

/// The signed number with the bits of `x`.
pub fn to_isize(x: usize) -> (result: isize)
    ensures
        result == as_signed(x as int),
{
    if x <= isize::MAX as usize {
        x as isize
    } else {
        let below: usize = usize::MAX - x;
        -1 - below as isize
    }
}

/// The unsigned number with the bits of `x`.
pub fn to_usize(x: isize) -> (result: usize)
    ensures
        result == as_unsigned(x as int),
{
    if x >= 0 {
        x as usize
    } else {
        let below: isize = -1 - x;
        usize::MAX - below as usize
    }
}

} // verus!
