//! Numbers: reading 64-bit numbers as signed ones.
use vstd::prelude::*;

verus! {

/// A 64-bit number read as a signed one.
pub open spec fn as_signed(x: u64) -> int {
    if x < 0x8000_0000_0000_0000 {
        x as int
    } else {
        x - 0x1_0000_0000_0000_0000
    }
}

/// The number read as a signed one.
pub fn to_signed(x: u64) -> (res: i64)
    ensures
        res == as_signed(x),
{
    if x < 0x8000_0000_0000_0000 {
        x as i64
    } else {
        (x as i128 - 0x1_0000_0000_0000_0000) as i64
    }
}

/// A number that a signed one can hold stays as it is; one above that is as far below zero as it is
/// below two to the power of sixty-four.
pub proof fn signed_numbers(x: u64)
    ensures
        x <= i64::MAX ==> as_signed(x) == x,
        x > i64::MAX ==> as_signed(x) < 0 && as_signed(x) + 0x1_0000_0000_0000_0000 == x,
{
}

} // verus!
