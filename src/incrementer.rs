use vstd::prelude::*;

verus! {

/// Returns the integer that follows `value`.
///
/// The largest `i32` has no successor in the type, so it is not accepted.
pub fn increment(value: i32) -> (r: i32)
    requires
        value < i32::MAX,
    ensures
        r == value + 1,
{
    value + 1
}

} // verus!
