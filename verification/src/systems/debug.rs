use vstd::prelude::*;

verus! {

/// Moves a line counter down one line and gives the new line.
pub fn increment_and_get(y: &mut i32) -> (r: i32)
    requires
        *old(y) < i32::MAX,
    ensures
        *final(y) == *old(y) + 1,
        r == *final(y),
{
    *y = *y + 1;
    *y
}

} // verus!
