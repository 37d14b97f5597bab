//! Pseudo-terminal pairs. Opening one needs terminal ioctls that this runtime
//! does not provide, so the request always fails.
use vstd::prelude::*;

verus! {

/// Opens a pseudo-terminal pair: not supported, always `Err(-1)`.
pub fn openpty() -> (r: Result<(i32, i32), i32>)
    ensures
        r == Err::<(i32, i32), i32>(-1i32),
{
    Err(-1)
}

} // verus!
