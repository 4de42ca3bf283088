//! Port writes.

use vstd::prelude::*;

verus! {

/// The write to the unused port that gives legacy devices a moment.
pub fn io_wait() -> (w: (u16, u8))
    ensures
        w == (0x80u16, 0u8),
{
    (0x80, 0)
}

} // verus!
