//! What the bootloader tells the kernel.

use vstd::prelude::*;

verus! {

/// The offset of the direct map: what the bootloader answered, zero if it
/// gave no answer.
pub fn hhdm_offset(answer: Option<u64>) -> (r: u64)
    ensures
        r == (match answer {
            Some(o) => o,
            None => 0,
        }),
{
    match answer {
        Some(o) => o,
        None => 0,
    }
}

/// The version of the bootloader, if it gave one.
pub fn bootloader_version(answer: Option<&'static str>) -> (r: Option<&'static str>)
    ensures
        r == answer,
{
    answer
}

} // verus!
