//! Limits on the arguments of a program.

use vstd::prelude::*;

verus! {

/// How many arguments there may be.
pub const MAX_ARGC: usize = 16;

/// The longest argument, in bytes.
pub const MAX_ARG: usize = 128;

/// All arguments together, in bytes, each with its terminator.
pub const MAX_ARGV_BYTES: usize = 2048;

} // verus!
