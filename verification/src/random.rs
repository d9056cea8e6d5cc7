//! Random draws for the number-picking futures.

use vstd::prelude::*;

verus! {

/// Calls `rand::random::<u32>()`, a draw from the thread-local generator.
/// Any `u32` may come back, so nothing is promised about it. The generator
/// panics only if the operating system cannot seed it, which no argument
/// decides.
#[verifier::external_body]
pub(crate) fn random_u32() -> u32 {
    rand::random::<u32>()
}

} // verus!
