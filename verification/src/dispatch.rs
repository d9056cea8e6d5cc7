//! How long the request handler of the blocking example works on a request.

use vstd::prelude::*;

verus! {

/// The request that takes long.
pub const SLOW_REQUEST: usize = 5;

/// Milliseconds spent on request `id`: three seconds for the slow one, a
/// fifth of a second for any other.
pub fn request_delay_millis(id: usize) -> (ms: u64)
    ensures
        ms == if id == SLOW_REQUEST { 3000u64 } else { 200u64 },
{
    if id == SLOW_REQUEST {
        3000
    } else {
        200
    }
}

} // verus!
