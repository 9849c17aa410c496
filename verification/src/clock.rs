//! The one external time dependency: a wall-clock read in milliseconds,
//! used for multi-click gesture timing and undo coalescing.

use vstd::prelude::*;

verus! {

/// Relies on std::time::SystemTime::now and Duration::as_millis: returns the
/// wall-clock time as milliseconds since the Unix epoch. Nothing can be
/// promised of the value; callers state what holds of every outcome.
#[verifier::external_body]
pub(crate) fn get_time() -> u128 {
    match std::time::SystemTime::now().duration_since(std::time::UNIX_EPOCH) {
        Ok(d) => d.as_millis(),
        Err(_) => 0,
    }
}

} // verus!
