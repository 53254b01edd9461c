//! The clock that the cache reads.

use std::time::{SystemTime, UNIX_EPOCH};
use vstd::prelude::*;

verus! {

/// A source of the current time, in seconds since the Unix epoch. Nothing is
/// asked of the time that comes back: a clock may stand still or jump.
pub trait UnixTimeProvider: Sync + Send + Clone {
    fn unix_time_as_secs(&self) -> u64;
}

/// The clock of the machine.
pub struct SystemTimeProvider;

impl Clone for SystemTimeProvider {
    fn clone(&self) -> Self {
        SystemTimeProvider
    }
}

/// Reads the system clock with `SystemTime::now` and gives it as whole seconds
/// since the Unix epoch; nothing where the clock stands before the epoch.
/// Trusted, and nothing is claimed of what comes back.
#[verifier::external_body]
fn system_unix_secs() -> Option<u64> {
    SystemTime::now().duration_since(UNIX_EPOCH).ok().map(|since| since.as_secs())
}

impl UnixTimeProvider for SystemTimeProvider {
    /// The time of the machine. A clock that stands before the epoch shows 0.
    fn unix_time_as_secs(&self) -> u64 {
        match system_unix_secs() {
            Some(secs) => secs,
            None => 0,
        }
    }
}

} // verus!
