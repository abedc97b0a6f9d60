//! A watchdog library for containerized workloads: it decides, from plain
//! runtime snapshots and log lines, which containers to monitor, when a log
//! pattern match must trigger a restart, and which containers to restart.
//! All I/O (the container runtime API, timers, task spawning) stays outside;
//! this crate holds the verified decision core.
use vstd::prelude::*;

pub mod bytes;
pub mod config;
pub mod coordinator;
pub mod monitor;
pub mod reconcile;
pub mod resolve;

verus! {

/// Relies on std::time::SystemTime::now and duration_since(UNIX_EPOCH):
/// whole seconds since the Unix epoch, read from the machine's clock.
/// Nothing can be promised of a clock reading, so this has no contract;
/// callers state what holds for every value they are handed. Panics only if
/// the clock reports a time before the epoch.
#[verifier::external_body]
fn system_time_secs() -> u64 {
    std::time::SystemTime::now()
        .duration_since(std::time::UNIX_EPOCH)
        .expect("Time went backwards")
        .as_secs()
}

/// The current time in whole seconds since the Unix epoch, as a signed
/// stream cursor: never negative, saturating at the largest cursor value.
pub fn now() -> (r: i64)
    ensures
        r >= 0,
{
    let secs = system_time_secs();
    if secs <= i64::MAX as u64 {
        secs as i64
    } else {
        i64::MAX
    }
}

} // verus!
