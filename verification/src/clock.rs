//! Access to the wall clock and to the random source.

use rand::TryRngCore;
use vstd::prelude::*;

verus! {

#[verifier::external_type_specification]
#[verifier::external_body]
pub struct ExSystemTime(std::time::SystemTime);

/// The machine's clock, read by `std::time::SystemTime::now`.
///
/// Nothing is promised of the value: it depends on the machine.
#[verifier::external_body]
fn system_now() -> (t: std::time::SystemTime) {
    std::time::SystemTime::now()
}

/// The time passed from the UNIX epoch to `t`, by
/// `SystemTime::duration_since(UNIX_EPOCH)`; `None` where `t` lies before
/// the epoch, which is the case in which that call returns its error.
#[verifier::external_body]
fn since_epoch(t: &std::time::SystemTime) -> (d: Option<std::time::Duration>) {
    match t.duration_since(std::time::UNIX_EPOCH) {
        Ok(d) => Some(d),
        Err(_) => None,
    }
}

/// The whole seconds of a duration, by `Duration::as_secs`.
///
/// A duration is opaque here, so nothing is stated of the number.
#[verifier::external_body]
fn whole_secs(d: &std::time::Duration) -> (s: u64) {
    d.as_secs()
}

/// Seconds since the UNIX epoch by the machine's clock; a clock that
/// stands before the epoch reads as the epoch itself, 0.
pub(crate) fn current_timestamp() -> (now: u64) {
    let t = system_now();
    match since_epoch(&t) {
        Some(d) => whole_secs(&d),
        None => 0,
    }
}

/// A random number from the operating system's source, drawn by
/// `rand::rngs::OsRng` through `TryRngCore::try_next_u32`; `None` where that
/// source fails, which is the case in which the call returns its error.
///
/// Nothing is promised of the number itself: it depends on chance.
#[verifier::external_body]
pub(crate) fn random_u32() -> (r: Option<u32>) {
    match rand::rngs::OsRng.try_next_u32() {
        Ok(v) => Some(v),
        Err(_) => None,
    }
}

} // verus!
