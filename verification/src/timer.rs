//! Measuring the time a search has taken.
use vstd::prelude::*;
use std::time::{Duration, Instant};

verus! {

#[verifier::external_type_specification]
#[verifier::external_body]
pub struct ExInstant(Instant);

/// A point in time to measure from.
#[derive(Clone, Copy)]
pub struct Time {
    /// When the measure started.
    pub start: Instant,
}

/// `Instant::now`: the current time; nothing is claimed of it.
#[verifier::external_body]
fn instant_now() -> (r: Instant) {
    Instant::now()
}

/// `Instant::elapsed`: the time since `start`, which depends on the clock; nothing is claimed of
/// it.
#[verifier::external_body]
fn elapsed_since(start: &Instant) -> (r: Duration) {
    start.elapsed()
}

/// `Duration::as_millis`: the whole milliseconds of a duration; nothing is claimed of them here,
/// as no duration is known to the library.
#[verifier::external_body]
fn whole_milliseconds(duration: &Duration) -> (r: u128) {
    duration.as_millis()
}

impl Time {
    /// Starts measuring now.
    pub fn now() -> (r: Self) {
        Time { start: instant_now() }
    }

    /// The milliseconds since the measure started.
    pub fn miliseconds(&self) -> (r: u128) {
        whole_milliseconds(&elapsed_since(&self.start))
    }
}

} // verus!
