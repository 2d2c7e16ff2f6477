//! The monotonic clock that the caches with a time to live read.

use vstd::prelude::*;
use std::time::Duration;
use std::time::Instant;

verus! {

/// `std::time::Instant`: a moment on the monotonic clock of the standard
/// library, carried through as an opaque value.
#[verifier::external_type_specification]
#[verifier::external_body]
pub struct ExInstant(std::time::Instant);

/// `Instant::now` of the standard library: the present moment on the
/// monotonic clock. Nothing is claimed of the value.
#[verifier::external_body]
fn instant_now() -> (now: Instant) {
    Instant::now()
}

/// `Instant::elapsed` of the standard library: the time that has passed
/// since `start`. Nothing is claimed of the value.
#[verifier::external_body]
fn instant_elapsed(start: &Instant) -> (elapsed: Duration) {
    start.elapsed()
}

/// `Duration::as_nanos` of the standard library: a span of time as a number
/// of nanoseconds. Nothing is claimed of the value.
#[verifier::external_body]
fn duration_as_nanos(span: &Duration) -> (nanos: u128) {
    span.as_nanos()
}

/// A clock that counts nanoseconds from the moment it was made, and never
/// runs backwards: it remembers the latest time it has shown and shows no
/// earlier one.
pub struct Clock {
    origin: Instant,
    latest: u128,
}

impl Clock {
    /// A clock that starts now. It has shown no time yet.
    pub fn new() -> (clock: Clock)
        ensures
            clock.reading() == 0,
    {
        Clock { origin: instant_now(), latest: 0 }
    }

    /// The nanoseconds that have passed since the clock was made: what the
    /// monotonic clock underneath shows, or the latest reading where that
    /// would be earlier. The time shown becomes the latest reading.
    pub fn now(&mut self) -> (nanos: u128)
        ensures
            nanos >= old(self).reading(),
            final(self).reading() == nanos,
    {
        let elapsed = instant_elapsed(&self.origin);
        let shown = duration_as_nanos(&elapsed);
        if shown > self.latest {
            self.latest = shown;
        }
        self.latest
    }

    /// The latest time that the clock has shown; zero before the first.
    pub closed spec fn reading(&self) -> u128 {
        self.latest
    }
}

} // verus!
