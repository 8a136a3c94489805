use vstd::prelude::*;

verus! {

/// Relies on std's monotonic clock as an opaque value: nothing is known of it.
#[verifier::external_type_specification]
#[verifier::external_body]
pub struct ExInstant(std::time::Instant);

/// Relies on `Instant::now`: the current instant, of which nothing is assumed.
pub assume_specification[ std::time::Instant::now ]() -> std::time::Instant;

/// Relies on `Instant::elapsed`: the time since the instant, of which nothing is assumed.
pub assume_specification[ std::time::Instant::elapsed ](i: &std::time::Instant) -> core::time::Duration;

/// Relies on `Duration::as_nanos`: a count of nanoseconds, of which nothing is assumed.
pub assume_specification[ core::time::Duration::as_nanos ](d: &core::time::Duration) -> u128;

/// Nanoseconds since `start`, as far as they fit in a `u64`.
pub(crate) fn elapsed_nanos(start: &std::time::Instant) -> u64 {
    let nanos = start.elapsed().as_nanos();
    if nanos > u64::MAX as u128 {
        u64::MAX
    } else {
        nanos as u64
    }
}

/// Whether `elapsed` nanoseconds exceed the thinking budget; no budget never runs out.
pub fn deadline_passed(elapsed: u64, budget: Option<u64>) -> (r: bool)
    ensures
        r == (budget matches Some(b) && elapsed > b),
{
    match budget {
        Some(b) => elapsed > b,
        None => false,
    }
}

/// How many searched nodes pass between two readings of the clock.
pub const CHECK_CLOCK_EVERY: u32 = 1000;

/// A thinking budget that runs from the moment the deadline is made. The clock is read
/// once every `CHECK_CLOCK_EVERY` nodes, so a search may overrun it by that much work.
pub struct Deadline {
    start: std::time::Instant,
    budget: Option<u64>,
    countdown: u32,
}

impl Deadline {
    pub closed spec fn budget(&self) -> Option<u64> {
        self.budget
    }

    /// A deadline `budget` nanoseconds from now, or none at all.
    pub fn new(budget: Option<u64>) -> (r: Deadline)
        ensures
            r.budget() == budget,
    {
        Deadline { start: std::time::Instant::now(), budget, countdown: 0 }
    }

    /// Counts one searched node and tells whether the budget has run out. Without a
    /// budget it never does.
    pub fn expired(&mut self) -> (r: bool)
        ensures
            final(self).budget() == old(self).budget(),
            old(self).budget() is None ==> !r,
    {
        if self.countdown == 0 {
            self.countdown = CHECK_CLOCK_EVERY;
            deadline_passed(elapsed_nanos(&self.start), self.budget)
        } else {
            self.countdown = self.countdown - 1;
            false
        }
    }

    /// Nanoseconds since the deadline was made.
    pub(crate) fn elapsed(&self) -> u64 {
        elapsed_nanos(&self.start)
    }
}

} // verus!
