//! The clock that bounds every exchange, and the deadline derived from it.

use vstd::prelude::*;

verus! {

/// A counter that only moves forward, at a known rate. It may wrap around.
pub trait MonotonicCounter {
    /// The counter as it stands.
    fn value(&self) -> u32;

    /// How many ticks the counter makes in a second.
    fn frequency(&self) -> u32;
}

/// The ticks from `start` to `now` on a counter of 32 bits, whether or not it
/// wrapped on the way.
pub open spec fn elapsed(start: u32, now: u32) -> u32 {
    now.wrapping_sub(start)
}

/// The point after which an exchange gives up: a tenth of a second after its
/// start, in ticks of the clock, rounded down.
#[derive(Clone, Copy, Debug, PartialEq, Eq)]
pub struct Deadline {
    /// The counter when the exchange began.
    pub start: u32,
    /// The ticks the exchange may take.
    pub budget: u32,
}

impl Deadline {
    /// The deadline of an exchange that begins when the counter reads `value`.
    pub open spec fn spec_new(value: u32, frequency: u32) -> Deadline {
        Deadline { start: value, budget: frequency / 10 }
    }

    /// Whether the deadline has passed when the counter reads `now`.
    pub open spec fn lapsed(self, now: u32) -> bool {
        elapsed(self.start, now) >= self.budget
    }

    /// The deadline of an exchange that begins when the counter reads `value`.
    pub fn new(value: u32, frequency: u32) -> (deadline: Deadline)
        ensures
            deadline == Deadline::spec_new(value, frequency),
    {
        Deadline { start: value, budget: frequency / 10 }
    }

    /// Whether the deadline has passed when the counter reads `now`.
    pub fn expired(&self, now: u32) -> (late: bool)
        ensures
            late == self.lapsed(now),
    {
        now.wrapping_sub(self.start) >= self.budget
    }
}

/// A counter that wrapped between `start` and now shows the same elapsed
/// ticks as one that never wraps.
pub proof fn lemma_elapsed_across_wrap(start: u32, ticks: u32)
    ensures
        elapsed(start, start.wrapping_add(ticks)) == ticks,
        start + ticks > u32::MAX ==> start.wrapping_add(ticks) < start,
{
}

/// The deadline passes exactly when a tenth of the frequency has gone by,
/// wherever on the counter the exchange began.
pub proof fn lemma_deadline_ignores_wrap(start: u32, frequency: u32, ticks: u32)
    ensures
        Deadline::spec_new(start, frequency).lapsed(start.wrapping_add(ticks)) <==> ticks
            >= frequency / 10,
{
    lemma_elapsed_across_wrap(start, ticks);
}

/// One tick before the threshold the deadline has not passed; at the
/// threshold it has.
pub proof fn lemma_deadline_threshold(start: u32, frequency: u32)
    requires
        frequency >= 10,
    ensures
        !Deadline::spec_new(start, frequency).lapsed(
            start.wrapping_add(((frequency / 10) - 1) as u32),
        ),
        Deadline::spec_new(start, frequency).lapsed(start.wrapping_add(frequency / 10)),
{
    lemma_deadline_ignores_wrap(start, frequency, ((frequency / 10) - 1) as u32);
    lemma_deadline_ignores_wrap(start, frequency, frequency / 10);
}

/// A clock slower than ten ticks a second leaves no budget at all: the
/// deadline has passed at every reading.
pub proof fn lemma_slow_clock_always_late(start: u32, frequency: u32, now: u32)
    requires
        frequency < 10,
    ensures
        Deadline::spec_new(start, frequency).lapsed(now),
{
}

} // verus!
