//! Points in time and spans of time, as plain microsecond counts.

use vstd::prelude::*;

verus! {

/// Largest magnitude, in microseconds since the Unix epoch, that a valid
/// [`Instant`] may hold. This covers roughly 146,000 years on either side of
/// the epoch; it exists so that summing clipped interval lengths over a whole
/// sheet can be proved free of overflow.
pub const TICK_BOUND: i64 = 0x4000_0000_0000_0000;

/// A point in time: a count of microseconds since the Unix epoch, already
/// normalized to a single timezone (UTC). Callers convert local times to this
/// representation before handing them to the library.
#[derive(Clone, Copy, Debug, PartialEq, Eq, Hash, PartialOrd, Ord, Structural)]
pub struct Instant {
    /// Microseconds since the Unix epoch.
    pub ticks: i64,
}

impl Instant {
    /// True when the instant lies inside the supported range.
    pub open spec fn valid(self) -> bool {
        -TICK_BOUND <= self.ticks && self.ticks <= TICK_BOUND
    }

    /// Build an instant from a microsecond count.
    pub fn new(ticks: i64) -> (r: Instant)
        ensures
            r.ticks == ticks,
    {
        Instant { ticks }
    }

    /// Whether the instant lies inside the supported range.
    pub fn is_valid(&self) -> (r: bool)
        ensures
            r == self.valid(),
    {
        -TICK_BOUND <= self.ticks && self.ticks <= TICK_BOUND
    }

    /// Build an instant from a microsecond count, clamped to the supported
    /// range; counts already in range are kept exactly.
    pub fn clamped(ticks: i64) -> (r: Instant)
        ensures
            r.valid(),
            -TICK_BOUND <= ticks && ticks <= TICK_BOUND ==> r.ticks == ticks,
            ticks < -TICK_BOUND ==> r.ticks == -TICK_BOUND,
            ticks > TICK_BOUND ==> r.ticks == TICK_BOUND,
    {
        if ticks < -TICK_BOUND {
            Instant { ticks: -TICK_BOUND }
        } else if ticks > TICK_BOUND {
            Instant { ticks: TICK_BOUND }
        } else {
            Instant { ticks }
        }
    }
}

/// A signed span of time, in microseconds. Wide enough to hold the sum of
/// clipped interval lengths over any sheet whose instants are valid.
#[derive(Clone, Copy, Debug, PartialEq, Eq, Hash, PartialOrd, Ord, Structural)]
pub struct Duration {
    /// Length of the span in microseconds; negative spans can arise only from
    /// sheets whose intervals end before they begin.
    pub ticks: i128,
}

/// Quotient of `a` by `b`, rounded toward zero, as Rust's integer division
/// computes it (the spec-mode `/` rounds toward negative infinity instead).
pub open spec fn quot_toward_zero(a: int, b: int) -> int {
    if a >= 0 {
        a / b
    } else {
        -((-a) / b)
    }
}

impl Duration {
    /// The empty span.
    pub fn zero() -> (r: Duration)
        ensures
            r.ticks == 0,
    {
        Duration { ticks: 0 }
    }

    /// Whole hours contained in the span, rounded toward zero.
    pub fn num_hours(&self) -> (r: i128)
        ensures
            r == quot_toward_zero(self.ticks as int, 3_600_000_000),
    {
        self.ticks / 3_600_000_000
    }

    /// Whole minutes contained in the span, rounded toward zero.
    pub fn num_minutes(&self) -> (r: i128)
        ensures
            r == quot_toward_zero(self.ticks as int, 60_000_000),
    {
        self.ticks / 60_000_000
    }
}

} // verus!
