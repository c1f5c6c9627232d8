//! A single tracked period of time.

use crate::instant::Instant;
use vstd::prelude::*;

verus! {

/// One contiguous tracked period: a start and an optional stop. A missing
/// stop means the period is still open (tracking is in progress).
#[derive(Clone, Copy, Debug, PartialEq, Eq)]
pub struct Event {
    /// The start of the time-tracking period.
    pub start: Instant,
    /// The end of the time-tracking period, absent while it is in progress.
    pub stop: Option<Instant>,
}

impl Event {
    /// True when both instants of the event lie inside the supported range.
    pub open spec fn valid(self) -> bool {
        &&& self.start.valid()
        &&& match self.stop {
            Some(t) => t.valid(),
            None => true,
        }
    }

    /// Create a new, still open event starting at the given time.
    pub fn new(start: Instant) -> (r: Event)
        ensures
            r.start == start,
            r.stop is None,
    {
        Event { start, stop: None }
    }
}

} // verus!
