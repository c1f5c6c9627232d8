//! Working with recorded timesheets (lists of events): the punch-in/punch-out
//! state machine and the time-range aggregator.

use crate::event::Event;
use crate::instant::{Duration, Instant};
use vstd::pervasive::VecAdditionalExecFns;
use vstd::prelude::*;

verus! {

/// Whether or not time is currently being tracked.
#[derive(Clone, Copy, Debug, PartialEq, Eq)]
pub enum SheetStatus {
    /// Time is currently being tracked, and has been since the given instant.
    PunchedIn(Instant),
    /// Time is not currently being tracked, as of the given instant.
    PunchedOut(Instant),
    /// No time has ever been tracked.
    Empty,
}

/// Errors arising through the use of [`Sheet`].
#[derive(Clone, Copy, Debug, PartialEq, Eq)]
pub enum SheetError {
    /// A punch-in was rejected because the sheet is already punched in, since
    /// the given instant.
    PunchedIn(Instant),
    /// A punch-out was rejected because the sheet is already punched out, as
    /// of the given instant.
    PunchedOut(Instant),
    /// A punch-out was rejected because the sheet holds no events at all.
    NoPunches,
    /// A serialized sheet could not be parsed back.
    ParseSheet,
}

/// The alternation invariant: every event but possibly the last is closed.
/// Punching in and out preserves this shape; it is what makes "the last
/// event" the only place an open period can live.
pub open spec fn all_closed_but_last(s: Seq<Event>) -> bool {
    forall|i: int| 0 <= i < s.len() - 1 ==> s[i].stop is Some
}

/// A punch-in succeeds exactly when the sheet is empty or its last event is
/// closed.
pub open spec fn can_punch_in(s: Seq<Event>) -> bool {
    s.len() == 0 || s.last().stop is Some
}

/// A punch-out succeeds exactly when the last event exists and is open.
pub open spec fn can_punch_out(s: Seq<Event>) -> bool {
    s.len() > 0 && s.last().stop is None
}

/// What a punch-in at `at` does to the events: append a fresh open event when
/// allowed, otherwise leave the sheet untouched.
pub open spec fn punch_in_spec(s: Seq<Event>, at: Instant) -> Seq<Event> {
    if can_punch_in(s) {
        s.push(Event { start: at, stop: None })
    } else {
        s
    }
}

/// What a punch-out at `at` does to the events: close the last event when it
/// is open, otherwise leave the sheet untouched.
pub open spec fn punch_out_spec(s: Seq<Event>, at: Instant) -> Seq<Event> {
    if can_punch_out(s) {
        s.update(s.len() - 1, Event { start: s.last().start, stop: Some(at) })
    } else {
        s
    }
}

/// The status of a sheet: punched in since the last event's start when that
/// event is open, punched out as of its stop when it is closed, empty when
/// there are no events.
pub open spec fn status_spec(s: Seq<Event>) -> SheetStatus {
    if s.len() == 0 {
        SheetStatus::Empty
    } else {
        match s.last().stop {
            Some(t) => SheetStatus::PunchedOut(t),
            None => SheetStatus::PunchedIn(s.last().start),
        }
    }
}

/// The instant an event effectively stops at: its stop if present, else
/// `now`, the instant at which an aggregation runs. An open event therefore
/// contributes up to the present moment and never beyond the query window.
pub open spec fn effective_stop(e: Event, now: int) -> int {
    match e.stop {
        Some(t) => t.ticks as int,
        None => now,
    }
}

/// How many microseconds of the event fall inside the window `[begin, end]`:
/// events entirely outside the window contribute nothing, all others are
/// clipped to the window. Events that merely touch the window's edge reach
/// the clipping step and contribute zero there.
pub open spec fn overlap(e: Event, begin: int, end: int, now: int) -> int {
    let start = e.start.ticks as int;
    let stop = effective_stop(e, now);
    if (start < begin && stop < begin) || (start > end && stop > end) {
        0
    } else {
        vstd::math::min(end, stop) - vstd::math::max(begin, start)
    }
}

/// Total overlap of all events with the window `[begin, end]`, with open
/// events running until `now`.
pub open spec fn count_spec(s: Seq<Event>, begin: int, end: int, now: int) -> int
    decreases s.len(),
{
    if s.len() == 0 {
        0
    } else {
        count_spec(s.drop_last(), begin, end, now) + overlap(s.last(), begin, end, now)
    }
}

/// List of events, together comprising a log of work from which totals can be
/// calculated for various periods of time.
#[derive(Clone, Debug, PartialEq, Eq)]
pub struct Sheet {
    /// The recorded events, in the order they were punched.
    pub events: Vec<Event>,
}

impl Default for Sheet {
    /// An empty sheet.
    fn default() -> (r: Sheet)
        ensures
            r.events@.len() == 0,
    {
        Sheet { events: Vec::new() }
    }
}

impl Sheet {
    /// The alternation invariant on this sheet's events.
    pub open spec fn well_formed(self) -> bool {
        all_closed_but_last(self.events@)
    }

    /// True when every instant recorded in the sheet lies inside the
    /// supported range.
    pub open spec fn valid_instants(self) -> bool {
        forall|i: int| 0 <= i < self.events@.len() ==> (#[trigger] self.events@[i]).valid()
    }

    /// Whether every instant recorded in the sheet lies inside the supported
    /// range, as [`Sheet::count_range`] asks of its callers.
    pub fn has_valid_instants(&self) -> (r: bool)
        ensures
            r == self.valid_instants(),
    {
        let mut i: usize = 0;
        let n = self.events.len();
        while i < n
            invariant
                i <= n,
                n == self.events@.len(),
                forall|j: int| 0 <= j < i ==> (#[trigger] self.events@[j]).valid(),
            decreases n - i,
        {
            let ev = self.events[i];
            let stop_ok = match ev.stop {
                Some(t) => t.is_valid(),
                None => true,
            };
            if !(ev.start.is_valid() && stop_ok) {
                proof {
                    assert(!self.events@[i as int].valid());
                }
                return false;
            }
            i = i + 1;
        }
        true
    }

    /// Record a punch-in (start of a time-tracking period) at the given time.
    ///
    /// Succeeds exactly when the sheet is empty or its last event is closed,
    /// appending a fresh open event; a rejected punch-in reports the start of
    /// the still-open event and leaves the sheet untouched.
    pub fn punch_in_at(&mut self, time: Instant) -> (r: Result<Instant, SheetError>)
        ensures
            final(self).events@ == punch_in_spec(old(self).events@, time),
            can_punch_in(old(self).events@) ==> r == Ok::<Instant, SheetError>(time),
            !can_punch_in(old(self).events@) ==> {
                &&& r == Err::<Instant, SheetError>(
                    SheetError::PunchedIn(old(self).events@.last().start),
                )
                &&& final(self).events@ == old(self).events@
            },
            old(self).well_formed() ==> final(self).well_formed(),
            (old(self).valid_instants() && time.valid()) ==> final(self).valid_instants(),
    {
        proof {
            lemma_alternation(self.events@, time);
        }
        let n = self.events.len();
        if n == 0 || self.events[n - 1].stop.is_some() {
            self.events.push(Event { start: time, stop: None });
            Ok(time)
        } else {
            Err(SheetError::PunchedIn(self.events[n - 1].start))
        }
    }

    /// Record a punch-out (end of a time-tracking period) at the given time.
    ///
    /// Succeeds exactly when the last event exists and is open, closing it in
    /// place; a rejected punch-out reports why (already punched out, or no
    /// punches at all) and leaves the sheet untouched.
    pub fn punch_out_at(&mut self, time: Instant) -> (r: Result<Instant, SheetError>)
        ensures
            final(self).events@ == punch_out_spec(old(self).events@, time),
            can_punch_out(old(self).events@) ==> r == Ok::<Instant, SheetError>(time),
            !can_punch_out(old(self).events@) ==> final(self).events@ == old(self).events@,
            old(self).events@.len() == 0 ==> r == Err::<Instant, SheetError>(
                SheetError::NoPunches,
            ),
            (old(self).events@.len() > 0 && old(self).events@.last().stop is Some) ==> r
                == Err::<Instant, SheetError>(
                SheetError::PunchedOut(old(self).events@.last().stop.unwrap()),
            ),
            old(self).well_formed() ==> final(self).well_formed(),
            (old(self).valid_instants() && time.valid()) ==> final(self).valid_instants(),
    {
        proof {
            lemma_alternation(self.events@, time);
        }
        let n = self.events.len();
        if n == 0 {
            Err(SheetError::NoPunches)
        } else {
            match self.events[n - 1].stop {
                Some(t) => Err(SheetError::PunchedOut(t)),
                None => {
                    let start = self.events[n - 1].start;
                    self.events.set(n - 1, Event { start, stop: Some(time) });
                    Ok(time)
                },
            }
        }
    }

    /// Get the current status of time-tracking, including the time at which
    /// the status last changed.
    pub fn status(&self) -> (r: SheetStatus)
        ensures
            r == status_spec(self.events@),
    {
        let n = self.events.len();
        if n == 0 {
            SheetStatus::Empty
        } else {
            match self.events[n - 1].stop {
                Some(t) => SheetStatus::PunchedOut(t),
                None => SheetStatus::PunchedIn(self.events[n - 1].start),
            }
        }
    }

    /// Record a punch-in (start of a time-tracking period) at the current
    /// time, clamped into the supported range of instants.
    pub fn punch_in(&mut self) -> (r: Result<Instant, SheetError>)
        ensures
            (exists|at: Instant|
                at.valid() && final(self).events@ == punch_in_spec(old(self).events@, at) && (
                can_punch_in(old(self).events@) ==> r == Ok::<Instant, SheetError>(at))),
            !can_punch_in(old(self).events@) ==> {
                &&& final(self).events@ == old(self).events@
                &&& r == Err::<Instant, SheetError>(
                    SheetError::PunchedIn(old(self).events@.last().start),
                )
            },
            old(self).well_formed() ==> final(self).well_formed(),
            old(self).valid_instants() ==> final(self).valid_instants(),
    {
        let at = Instant::clamped(crate::clock::now_ticks());
        let r = self.punch_in_at(at);
        proof {
            assert(at.valid() && self.events@ == punch_in_spec(old(self).events@, at) && (
            can_punch_in(old(self).events@) ==> r == Ok::<Instant, SheetError>(at)));
        }
        r
    }

    /// Record a punch-out (end of a time-tracking period) at the current
    /// time, clamped into the supported range of instants.
    pub fn punch_out(&mut self) -> (r: Result<Instant, SheetError>)
        ensures
            (exists|at: Instant|
                at.valid() && final(self).events@ == punch_out_spec(old(self).events@, at) && (
                can_punch_out(old(self).events@) ==> r == Ok::<Instant, SheetError>(at))),
            !can_punch_out(old(self).events@) ==> final(self).events@ == old(self).events@,
            old(self).events@.len() == 0 ==> r == Err::<Instant, SheetError>(
                SheetError::NoPunches,
            ),
            (old(self).events@.len() > 0 && old(self).events@.last().stop is Some) ==> r
                == Err::<Instant, SheetError>(
                SheetError::PunchedOut(old(self).events@.last().stop.unwrap()),
            ),
            old(self).well_formed() ==> final(self).well_formed(),
            old(self).valid_instants() ==> final(self).valid_instants(),
    {
        let at = Instant::clamped(crate::clock::now_ticks());
        let r = self.punch_out_at(at);
        proof {
            assert(at.valid() && self.events@ == punch_out_spec(old(self).events@, at) && (
            can_punch_out(old(self).events@) ==> r == Ok::<Instant, SheetError>(at)));
        }
        r
    }

    /// Count the amount of time for which there was recorded work between
    /// the two given instants, treating an open event as running until `now`.
    ///
    /// A window whose `begin` lies after its `end` overlaps nothing and
    /// counts zero.
    pub fn count_range_at(&self, begin: Instant, end: Instant, now: Instant) -> (r: Duration)
        requires
            self.valid_instants(),
            begin.valid(),
            end.valid(),
            now.valid(),
        ensures
            (begin.ticks <= end.ticks ==> r.ticks == count_spec(
                self.events@,
                begin.ticks as int,
                end.ticks as int,
                now.ticks as int,
            )),
            begin.ticks > end.ticks ==> r.ticks == 0,
    {
        if begin.ticks > end.ticks {
            return Duration::zero();
        }
        let ghost b = begin.ticks as int;
        let ghost e = end.ticks as int;
        let ghost nw = now.ticks as int;
        let mut total: i128 = 0;
        let mut i: usize = 0;
        let n = self.events.len();
        while i < n
            invariant
                i <= n,
                n == self.events@.len(),
                begin.ticks <= end.ticks,
                self.valid_instants(),
                begin.valid(),
                end.valid(),
                now.valid(),
                b == begin.ticks as int,
                e == end.ticks as int,
                nw == now.ticks as int,
                total == count_spec(self.events@.take(i as int), b, e, nw),
                -(i as int) * 0x8000_0000_0000_0000 <= total <= (i as int)
                    * 0x8000_0000_0000_0000,
            decreases n - i,
        {
            let ev = self.events[i];
            let start_t: i64 = ev.start.ticks;
            let stop_t: i64 = match ev.stop {
                Some(t) => t.ticks,
                None => now.ticks,
            };
            let term: i128 = if (start_t < begin.ticks && stop_t < begin.ticks) || (start_t
                > end.ticks && stop_t > end.ticks) {
                0
            } else {
                let ov_end = if end.ticks < stop_t {
                    end.ticks
                } else {
                    stop_t
                };
                let ov_start = if begin.ticks > start_t {
                    begin.ticks
                } else {
                    start_t
                };
                (ov_end as i128) - (ov_start as i128)
            };
            proof {
                assert(self.events@[i as int].valid());
                assert(term == overlap(self.events@[i as int], b, e, nw));
                assert(-0x8000_0000_0000_0000 <= term <= 0x8000_0000_0000_0000);
                assert(self.events@.take(i as int + 1).drop_last() =~= self.events@.take(
                    i as int,
                ));
                assert(self.events@.take(i as int + 1).last() == self.events@[i as int]);
                assert((i as int + 1) * 0x8000_0000_0000_0000 <= (n as int)
                    * 0x8000_0000_0000_0000);
            }
            total = total + term;
            i = i + 1;
        }
        proof {
            assert(self.events@.take(n as int) =~= self.events@);
        }
        Duration { ticks: total }
    }

    /// Count the amount of time for which there was recorded work between
    /// the two given instants, including an ongoing time-tracking period if
    /// there is one, which runs until the current time.
    pub fn count_range(&self, begin: Instant, end: Instant) -> (r: Duration)
        requires
            self.valid_instants(),
            begin.valid(),
            end.valid(),
        ensures
            (begin.ticks <= end.ticks ==> exists|nw: Instant|
                nw.valid() && r.ticks == count_spec(
                    self.events@,
                    begin.ticks as int,
                    end.ticks as int,
                    nw.ticks as int,
                )),
            begin.ticks > end.ticks ==> r.ticks == 0,
    {
        let now = Instant::clamped(crate::clock::now_ticks());
        let r = self.count_range_at(begin, end, now);
        proof {
            if begin.ticks <= end.ticks {
                assert(now.valid() && r.ticks == count_spec(
                    self.events@,
                    begin.ticks as int,
                    end.ticks as int,
                    now.ticks as int,
                ));
            }
        }
        r
    }
}

/// Law: the punch operations keep the alternation invariant, and alternate.
/// After a successful punch-in, only a punch-out can succeed; after a
/// successful punch-out, only a punch-in can succeed. So for any sequence of
/// punches, every sheet reached has all events but possibly the last closed,
/// and two punch-ins (or two punch-outs) can never succeed in a row.
pub proof fn lemma_alternation(s: Seq<Event>, at: Instant)
    ensures
        all_closed_but_last(s) ==> all_closed_but_last(punch_in_spec(s, at)),
        all_closed_but_last(s) ==> all_closed_but_last(punch_out_spec(s, at)),
        can_punch_in(s) ==> !can_punch_in(punch_in_spec(s, at)),
        can_punch_in(s) ==> can_punch_out(punch_in_spec(s, at)),
        can_punch_out(s) ==> !can_punch_out(punch_out_spec(s, at)),
        can_punch_out(s) ==> can_punch_in(punch_out_spec(s, at)),
{
    if can_punch_in(s) {
        let pushed = punch_in_spec(s, at);
        assert(pushed.last().stop is None);
        if all_closed_but_last(s) {
            assert forall|i: int| 0 <= i < pushed.len() - 1 implies pushed[i].stop is Some by {
                if i < s.len() - 1 {
                    assert(s[i].stop is Some);
                } else {
                    assert(pushed[i] == s.last());
                }
            }
        }
    }
    if can_punch_out(s) {
        let closed = punch_out_spec(s, at);
        assert(closed.last().stop is Some);
        if all_closed_but_last(s) {
            assert forall|i: int| 0 <= i < closed.len() - 1 implies closed[i].stop is Some by {
                assert(closed[i] == s[i]);
            }
        }
    }
}

/// Law: a query window exactly equal to a closed event's bounds counts the
/// event's full length, whatever instant the aggregation runs at.
pub proof fn lemma_window_equals_interval(e: Event, now: int)
    requires
        e.stop is Some,
        e.start.ticks <= e.stop.unwrap().ticks,
    ensures
        count_spec(seq![e], e.start.ticks as int, e.stop.unwrap().ticks as int, now)
            == e.stop.unwrap().ticks - e.start.ticks,
{
    let b = e.start.ticks as int;
    let w = e.stop.unwrap().ticks as int;
    assert(seq![e].drop_last() =~= Seq::<Event>::empty());
    assert(seq![e].last() == e);
    assert(count_spec(Seq::<Event>::empty(), b, w, now) == 0);
    assert(count_spec(seq![e], b, w, now) == count_spec(Seq::<Event>::empty(), b, w, now)
        + overlap(e, b, w, now));
    assert(overlap(e, b, w, now) == w - b);
}

/// Law: a window that merely touches a closed event's edge counts zero. A
/// window ending exactly at the event's start, or beginning exactly at its
/// stop, does not overlap it.
pub proof fn lemma_adjacent_window_zero(e: Event, outer: int, now: int)
    requires
        e.stop is Some,
        e.start.ticks <= e.stop.unwrap().ticks,
    ensures
        (outer <= e.start.ticks ==> count_spec(seq![e], outer, e.start.ticks as int, now) == 0),
        (outer >= e.stop.unwrap().ticks ==> count_spec(
            seq![e],
            e.stop.unwrap().ticks as int,
            outer,
            now,
        ) == 0),
{
    let s = e.start.ticks as int;
    let t = e.stop.unwrap().ticks as int;
    assert(seq![e].drop_last() =~= Seq::<Event>::empty());
    assert(seq![e].last() == e);
    if outer <= e.start.ticks {
        assert(count_spec(Seq::<Event>::empty(), outer, s, now) == 0);
        assert(count_spec(seq![e], outer, s, now) == count_spec(
            Seq::<Event>::empty(),
            outer,
            s,
            now,
        ) + overlap(e, outer, s, now));
        assert(overlap(e, outer, s, now) == 0);
    }
    if outer >= e.stop.unwrap().ticks {
        assert(count_spec(Seq::<Event>::empty(), t, outer, now) == 0);
        assert(count_spec(seq![e], t, outer, now) == count_spec(
            Seq::<Event>::empty(),
            t,
            outer,
            now,
        ) + overlap(e, t, outer, now));
        assert(overlap(e, t, outer, now) == 0);
    }
}

/// Law: a sheet's status is a function of its events alone, so repeated calls
/// to `status` with no punch in between return identical results.
pub proof fn lemma_status_idempotent(sheet: Sheet, r1: SheetStatus, r2: SheetStatus)
    requires
        r1 == status_spec(sheet.events@),
        r2 == status_spec(sheet.events@),
    ensures
        r1 == r2,
{
}

} // verus!
