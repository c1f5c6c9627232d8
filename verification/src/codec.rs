//! Serializing a sheet to bytes and parsing it back.
//!
//! The persisted form is an opaque sequence of fixed-shape records, one per
//! event: eight bytes holding the start instant (biased into unsigned range,
//! little-endian), one marker byte (0 for an open event, 1 for a closed one),
//! and for closed events eight more bytes holding the stop instant the same
//! way. Sub-microsecond text formats are not used, so every tick count round
//! trips exactly.

use crate::event::Event;
use crate::instant::Instant;
use crate::sheet::{Sheet, SheetError};
use vstd::bytes::{
    lemma_auto_spec_u64_to_from_le_bytes, spec_u64_from_le_bytes, spec_u64_to_le_bytes,
    u64_from_le_bytes, u64_to_le_bytes,
};
use vstd::prelude::*;
use vstd::slice::slice_subrange;

verus! {

/// An instant's tick count shifted into unsigned range, so that a record
/// holds a plain `u64` whatever the sign of the count.
pub open spec fn biased(t: i64) -> u64 {
    (t as int + 0x8000_0000_0000_0000) as u64
}

/// The inverse of [`biased`].
pub open spec fn unbiased(u: u64) -> i64 {
    (u as int - 0x8000_0000_0000_0000) as i64
}

/// The bytes of one event: its start, a marker, and for closed events its
/// stop.
pub open spec fn encode_event(e: Event) -> Seq<u8> {
    match e.stop {
        None => spec_u64_to_le_bytes(biased(e.start.ticks)) + seq![0u8],
        Some(t) => spec_u64_to_le_bytes(biased(e.start.ticks)) + seq![1u8]
            + spec_u64_to_le_bytes(biased(t.ticks)),
    }
}

/// The bytes of a whole sheet: its events' records, in order.
pub open spec fn encode(s: Seq<Event>) -> Seq<u8>
    decreases s.len(),
{
    if s.len() == 0 {
        Seq::empty()
    } else {
        encode_event(s[0]) + encode(s.drop_first())
    }
}

/// Parse bytes back into events; `None` when the bytes are not a
/// well-formed list of records.
pub open spec fn decode(b: Seq<u8>) -> Option<Seq<Event>>
    decreases b.len(),
{
    if b.len() == 0 {
        Some(Seq::<Event>::empty())
    } else if b.len() < 9 {
        None
    } else {
        let start = Instant { ticks: unbiased(spec_u64_from_le_bytes(b.subrange(0, 8))) };
        if b[8] == 0u8 {
            match decode(b.skip(9)) {
                Some(rest) => Some(seq![Event { start, stop: None }] + rest),
                None => None,
            }
        } else if b[8] == 1u8 {
            if b.len() < 17 {
                None
            } else {
                let stop = Instant {
                    ticks: unbiased(spec_u64_from_le_bytes(b.subrange(9, 17))),
                };
                match decode(b.skip(17)) {
                    Some(rest) => Some(seq![Event { start, stop: Some(stop) }] + rest),
                    None => None,
                }
            }
        } else {
            None
        }
    }
}

/// Biasing loses nothing: shifting into unsigned range and back returns the
/// original tick count.
pub proof fn lemma_bias_round_trip(t: i64)
    ensures
        unbiased(biased(t)) == t,
{
    assert(0 <= t as int + 0x8000_0000_0000_0000 < 0x1_0000_0000_0000_0000);
}

/// Appending one event to a sheet appends its record to the encoding.
proof fn lemma_encode_snoc(s: Seq<Event>, e: Event)
    ensures
        encode(s.push(e)) == encode(s) + encode_event(e),
    decreases s.len(),
{
    if s.len() == 0 {
        assert(s.push(e)[0] == e);
        assert(s.push(e).drop_first() =~= Seq::<Event>::empty());
        assert(encode(s.push(e)) == encode_event(e) + encode(Seq::<Event>::empty()));
        assert(encode_event(e) + Seq::<u8>::empty() =~= encode_event(e));
        assert(encode(s) + encode_event(e) =~= encode_event(e));
    } else {
        assert(s.push(e)[0] == s[0]);
        assert(s.push(e).drop_first() =~= s.drop_first().push(e));
        lemma_encode_snoc(s.drop_first(), e);
        assert(encode_event(s[0]) + (encode(s.drop_first()) + encode_event(e)) =~= (encode_event(
            s[0],
        ) + encode(s.drop_first())) + encode_event(e));
    }
}

/// Law: parsing an encoded sheet gives back exactly the events that were
/// encoded, for every sheet — empty, open, closed or mixed, whatever the
/// tick counts.
pub proof fn lemma_round_trip(s: Seq<Event>)
    ensures
        decode(encode(s)) == Some(s),
    decreases s.len(),
{
    lemma_auto_spec_u64_to_from_le_bytes();
    if s.len() == 0 {
        assert(encode(s).len() == 0);
    } else {
        let e = s[0];
        let rec = encode_event(e);
        let rest = encode(s.drop_first());
        let b = encode(s);
        let sb = spec_u64_to_le_bytes(biased(e.start.ticks));
        assert(sb.len() == 8);
        lemma_bias_round_trip(e.start.ticks);
        lemma_round_trip(s.drop_first());
        match e.stop {
            None => {
                assert(rec.len() == 9);
                assert(b.subrange(0, 8) =~= sb);
                assert(b[8] == 0u8);
                assert(b.skip(9) =~= rest);
                assert(decode(b) == Some(seq![Event { start: e.start, stop: None }] + s.drop_first()));
                assert(seq![Event { start: e.start, stop: None }] + s.drop_first() =~= s);
            },
            Some(t) => {
                let tb = spec_u64_to_le_bytes(biased(t.ticks));
                assert(tb.len() == 8);
                lemma_bias_round_trip(t.ticks);
                assert(rec.len() == 17);
                assert(b.subrange(0, 8) =~= sb);
                assert(b[8] == 1u8);
                assert(b.subrange(9, 17) =~= tb);
                assert(b.skip(17) =~= rest);
                assert(decode(b) == Some(
                    seq![Event { start: e.start, stop: Some(t) }] + s.drop_first(),
                ));
                assert(seq![Event { start: e.start, stop: Some(t) }] + s.drop_first() =~= s);
            },
        }
    }
}

/// Shift a tick count into unsigned range.
fn bias_ticks(t: i64) -> (r: u64)
    ensures
        r == biased(t),
{
    (t as i128 + 0x8000_0000_0000_0000i128) as u64
}

/// Shift a stored `u64` back into a tick count.
fn unbias_ticks(u: u64) -> (r: i64)
    ensures
        r == unbiased(u),
{
    (u as i128 - 0x8000_0000_0000_0000i128) as i64
}

impl Sheet {
    /// Serialize the sheet to its persisted byte form.
    pub fn serialize(&self) -> (r: Vec<u8>)
        ensures
            r@ == encode(self.events@),
    {
        let mut out: Vec<u8> = Vec::new();
        let mut i: usize = 0;
        let n = self.events.len();
        while i < n
            invariant
                i <= n,
                n == self.events@.len(),
                out@ == encode(self.events@.take(i as int)),
            decreases n - i,
        {
            let ev = self.events[i];
            let mut sb = u64_to_le_bytes(bias_ticks(ev.start.ticks));
            out.append(&mut sb);
            match ev.stop {
                None => {
                    out.push(0u8);
                },
                Some(t) => {
                    out.push(1u8);
                    let mut tb = u64_to_le_bytes(bias_ticks(t.ticks));
                    out.append(&mut tb);
                },
            }
            proof {
                lemma_encode_snoc(self.events@.take(i as int), self.events@[i as int]);
                assert(self.events@.take(i as int + 1) =~= self.events@.take(i as int).push(
                    self.events@[i as int],
                ));
                assert(out@ =~= encode(self.events@.take(i as int)) + encode_event(
                    self.events@[i as int],
                ));
            }
            i = i + 1;
        }
        proof {
            assert(self.events@.take(n as int) =~= self.events@);
        }
        out
    }

    /// Parse a serialized sheet back from bytes. Bytes that are not a
    /// well-formed list of records are rejected as a parse failure, never
    /// silently treated as an empty sheet.
    pub fn deserialize(bytes: &[u8]) -> (r: Result<Sheet, SheetError>)
        ensures
            (r matches Ok(sheet) ==> decode(bytes@) == Some(sheet.events@)),
            (r is Err ==> decode(bytes@) is None && r == Err::<Sheet, SheetError>(
                SheetError::ParseSheet,
            )),
    {
        let n = bytes.len();
        let mut idx: usize = 0;
        let mut events: Vec<Event> = Vec::new();
        proof {
            assert(bytes@.skip(0) =~= bytes@);
            assert(events@ =~= Seq::<Event>::empty());
            if decode(bytes@) is Some {
                assert(events@ + decode(bytes@).unwrap() =~= decode(bytes@).unwrap());
            }
        }
        while idx < n
            invariant
                idx <= n,
                n == bytes@.len(),
                decode(bytes@) == (match decode(bytes@.skip(idx as int)) {
                    None => None::<Seq<Event>>,
                    Some(rest) => Some(events@ + rest),
                }),
            decreases n - idx,
        {
            let ghost pre = bytes@.skip(idx as int);
            if n - idx < 9 {
                proof {
                    assert(decode(pre) is None);
                }
                return Err(SheetError::ParseSheet);
            }
            let start = Instant { ticks: unbias_ticks(u64_from_le_bytes(slice_subrange(bytes, idx, idx + 8))) };
            proof {
                assert(pre.subrange(0, 8) =~= bytes@.subrange(idx as int, idx as int + 8));
                assert(pre[8] == bytes@[idx as int + 8]);
            }
            let marker = bytes[idx + 8];
            if marker == 0u8 {
                let ev = Event { start, stop: None };
                let ghost evs0 = events@;
                events.push(ev);
                proof {
                    assert(pre.skip(9) =~= bytes@.skip(idx as int + 9));
                    if decode(bytes@.skip(idx as int + 9)) is Some {
                        let rest2 = decode(bytes@.skip(idx as int + 9)).unwrap();
                        assert(decode(pre) == Some(seq![ev] + rest2));
                        assert(evs0 + (seq![ev] + rest2) =~= events@ + rest2);
                    }
                }
                idx = idx + 9;
            } else if marker == 1u8 {
                if n - idx < 17 {
                    proof {
                        assert(decode(pre) is None);
                    }
                    return Err(SheetError::ParseSheet);
                }
                let stop = Instant { ticks: unbias_ticks(u64_from_le_bytes(slice_subrange(bytes, idx + 9, idx + 17))) };
                let ev = Event { start, stop: Some(stop) };
                let ghost evs0 = events@;
                events.push(ev);
                proof {
                    assert(pre.subrange(9, 17) =~= bytes@.subrange(idx as int + 9, idx as int + 17));
                    assert(pre.skip(17) =~= bytes@.skip(idx as int + 17));
                    if decode(bytes@.skip(idx as int + 17)) is Some {
                        let rest2 = decode(bytes@.skip(idx as int + 17)).unwrap();
                        assert(decode(pre) == Some(seq![ev] + rest2));
                        assert(evs0 + (seq![ev] + rest2) =~= events@ + rest2);
                    }
                }
                idx = idx + 17;
            } else {
                proof {
                    assert(decode(pre) is None);
                }
                return Err(SheetError::ParseSheet);
            }
        }
        proof {
            assert(bytes@.skip(n as int) =~= Seq::<u8>::empty());
            assert(events@ + Seq::<Event>::empty() =~= events@);
        }
        Ok(Sheet { events })
    }
}

} // verus!
