use punch_clock::{Event, Instant, Sheet, SheetError};

fn at(ticks: i64) -> Instant {
    Instant::new(ticks)
}

fn round_trips(sheet: &Sheet) {
    let bytes = sheet.serialize();
    let back = Sheet::deserialize(&bytes).expect("a serialized sheet parses back");
    assert_eq!(&back, sheet);
}

#[test]
fn round_trip_empty() {
    round_trips(&Sheet::default());
}

#[test]
fn round_trip_one_open() {
    let mut sheet = Sheet::default();
    sheet.punch_in_at(at(123_456_789)).unwrap();
    round_trips(&sheet);
}

#[test]
fn round_trip_one_closed() {
    let mut sheet = Sheet::default();
    sheet.punch_in_at(at(1_000)).unwrap();
    sheet.punch_out_at(at(2_000)).unwrap();
    round_trips(&sheet);
}

#[test]
fn round_trip_many_mixed() {
    let mut sheet = Sheet::default();
    for k in 0..50i64 {
        sheet.punch_in_at(at(k * 1_000_000)).unwrap();
        sheet.punch_out_at(at(k * 1_000_000 + 500_000)).unwrap();
    }
    sheet.punch_in_at(at(999_999_999)).unwrap();
    round_trips(&sheet);
}

#[test]
fn round_trip_sub_second_precision() {
    // One microsecond apart: nothing is rounded away.
    let mut sheet = Sheet::default();
    sheet.punch_in_at(at(1_700_000_000_000_001)).unwrap();
    sheet.punch_out_at(at(1_700_000_000_000_002)).unwrap();
    round_trips(&sheet);
}

#[test]
fn round_trip_negative_and_extreme_ticks() {
    // Instants before the epoch and at the ends of the i64 range survive.
    let sheet = Sheet {
        events: vec![
            Event { start: at(-5_000_000), stop: Some(at(-4_000_000)) },
            Event { start: at(i64::MIN), stop: Some(at(i64::MAX)) },
        ],
    };
    round_trips(&sheet);
}

#[test]
fn serialized_form_is_compact_records() {
    let mut sheet = Sheet::default();
    sheet.punch_in_at(at(1)).unwrap();
    sheet.punch_out_at(at(2)).unwrap();
    sheet.punch_in_at(at(3)).unwrap();

    // One closed record (17 bytes) and one open record (9 bytes).
    let bytes = sheet.serialize();
    assert_eq!(bytes.len(), 26);
}

#[test]
fn deserialize_rejects_truncated_bytes() {
    let mut sheet = Sheet::default();
    sheet.punch_in_at(at(42)).unwrap();
    let mut bytes = sheet.serialize();
    bytes.pop();
    assert_eq!(Sheet::deserialize(&bytes), Err(SheetError::ParseSheet));
}

#[test]
fn deserialize_rejects_bad_marker() {
    let mut sheet = Sheet::default();
    sheet.punch_in_at(at(42)).unwrap();
    let mut bytes = sheet.serialize();
    let last = bytes.len() - 1;
    bytes[last] = 7;
    assert_eq!(Sheet::deserialize(&bytes), Err(SheetError::ParseSheet));
}

#[test]
fn deserialize_empty_bytes_is_empty_sheet() {
    let sheet = Sheet::deserialize(&[]).unwrap();
    assert!(sheet.events.is_empty());
}

#[test]
fn serialization_is_not_the_identity_on_ticks() {
    // The stored bytes bias the tick count, so the raw little-endian value
    // differs from the tick count itself; parsing undoes the bias exactly.
    let mut sheet = Sheet::default();
    sheet.punch_in_at(at(1)).unwrap();
    let bytes = sheet.serialize();
    let raw = u64::from_le_bytes(bytes[0..8].try_into().unwrap());
    assert_ne!(raw, 1);
    assert_eq!(raw, (1i128 + 0x8000_0000_0000_0000i128) as u64);
}
