use rm8::entry_id::EntryId;
use rm8::errors::DecodeError;

#[test]
fn parses_time_and_sequence() {
    let id = EntryId::from_str("1234-5").unwrap();
    assert_eq!(id.time(), 1234);
    assert_eq!(id.sequence(), 5);
    assert_eq!(id, EntryId::new(1234, 5));
}

#[test]
fn parses_zero_id() {
    let id = EntryId::from_str("0-0").unwrap();
    assert_eq!(id, EntryId::new(0, 0));
}

#[test]
fn parses_extreme_values() {
    let id = EntryId::from_str("18446744073709551615-4294967295").unwrap();
    assert_eq!(id.time(), u64::MAX);
    assert_eq!(id.sequence(), u32::MAX);
}

#[test]
fn rejects_missing_dash() {
    assert_eq!(EntryId::from_str("12345").unwrap_err(), DecodeError::IllegalEntryId);
}

#[test]
fn rejects_two_dashes() {
    assert_eq!(EntryId::from_str("12-34-56").unwrap_err(), DecodeError::IllegalEntryId);
}

#[test]
fn rejects_non_numeric_parts() {
    assert_eq!(EntryId::from_str("12a-5").unwrap_err(), DecodeError::IllegalEntryId);
    assert_eq!(EntryId::from_str("12-5b").unwrap_err(), DecodeError::IllegalEntryId);
    assert_eq!(EntryId::from_str("+5-3").unwrap_err(), DecodeError::IllegalEntryId);
}

#[test]
fn rejects_empty_parts() {
    assert_eq!(EntryId::from_str("-5").unwrap_err(), DecodeError::IllegalEntryId);
    assert_eq!(EntryId::from_str("12-").unwrap_err(), DecodeError::IllegalEntryId);
    assert_eq!(EntryId::from_str("-").unwrap_err(), DecodeError::IllegalEntryId);
    assert_eq!(EntryId::from_str("").unwrap_err(), DecodeError::IllegalEntryId);
}

#[test]
fn rejects_out_of_range_numbers() {
    // one past u64::MAX
    assert_eq!(
        EntryId::from_str("18446744073709551616-0").unwrap_err(),
        DecodeError::IllegalEntryId
    );
    // one past u32::MAX
    assert_eq!(EntryId::from_str("0-4294967296").unwrap_err(), DecodeError::IllegalEntryId);
}

#[test]
fn next_increments_sequence_only() {
    let id = EntryId::new(1234, 5);
    let n = id.next();
    assert_eq!(n.time(), 1234);
    assert_eq!(n.sequence(), 6);
}

#[test]
fn text_round_trip() {
    let id = EntryId::new(1234, 5);
    let text = id.to_text();
    assert_eq!(text, "1234-5");
    assert_eq!(EntryId::from_str(&text).unwrap(), id);
}

#[test]
fn text_round_trip_extremes() {
    for id in [
        EntryId::new(0, 0),
        EntryId::new(u64::MAX, u32::MAX),
        EntryId::new(10, 0),
        EntryId::new(1000000, 999),
    ] {
        assert_eq!(EntryId::from_str(&id.to_text()).unwrap(), id);
    }
}
