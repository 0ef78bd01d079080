use rm8::rm8_types::RelayId;
use rm8::rm8_types::RelayState;
use rm8::shim::fold_relay_states;
use rm8::shim::from_redis;
use rm8::shim::get_as_string;
use rm8::shim::ConvertionError;
use rm8::store_value::StoreValue;

fn raw_fields(pairs: &[(&str, &str)]) -> Vec<(String, StoreValue)> {
    pairs
        .iter()
        .map(|(k, v)| (k.to_string(), StoreValue::Data(v.as_bytes().to_vec())))
        .collect()
}

#[test]
fn from_redis_reads_a_command() {
    let f = raw_fields(&[("relay", "4"), ("state", "Off")]);
    assert_eq!(from_redis("rm8", "1-0", &f).unwrap(), (RelayId::Relay4, RelayState::Off));
}

#[test]
fn from_redis_rejects_unknown_relay() {
    let f = raw_fields(&[("relay", "9"), ("state", "On")]);
    let e = from_redis("rm8", "1-0", &f).unwrap_err();
    assert_eq!(e.message(), "Invalid relay number '9'");
    assert_eq!(e.stream_key(), "rm8");
    assert_eq!(e.entry_id(), "1-0");
}

#[test]
fn from_redis_rejects_unknown_state() {
    let f = raw_fields(&[("relay", "1"), ("state", "on")]);
    let e = from_redis("rm8", "1-0", &f).unwrap_err();
    assert_eq!(e.message(), "Invalid relay state 'on'");
}

#[test]
fn from_redis_reports_missing_field() {
    let f = raw_fields(&[("state", "On")]);
    let e = from_redis("rm8", "1-0", &f).unwrap_err();
    assert_eq!(e.message(), "Field 'relay' is missing");
}

#[test]
fn get_as_string_reports_non_string_value() {
    let f = vec![("relay".to_string(), StoreValue::Int(3))];
    let e = get_as_string("rm8", "1-0", &f, "relay").unwrap_err();
    assert_eq!(e.message(), "Field 'relay' is not a UTF-8 string");
}

#[test]
fn get_as_string_reports_invalid_utf8() {
    let f = vec![("relay".to_string(), StoreValue::Data(vec![0xff, 0xfe]))];
    let e = get_as_string("rm8", "1-0", &f, "relay").unwrap_err();
    assert_eq!(e.message(), "Field 'relay' is not a UTF-8 string");
}

#[test]
fn get_as_string_decodes_utf8() {
    let f = vec![("note".to_string(), StoreValue::Data("Grün".as_bytes().to_vec()))];
    assert_eq!(get_as_string("rm8", "1-0", &f, "note").unwrap(), "Grün");
}

#[test]
fn convertion_error_describes_itself() {
    let e = ConvertionError::new("rcs", "7-3", "boom".to_string());
    assert_eq!(e.describe(), "Failed to convert entry '7-3' of stream 'rcs': boom");
}

#[test]
fn convertion_error_wraps_a_store_error() {
    let source = redis::RedisError::from((redis::ErrorKind::UnexpectedReturnType, "bad value"));
    let e = ConvertionError::from_redis_error("rm8", "2-0", source);
    assert_eq!(e.stream_key(), "rm8");
    assert_eq!(e.entry_id(), "2-0");
    assert!(!e.message().is_empty());
}

#[test]
fn fold_keeps_last_write_and_reports_drops() {
    let entries = vec![
        ("1-0".to_string(), raw_fields(&[("relay", "2"), ("state", "On")])),
        ("1-1".to_string(), raw_fields(&[("relay", "zap"), ("state", "On")])),
        ("2-0".to_string(), raw_fields(&[("relay", "2"), ("state", "Off")])),
    ];
    let (last_id, delta, dropped) = fold_relay_states("rm8", "0-0", &entries);
    assert_eq!(last_id, "2-0");
    let delta = delta.unwrap();
    assert_eq!(delta.get(RelayId::Relay2), Some(RelayState::Off));
    assert_eq!(delta.len(), 1);
    assert_eq!(dropped.len(), 1);
    assert_eq!(dropped[0].entry_id(), "1-1");
    assert_eq!(dropped[0].message(), "Invalid relay number 'zap'");
}

#[test]
fn fold_of_empty_batch_keeps_starting_id() {
    let entries: Vec<(String, Vec<(String, StoreValue)>)> = vec![];
    let (last_id, delta, dropped) = fold_relay_states("rm8", "5-5", &entries);
    assert_eq!(last_id, "5-5");
    assert!(delta.is_none());
    assert!(dropped.is_empty());
}

#[test]
fn fold_with_only_bad_entries_yields_no_delta() {
    let entries = vec![("1-0".to_string(), raw_fields(&[("relay", "x"), ("state", "On")]))];
    let (last_id, delta, dropped) = fold_relay_states("rm8", "0-0", &entries);
    assert_eq!(last_id, "1-0");
    assert!(delta.is_none());
    assert_eq!(dropped.len(), 1);
}
