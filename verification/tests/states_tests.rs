use rm8::errors::DecodeError;
use rm8::rm8_types::RelayId;
use rm8::rm8_types::RelayState;
use rm8::states::RelayStates;

#[test]
fn empty_store_has_no_entries() {
    let s = RelayStates::new();
    assert!(s.is_empty());
    assert_eq!(s.get(RelayId::Relay1), None);
}

#[test]
fn set_then_get() {
    let mut s = RelayStates::new();
    s.set(RelayId::Relay3, RelayState::On);
    assert_eq!(s.get(RelayId::Relay3), Some(RelayState::On));
    assert_eq!(s.get(RelayId::Relay4), None);
}

#[test]
fn repeated_set_updates_in_place() {
    let mut s = RelayStates::new();
    s.set(RelayId::Relay1, RelayState::On);
    s.set(RelayId::Relay2, RelayState::On);
    s.set(RelayId::Relay1, RelayState::Off);
    assert_eq!(s.len(), 2);
    assert_eq!(s.get(RelayId::Relay1), Some(RelayState::Off));
    // insertion order is stable: Relay1 still first
    assert_eq!(s.entry_at(0), (RelayId::Relay1, RelayState::Off));
    assert_eq!(s.entry_at(1), (RelayId::Relay2, RelayState::On));
}

#[test]
fn merge_later_writes_win() {
    let mut delta = RelayStates::new();
    delta.set(RelayId::Relay5, RelayState::On);
    delta.set(RelayId::Relay5, RelayState::Off);
    let mut s = RelayStates::new();
    s.merge(&delta);
    assert_eq!(s.get(RelayId::Relay5), Some(RelayState::Off));
}

#[test]
fn merge_twice_is_idempotent() {
    let mut delta = RelayStates::new();
    delta.set(RelayId::Relay1, RelayState::On);
    delta.set(RelayId::Relay2, RelayState::Off);
    let mut once = RelayStates::new();
    once.set(RelayId::Relay2, RelayState::On);
    once.set(RelayId::Relay7, RelayState::On);
    let mut twice = once.clone();
    once.merge(&delta);
    twice.merge(&delta);
    twice.merge(&delta);
    assert_eq!(once, twice);
}

#[test]
fn snapshot_round_trip() {
    let mut s = RelayStates::new();
    s.set(RelayId::Relay3, RelayState::On);
    s.set(RelayId::Relay1, RelayState::Off);
    s.set(RelayId::Relay8, RelayState::On);
    let text = s.to_snapshot_text();
    assert_eq!(text, "3:On;1:Off;8:On");
    let loaded = RelayStates::from_snapshot_text(&text).unwrap();
    assert_eq!(loaded, s);
}

#[test]
fn snapshot_of_empty_store_is_empty_text() {
    let s = RelayStates::new();
    let text = s.to_snapshot_text();
    assert_eq!(text, "");
    let loaded = RelayStates::from_snapshot_text(&text).unwrap();
    assert!(loaded.is_empty());
}

#[test]
fn snapshot_rejects_garbage() {
    for bad in ["9:On", "1:Onn", "1=On", ";", "1:O", "x", "1:on", "1:On;;2:Off"] {
        assert_eq!(
            RelayStates::from_snapshot_text(bad).unwrap_err(),
            DecodeError::IllegalSnapshot,
            "input {:?} should be rejected",
            bad
        );
    }
}

#[test]
fn snapshot_rejects_duplicate_relay() {
    assert_eq!(
        RelayStates::from_snapshot_text("1:On;1:Off").unwrap_err(),
        DecodeError::IllegalSnapshot
    );
}

#[test]
fn snapshot_tolerates_one_trailing_separator() {
    let loaded = RelayStates::from_snapshot_text("1:On;").unwrap();
    assert_eq!(loaded.get(RelayId::Relay1), Some(RelayState::On));
    assert_eq!(loaded.len(), 1);
}

#[test]
fn snapshot_accepts_single_entries() {
    let on = RelayStates::from_snapshot_text("4:On").unwrap();
    assert_eq!(on.get(RelayId::Relay4), Some(RelayState::On));
    let off = RelayStates::from_snapshot_text("4:Off").unwrap();
    assert_eq!(off.get(RelayId::Relay4), Some(RelayState::Off));
}
