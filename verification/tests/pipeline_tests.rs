use rm8::entry_id::EntryId;
use rm8::pipeline::commit;
use rm8::pipeline::map_entry;
use rm8::pipeline::reduce;
use rm8::pipeline::start_key;
use rm8::pipeline::state_key;
use rm8::pipeline::Pipeline;
use rm8::pipeline::StreamEntry;
use rm8::rm8_ctl::Rm8Control;
use rm8::rm8_types::RelayId;
use rm8::rm8_types::RelayState;
use rm8::states::RelayStates;

fn board() -> Rm8Control {
    Rm8Control::open(vec![6, 13, 19, 26, 12, 16, 20, 21], true)
}

fn fields(pairs: &[(&str, &str)]) -> Vec<(String, String)> {
    pairs.iter().map(|(k, v)| (k.to_string(), v.to_string())).collect()
}

fn entry(time: u64, seq: u32, pairs: &[(&str, &str)]) -> StreamEntry {
    StreamEntry { id: EntryId::new(time, seq), fields: fields(pairs) }
}

#[test]
fn map_entry_reads_relay_and_state() {
    assert_eq!(
        map_entry(&fields(&[("relay", "3"), ("state", "On")])),
        Some((RelayId::Relay3, RelayState::On))
    );
    assert_eq!(
        map_entry(&fields(&[("state", "Off"), ("relay", "8")])),
        Some((RelayId::Relay8, RelayState::Off))
    );
}

#[test]
fn map_entry_drops_unrecognized_values() {
    assert_eq!(map_entry(&fields(&[("relay", "9"), ("state", "On")])), None);
    assert_eq!(map_entry(&fields(&[("relay", "0"), ("state", "On")])), None);
    assert_eq!(map_entry(&fields(&[("relay", "11"), ("state", "On")])), None);
    assert_eq!(map_entry(&fields(&[("relay", "1"), ("state", "on")])), None);
    assert_eq!(map_entry(&fields(&[("relay", "1"), ("state", "ON")])), None);
    assert_eq!(map_entry(&fields(&[("relay", "1")])), None);
    assert_eq!(map_entry(&fields(&[("state", "On")])), None);
    assert_eq!(map_entry(&fields(&[])), None);
}

#[test]
fn reduce_keeps_last_write() {
    let cmds = vec![
        (RelayId::Relay1, RelayState::On),
        (RelayId::Relay2, RelayState::On),
        (RelayId::Relay1, RelayState::Off),
    ];
    let delta = reduce(&cmds);
    assert_eq!(delta.get(RelayId::Relay1), Some(RelayState::Off));
    assert_eq!(delta.get(RelayId::Relay2), Some(RelayState::On));
    assert_eq!(delta.len(), 2);
}

#[test]
fn warm_commit_sends_only_the_delta() {
    let mut states = RelayStates::new();
    states.set(RelayId::Relay7, RelayState::On);
    let mut ctl = board();
    let mut delta = RelayStates::new();
    delta.set(RelayId::Relay1, RelayState::On);
    commit(&mut states, &mut ctl, false, &delta);
    assert_eq!(ctl.sent_log(), &vec![(RelayId::Relay1, RelayState::On)]);
    assert_eq!(states.get(RelayId::Relay7), Some(RelayState::On));
    assert_eq!(states.get(RelayId::Relay1), Some(RelayState::On));
}

#[test]
fn cold_commit_resends_every_known_address() {
    let mut states = RelayStates::new();
    states.set(RelayId::Relay7, RelayState::On);
    states.set(RelayId::Relay2, RelayState::Off);
    let mut ctl = board();
    let mut delta = RelayStates::new();
    delta.set(RelayId::Relay1, RelayState::On);
    commit(&mut states, &mut ctl, true, &delta);
    // every address in the merged store got a write, not only the delta's
    assert_eq!(
        ctl.sent_log(),
        &vec![
            (RelayId::Relay7, RelayState::On),
            (RelayId::Relay2, RelayState::Off),
            (RelayId::Relay1, RelayState::On),
        ]
    );
}

#[test]
fn step_advances_cursor_past_dropped_entries() {
    let mut p = Pipeline::new(RelayStates::new(), EntryId::new(0, 0), 5000, 0);
    let mut ctl = board();
    let batch = vec![
        entry(100, 0, &[("relay", "1"), ("state", "On")]),
        entry(100, 1, &[("relay", "bogus"), ("state", "On")]),
        entry(101, 0, &[("relay", "2"), ("state", "Off")]),
    ];
    let out = p.step(&mut ctl, 50, &batch);
    // the cursor stands just past the last entry seen, dropped or not
    assert_eq!(out.cursor_text, "101-1");
    assert_eq!(out.dropped, vec![EntryId::new(100, 1)]);
    assert_eq!(out.snapshot, "1:On;2:Off");
}

#[test]
fn step_with_empty_batch_keeps_cursor() {
    let mut p = Pipeline::new(RelayStates::new(), EntryId::new(42, 7), 5000, 0);
    let mut ctl = board();
    let out = p.step(&mut ctl, 50, &vec![]);
    assert_eq!(out.cursor_text, "42-7");
    assert_eq!(out.snapshot, "");
    assert!(out.dropped.is_empty());
}

#[test]
fn first_step_reconciles_all_loaded_state() {
    let loaded = RelayStates::from_snapshot_text("5:On;6:Off").unwrap();
    let mut p = Pipeline::new(loaded, EntryId::new(0, 0), 5000, 0);
    let mut ctl = board();
    let batch = vec![entry(1, 0, &[("relay", "1"), ("state", "On")])];
    p.step(&mut ctl, 50, &batch);
    // cold start: the whole merged store is resent
    assert_eq!(
        ctl.sent_log(),
        &vec![
            (RelayId::Relay5, RelayState::On),
            (RelayId::Relay6, RelayState::Off),
            (RelayId::Relay1, RelayState::On),
        ]
    );
}

#[test]
fn second_step_sends_only_new_commands() {
    let mut p = Pipeline::new(RelayStates::new(), EntryId::new(0, 0), 5000, 0);
    let mut ctl = board();
    p.step(&mut ctl, 10, &vec![entry(1, 0, &[("relay", "1"), ("state", "On")])]);
    ctl.clear_sent();
    p.step(&mut ctl, 20, &vec![entry(2, 0, &[("relay", "2"), ("state", "On")])]);
    assert_eq!(ctl.sent_log(), &vec![(RelayId::Relay2, RelayState::On)]);
}

#[test]
fn replaying_a_batch_yields_identical_states() {
    // a crash after persisting state but before the cursor replays the batch
    let batch = vec![
        entry(5, 0, &[("relay", "3"), ("state", "On")]),
        entry(5, 1, &[("relay", "3"), ("state", "Off")]),
        entry(6, 0, &[("relay", "4"), ("state", "On")]),
    ];
    let mut once = Pipeline::new(RelayStates::new(), EntryId::new(0, 0), 5000, 0);
    let mut ctl1 = board();
    let one = once.step(&mut ctl1, 10, &batch);
    let mut twice = Pipeline::new(RelayStates::new(), EntryId::new(0, 0), 5000, 0);
    let mut ctl2 = board();
    twice.step(&mut ctl2, 10, &batch);
    let two = twice.step(&mut ctl2, 20, &batch);
    assert_eq!(one.snapshot, two.snapshot);
    assert_eq!(one.cursor_text, two.cursor_text);
}

#[test]
fn last_write_wins_within_a_batch() {
    let batch = vec![
        entry(5, 0, &[("relay", "3"), ("state", "On")]),
        entry(5, 1, &[("relay", "3"), ("state", "Off")]),
        entry(6, 0, &[("relay", "3"), ("state", "On")]),
    ];
    let mut p = Pipeline::new(RelayStates::new(), EntryId::new(0, 0), 5000, 0);
    let mut ctl = board();
    let out = p.step(&mut ctl, 10, &batch);
    // the command with the greatest entry id wins
    assert_eq!(out.snapshot, "3:On");
}

#[test]
fn step_ticks_the_governor() {
    let mut p = Pipeline::new(RelayStates::new(), EntryId::new(0, 0), 5000, 0);
    let mut ctl = board();
    // no traffic, and the whole threshold has passed: everything forced off
    p.step(&mut ctl, 6000, &vec![]);
    assert_eq!(ctl.sent_log().len(), 8);
    assert!(ctl.sent_log().iter().all(|(_, st)| *st == RelayState::Off));
}

#[test]
fn step_spares_relays_the_batch_touched() {
    let mut p = Pipeline::new(RelayStates::new(), EntryId::new(0, 0), 5000, 0);
    let mut ctl = board();
    p.step(&mut ctl, 0, &vec![]);
    ctl.clear_sent();
    let batch = vec![entry(1, 0, &[("relay", "1"), ("state", "On")])];
    p.step(&mut ctl, 6000, &batch);
    // the commanded relay was refreshed; the other seven are forced off
    let log = ctl.sent_log();
    assert_eq!(log[0], (RelayId::Relay1, RelayState::On));
    assert_eq!(log.len(), 8);
    assert!(!log[1..].iter().any(|(r, _)| *r == RelayId::Relay1));
    assert!(log[1..].iter().all(|(_, st)| *st == RelayState::Off));
}

#[test]
fn store_keys_derive_from_stream_name() {
    assert_eq!(start_key("rm8"), "rm8_start");
    assert_eq!(state_key("rm8"), "rm8_state");
}
