use rm8::rcs::get_code_word;
use rm8::rcs::send_tri_state;
use rm8::rcs::Pulse;
use rm8::rcs::RemoteControl;
use rm8::rcs::Switch;
use rm8::rcs::SwitchCode;
use rm8::rcs::SwitchState;

#[test]
fn code_word_for_known_inputs() {
    let system = [true, false, false, false, false];
    let w = get_code_word(&system, &SwitchCode::SwitchB, &SwitchState::On);
    assert_eq!(w, b"0FFFFF0FFF0F".to_vec());
}

#[test]
fn code_word_is_deterministic() {
    let system = [true, false, false, false, false];
    let first = get_code_word(&system, &SwitchCode::SwitchB, &SwitchState::On);
    let second = get_code_word(&system, &SwitchCode::SwitchB, &SwitchState::On);
    assert_eq!(first, second);
}

#[test]
fn code_word_off_swaps_state_symbols() {
    let system = [false, true, false, true, false];
    let w = get_code_word(&system, &SwitchCode::SwitchE, &SwitchState::Off);
    assert_eq!(w, b"F0F0FFFFF0F0".to_vec());
}

#[test]
fn tri_state_pulses_shape() {
    let system = [true, false, false, false, false];
    let w = get_code_word(&system, &SwitchCode::SwitchA, &SwitchState::On);
    let mut pulses: Vec<Pulse> = Vec::new();
    send_tri_state(&mut pulses, &w);
    // 12 symbols at two pulse pairs each, plus one sync pair, ten times over
    assert_eq!(pulses.len(), 10 * (12 * 2 + 1));
    // the first symbol is '0': two short-long pairs
    assert_eq!(pulses[0], Pulse { high_units: 1, low_units: 3 });
    assert_eq!(pulses[1], Pulse { high_units: 1, low_units: 3 });
    // the second symbol is 'F': short-long then long-short
    assert_eq!(pulses[2], Pulse { high_units: 1, low_units: 3 });
    assert_eq!(pulses[3], Pulse { high_units: 3, low_units: 1 });
    // each pass ends with the sync trailer
    assert_eq!(pulses[24], Pulse { high_units: 1, low_units: 31 });
    // passes repeat identically
    assert_eq!(pulses[25], pulses[0]);
}

#[test]
fn unknown_symbols_transmit_nothing() {
    let mut pulses: Vec<Pulse> = Vec::new();
    send_tri_state(&mut pulses, &b"xy".to_vec());
    // ten sync trailers only
    assert_eq!(pulses.len(), 10);
    assert!(pulses.iter().all(|p| *p == Pulse { high_units: 1, low_units: 31 }));
}

#[test]
fn remote_control_records_pulse_train() {
    let mut rc = RemoteControl::open(17);
    assert_eq!(rc.pin(), 17);
    assert!(rc.pulse_log().is_empty());
    let switch = Switch::new(&[true, true, false, false, false], SwitchCode::SwitchC);
    rc.send(&switch, SwitchState::Off);
    assert_eq!(rc.pulse_log().len(), 250);
    rc.clear_pulses();
    assert!(rc.pulse_log().is_empty());
}

#[test]
fn rm8_code_word_selects_among_eight() {
    let w = rm8::rm8::get_code_word(&rm8::rm8::Relay::Relay3, &rm8::rm8::RelayState::On);
    assert_eq!(w, b"FF0FFFFF0F".to_vec());
}

#[test]
fn rm8_remote_control_drives_levels() {
    let mut rc = rm8::rm8::RemoteControl::open(4);
    rc.send(&rm8::rm8::Relay::Relay1, rm8::rm8::RelayState::On);
    rc.send(&rm8::rm8::Relay::Relay1, rm8::rm8::RelayState::Off);
    assert_eq!(rc.level_log(), &vec![true, false]);
    rc.clear_levels();
    assert!(rc.level_log().is_empty());
}
