use rm8::governor::check_burst_rate_violations;
use rm8::governor::new_event_times_map;
use rm8::governor::update_event_times;
use rm8::rm8_ctl::Rm8Control;
use rm8::rm8_types::RelayId;
use rm8::rm8_types::RelayState;

fn board() -> Rm8Control {
    Rm8Control::open(vec![6, 13, 19, 26, 12, 16, 20, 21], true)
}

#[test]
fn stale_relays_are_forced_off() {
    let mut ctl = board();
    let mut times = new_event_times_map(0);
    let forced = check_burst_rate_violations(&mut ctl, &mut times, &5000, 6000);
    assert_eq!(forced.len(), 8);
    assert_eq!(ctl.sent_log().len(), 8);
    assert!(ctl.sent_log().iter().all(|(_, st)| *st == RelayState::Off));
}

#[test]
fn forced_once_per_window() {
    let mut ctl = board();
    let mut times = new_event_times_map(0);
    let first = check_burst_rate_violations(&mut ctl, &mut times, &5000, 6000);
    assert_eq!(first.len(), 8);
    // within one threshold of the reset, nothing is stale again
    let second = check_burst_rate_violations(&mut ctl, &mut times, &5000, 11000);
    assert_eq!(second.len(), 0);
    // once the window has fully passed, relays are forced again
    let third = check_burst_rate_violations(&mut ctl, &mut times, &5000, 11001);
    assert_eq!(third.len(), 8);
}

#[test]
fn exactly_at_threshold_is_not_stale() {
    let mut ctl = board();
    let mut times = new_event_times_map(0);
    // the check fires on strictly greater than the threshold
    let forced = check_burst_rate_violations(&mut ctl, &mut times, &5000, 5000);
    assert_eq!(forced.len(), 0);
}

#[test]
fn refreshed_relays_are_spared() {
    let mut ctl = board();
    let mut times = new_event_times_map(0);
    update_event_times(&mut times, &vec![RelayId::Relay2, RelayId::Relay7], 5500);
    let forced = check_burst_rate_violations(&mut ctl, &mut times, &5000, 6000);
    assert_eq!(forced.len(), 6);
    assert!(!forced.contains(&RelayId::Relay2));
    assert!(!forced.contains(&RelayId::Relay7));
}

#[test]
fn refresh_applies_to_any_commanded_state() {
    // an Off command also counts as confirming traffic
    let mut ctl = board();
    let mut times = new_event_times_map(0);
    update_event_times(&mut times, &vec![RelayId::Relay1], 5999);
    let forced = check_burst_rate_violations(&mut ctl, &mut times, &5000, 6000);
    assert!(!forced.contains(&RelayId::Relay1));
    assert_eq!(forced.len(), 7);
}

#[test]
fn set_all_records_every_relay() {
    let mut ctl = board();
    ctl.set_all(RelayState::Off);
    let log = ctl.sent_log();
    assert_eq!(log.len(), 8);
    assert_eq!(log[0], (RelayId::Relay1, RelayState::Off));
    assert_eq!(log[7], (RelayId::Relay8, RelayState::Off));
}
