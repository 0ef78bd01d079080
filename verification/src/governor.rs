//! The staleness governor: a dead-man's switch per relay.
//!
//! Each relay carries the instant it last received a confirming command.
//! On every pipeline iteration, a relay untouched for longer than the
//! configured threshold is forced off and its timer reset, so a stalled
//! log or a missed turn-off cannot leave a relay energized.
//!
//! The check is named after the "burst rate" wording it ships under, but
//! it triggers on too little recent traffic, not too much; that behavior
//! is kept exactly.

use vstd::prelude::*;
use crate::rm8_ctl::Rm8Control;
use crate::rm8_types::relay_at;
use crate::rm8_types::spec_relay_at;
use crate::rm8_types::RelayId;
use crate::rm8_types::RelayState;

verus! {

/// Last-touched instants, milliseconds on the caller's clock, one per
/// relay in board order. Transient: never persisted, reseeded on startup.
pub struct EventTimes {
    times: Vec<u64>,
}

impl View for EventTimes {
    type V = Seq<u64>;

    closed spec fn view(&self) -> Seq<u64> {
        self.times@
    }
}

/// A timer is stale when more than `burst_rate` has passed since it.
pub open spec fn spec_stale(times: Seq<u64>, burst_rate: u64, now: u64, i: int) -> bool {
    now - times[i] > burst_rate
}

/// The timers after one governor tick: stale ones reset to `now`, the
/// rest untouched.
pub open spec fn spec_tick_times(times: Seq<u64>, burst_rate: u64, now: u64) -> Seq<u64> {
    Seq::new(
        times.len(),
        |i: int|
            if spec_stale(times, burst_rate, now, i) {
                now
            } else {
                times[i]
            },
    )
}

/// The relays a tick forces off: the stale ones, in board order, up to
/// position `k`.
pub open spec fn spec_forced_upto(times: Seq<u64>, burst_rate: u64, now: u64, k: int) -> Seq<
    RelayId,
>
    decreases k,
{
    if k <= 0 {
        Seq::<RelayId>::empty()
    } else {
        spec_forced_upto(times, burst_rate, now, k - 1) + if spec_stale(
            times,
            burst_rate,
            now,
            k - 1,
        ) {
            seq![spec_relay_at(k - 1)]
        } else {
            Seq::<RelayId>::empty()
        }
    }
}

/// All the relays one tick forces off.
pub open spec fn spec_forced(times: Seq<u64>, burst_rate: u64, now: u64) -> Seq<RelayId> {
    spec_forced_upto(times, burst_rate, now, 8)
}

/// The hardware writes of one tick: each forced relay driven off.
pub open spec fn spec_forced_sends(times: Seq<u64>, burst_rate: u64, now: u64) -> Seq<
    (RelayId, RelayState),
> {
    spec_forced(times, burst_rate, now).map_values(|r: RelayId| (r, RelayState::Off))
}

/// The timers after the batch's delta refreshes them: every relay the
/// batch touched is stamped `now`, whatever state it was commanded to.
pub open spec fn spec_refreshed(times: Seq<u64>, keys: Seq<RelayId>, now: u64) -> Seq<u64> {
    Seq::new(
        times.len(),
        |i: int|
            if exists|k: int| 0 <= k < keys.len() && (#[trigger] keys[k]).spec_position() == i {
                now
            } else {
                times[i]
            },
    )
}

/// Seeds every known relay's timer with the process-start instant.
pub fn new_event_times_map(now: u64) -> (r: EventTimes)
    ensures
        r@ =~= Seq::new(8, |i: int| now),
{
    let mut times: Vec<u64> = Vec::new();
    for k in 0..8usize
        invariant
            times@.len() == k,
            forall|i: int| 0 <= i < k ==> times@[i] == now,
    {
        times.push(now);
    }
    EventTimes { times }
}

impl EventTimes {
    /// Always one timer per relay.
    pub open spec fn wf(&self) -> bool {
        self@.len() == 8
    }

    /// No timer lies in the caller's future.
    pub open spec fn le_now(&self, now: u64) -> bool {
        forall|i: int| 0 <= i < self@.len() ==> #[trigger] self@[i] <= now
    }

    pub fn time_of(&self, r: &RelayId) -> (t: u64)
        requires
            self.wf(),
        ensures
            t == self@[r.spec_position()],
    {
        self.times[r.position()]
    }
}

/// Refreshes the timer of every relay in the batch's delta to `now`,
/// whatever state it was commanded to.
pub fn update_event_times(event_times: &mut EventTimes, event_triggers: &Vec<RelayId>, now: u64)
    requires
        old(event_times).wf(),
    ensures
        final(event_times).wf(),
        final(event_times)@.len() == old(event_times)@.len(),
        forall|i: int|
            0 <= i < old(event_times)@.len() ==> final(event_times)@[i] == (
            if (exists|k: int|
                0 <= k < event_triggers@.len() && (#[trigger] event_triggers@[k]).spec_position()
                    == i) {
                now
            } else {
                old(event_times)@[i]
            }),
{
    let ghost t0 = event_times@;
    let n = event_triggers.len();
    for j in 0..n
        invariant
            n == event_triggers@.len(),
            event_times@.len() == t0.len(),
            t0.len() == 8,
            forall|i: int|
                0 <= i < t0.len() ==> event_times@[i] == (if (exists|k: int|
                    0 <= k < j && (#[trigger] event_triggers@[k]).spec_position() == i) {
                    now
                } else {
                    t0[i]
                }),
    {
        let r = event_triggers[j];
        let pos = r.position();
        write_timer(event_times, pos, now);
        proof {
            assert forall|i: int| 0 <= i < t0.len() implies event_times@[i] == (if (exists|k: int|
                0 <= k < j + 1 && (#[trigger] event_triggers@[k]).spec_position() == i) {
                now
            } else {
                t0[i]
            }) by {
                if i == r.spec_position() {
                    assert(event_triggers@[j as int].spec_position() == i);
                } else {
                    if exists|k: int|
                        0 <= k < j + 1 && (#[trigger] event_triggers@[k]).spec_position() == i {
                        let k = choose|k: int|
                            0 <= k < j + 1 && (#[trigger] event_triggers@[k]).spec_position() == i;
                        assert(0 <= k < j && event_triggers@[k].spec_position() == i);
                    }
                }
            }
        }
    }
}

/// One timer write, kept out of line so the callers' invariants stay small.
fn write_timer(event_times: &mut EventTimes, pos: usize, now: u64)
    requires
        pos < old(event_times)@.len(),
    ensures
        final(event_times)@ == old(event_times)@.update(pos as int, now),
{
    event_times.times.set(pos, now);
}

/// One governor tick: every relay whose timer is older than the threshold
/// is driven off, once, and its timer reset to `now`; fresh relays and
/// their timers are untouched.
pub fn check_burst_rate_violations(
    rm8_ctl: &mut Rm8Control,
    event_times: &mut EventTimes,
    burst_rate: &u64,
    now: u64,
) -> (forced: Vec<RelayId>)
    requires
        old(event_times).wf(),
        old(event_times).le_now(now),
    ensures
        final(event_times).wf(),
        forced@ == spec_forced(old(event_times)@, *burst_rate, now),
        final(rm8_ctl)@ == old(rm8_ctl)@ + spec_forced_sends(old(event_times)@, *burst_rate, now),
        final(event_times)@ == spec_tick_times(old(event_times)@, *burst_rate, now),
        final(event_times).le_now(now),
{
    let ghost t0 = event_times@;
    let mut bursted: Vec<RelayId> = Vec::new();
    for i in 0..8usize
        invariant
            event_times@ == t0,
            t0.len() == 8,
            forall|k: int| 0 <= k < t0.len() ==> #[trigger] t0[k] <= now,
            bursted@ == spec_forced_upto(t0, *burst_rate, now, i as int),
    {
        let t = event_times.times[i];
        if now - t > *burst_rate {
            bursted.push(relay_at(i));
            proof {
                assert(bursted@ =~= spec_forced_upto(t0, *burst_rate, now, i + 1));
            }
        } else {
            proof {
                assert(bursted@ =~= spec_forced_upto(t0, *burst_rate, now, i + 1));
            }
        }
    }
    let ghost c0 = rm8_ctl@;
    let m = bursted.len();
    for j in 0..m
        invariant
            m == bursted@.len(),
            rm8_ctl@ == c0 + bursted@.subrange(0, j as int).map_values(
                |r: RelayId| (r, RelayState::Off),
            ),
    {
        let r = bursted[j];
        rm8_ctl.set(&r, RelayState::Off);
        proof {
            assert(rm8_ctl@ =~= c0 + bursted@.subrange(0, j + 1).map_values(
                |r: RelayId| (r, RelayState::Off),
            ));
        }
    }
    proof {
        assert(bursted@.subrange(0, m as int) =~= bursted@);
        assert(rm8_ctl@ =~= c0 + spec_forced_sends(t0, *burst_rate, now));
    }
    let k = bursted.len();
    for j in 0..k
        invariant
            k == bursted@.len(),
            bursted@ == spec_forced(t0, *burst_rate, now),
            event_times@.len() == 8,
            t0.len() == 8,
            forall|i: int|
                0 <= i < 8 ==> event_times@[i] == (if (exists|q: int|
                    0 <= q < j && (#[trigger] bursted@[q]).spec_position() == i) {
                    now
                } else {
                    t0[i]
                }),
    {
        let r = bursted[j];
        let pos = r.position();
        write_timer(event_times, pos, now);
        proof {
            assert forall|i: int| 0 <= i < 8 implies event_times@[i] == (if (exists|q: int|
                0 <= q < j + 1 && (#[trigger] bursted@[q]).spec_position() == i) {
                now
            } else {
                t0[i]
            }) by {
                if i == r.spec_position() {
                    assert(bursted@[j as int].spec_position() == i);
                } else {
                    if exists|q: int|
                        0 <= q < j + 1 && (#[trigger] bursted@[q]).spec_position() == i {
                        let q = choose|q: int|
                            0 <= q < j + 1 && (#[trigger] bursted@[q]).spec_position() == i;
                        assert(0 <= q < j && bursted@[q].spec_position() == i);
                    }
                }
            }
        }
    }
    proof {
        assert forall|i: int| 0 <= i < 8 implies event_times@[i] == spec_tick_times(
            t0,
            *burst_rate,
            now,
        )[i] by {
            lemma_forced_positions(t0, *burst_rate, now, 8, i);
        }
        assert(event_times@ =~= spec_tick_times(t0, *burst_rate, now));
    }
    bursted
}

/// A relay stands in the forced list exactly when its timer is stale.
proof fn lemma_forced_positions(times: Seq<u64>, burst_rate: u64, now: u64, k: int, i: int)
    requires
        times.len() == 8,
        0 <= k <= 8,
        0 <= i < 8,
    ensures
        (exists|q: int|
            0 <= q < spec_forced_upto(times, burst_rate, now, k).len() && (
            #[trigger] spec_forced_upto(times, burst_rate, now, k)[q]).spec_position() == i) <==> (
        i < k && spec_stale(times, burst_rate, now, i)),
    decreases k,
{
    if k > 0 {
        lemma_forced_positions(times, burst_rate, now, k - 1, i);
        let prev = spec_forced_upto(times, burst_rate, now, k - 1);
        let cur = spec_forced_upto(times, burst_rate, now, k);
        crate::rm8_types::lemma_relay_position_round_trip(spec_relay_at(k - 1), i);
        crate::rm8_types::lemma_relay_position_round_trip(spec_relay_at(k - 1), k - 1);
        if spec_stale(times, burst_rate, now, k - 1) {
            assert(cur =~= prev.push(spec_relay_at(k - 1)));
            if i == k - 1 {
                assert(cur[cur.len() - 1].spec_position() == i);
            } else {
                if exists|q: int| 0 <= q < cur.len() && (#[trigger] cur[q]).spec_position() == i {
                    let q = choose|q: int|
                        0 <= q < cur.len() && (#[trigger] cur[q]).spec_position() == i;
                    if q < prev.len() {
                        assert(prev[q].spec_position() == i);
                    }
                }
                if exists|q: int| 0 <= q < prev.len() && (#[trigger] prev[q]).spec_position()
                    == i {
                    let q = choose|q: int|
                        0 <= q < prev.len() && (#[trigger] prev[q]).spec_position() == i;
                    assert(cur[q].spec_position() == i);
                }
            }
        } else {
            assert(cur =~= prev);
            if exists|q: int| 0 <= q < cur.len() && (#[trigger] cur[q]).spec_position() == i {
                let q = choose|q: int|
                    0 <= q < cur.len() && (#[trigger] cur[q]).spec_position() == i;
                assert(prev[q].spec_position() == i);
            }
            if exists|q: int| 0 <= q < prev.len() && (#[trigger] prev[q]).spec_position() == i {
                let q = choose|q: int|
                    0 <= q < prev.len() && (#[trigger] prev[q]).spec_position() == i;
                assert(cur[q].spec_position() == i);
            }
        }
    }
}

/// The governor is a dead-man's switch that fires once per window: a tick
/// at `now1` forces a stale relay off and resets its timer to `now1`
/// immediately, so a second tick within the threshold window does not
/// force it again.
pub proof fn lemma_forced_once_per_window(
    times: Seq<u64>,
    burst_rate: u64,
    now1: u64,
    now2: u64,
    i: int,
)
    requires
        0 <= i < times.len(),
        times[i] <= now1 <= now2,
        spec_stale(times, burst_rate, now1, i),
        now2 - now1 <= burst_rate,
    ensures
        spec_tick_times(times, burst_rate, now1)[i] == now1,
        !spec_stale(spec_tick_times(times, burst_rate, now1), burst_rate, now2, i),
{
}

} // verus!
