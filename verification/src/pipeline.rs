//! The stream cursor pipeline.
//!
//! Turns a batch of command-log entries into reconciled hardware state:
//! map each entry to a typed command (dropping malformed ones), reduce the
//! batch last-write-wins into a delta, commit the delta (merge into the
//! store and drive the transmitter, everything on cold start), tick the
//! staleness governor, and advance the cursor past every entry seen.

use vstd::prelude::*;
use vstd::string::StrSliceExecFns;
use vstd::string::StringExecFns;
use crate::entry_id::spec_entry_text;
use crate::entry_id::EntryId;
use crate::governor::check_burst_rate_violations;
use crate::governor::spec_forced_sends;
use crate::governor::spec_tick_times;
use crate::governor::update_event_times;
use crate::governor::EventTimes;
use crate::rm8_ctl::Rm8Control;
use crate::rm8_types::RelayId;
use crate::rm8_types::RelayState;
use crate::snapshot::snapshot_chars;
use crate::states::contains_key;
use crate::states::spec_lookup;
use crate::states::spec_merge;
use crate::states::RelayStates;

verus! {

broadcast use vstd::string::group_string_axioms;

/// One entry as the log delivers it: an id and a field map.
pub struct StreamEntry {
    pub id: EntryId,
    pub fields: Vec<(String, String)>,
}

/// The value under the first field of that name, if any.
pub open spec fn spec_field(fields: Seq<(String, String)>, name: Seq<char>) -> Option<Seq<char>>
    decreases fields.len(),
{
    if fields.len() == 0 {
        None
    } else if fields[0].0@ == name {
        Some(fields[0].1@)
    } else {
        spec_field(fields.drop_first(), name)
    }
}

/// A relay named by a single decimal digit `'1'` through `'8'`.
pub open spec fn spec_relay_of_text(t: Seq<char>) -> Option<RelayId> {
    if t.len() == 1 {
        RelayId::spec_of_digit(t[0])
    } else {
        None
    }
}

/// A state written exactly `"On"` or `"Off"`.
pub open spec fn spec_state_of_text(t: Seq<char>) -> Option<RelayState> {
    if t == "On"@ {
        Some(RelayState::On)
    } else if t == "Off"@ {
        Some(RelayState::Off)
    } else {
        None
    }
}

/// The typed command an entry's field map carries: the `"relay"` and
/// `"state"` fields, both present and recognized, else nothing.
pub open spec fn spec_map_entry(fields: Seq<(String, String)>) -> Option<(RelayId, RelayState)> {
    match (spec_field(fields, "relay"@), spec_field(fields, "state"@)) {
        (Some(relay_txt), Some(state_txt)) => match (
            spec_relay_of_text(relay_txt),
            spec_state_of_text(state_txt),
        ) {
            (Some(r), Some(st)) => Some((r, st)),
            _ => None,
        },
        _ => None,
    }
}

/// The commands of a batch, in delivered order, malformed entries dropped.
pub open spec fn spec_mapped(entries: Seq<StreamEntry>) -> Seq<(RelayId, RelayState)>
    decreases entries.len(),
{
    if entries.len() == 0 {
        Seq::<(RelayId, RelayState)>::empty()
    } else {
        (match spec_map_entry(entries[0].fields@) {
            Some(c) => seq![c],
            None => Seq::<(RelayId, RelayState)>::empty(),
        }) + spec_mapped(entries.drop_first())
    }
}

/// The ids of the entries a batch drops.
pub open spec fn spec_dropped(entries: Seq<StreamEntry>) -> Seq<EntryId>
    decreases entries.len(),
{
    if entries.len() == 0 {
        Seq::<EntryId>::empty()
    } else {
        (match spec_map_entry(entries[0].fields@) {
            Some(c) => Seq::<EntryId>::empty(),
            None => seq![entries[0].id],
        }) + spec_dropped(entries.drop_first())
    }
}

/// Where the cursor stands after a batch: just past the last entry seen,
/// dropped or not; unchanged by an empty batch.
pub open spec fn spec_new_cursor(cursor: EntryId, entries: Seq<StreamEntry>) -> EntryId {
    if entries.len() == 0 {
        cursor
    } else {
        entries.last().id.spec_next()
    }
}

/// The batch delta: the mapped commands folded last-write-wins into an
/// empty store.
pub open spec fn spec_delta(entries: Seq<StreamEntry>) -> Seq<(RelayId, RelayState)> {
    spec_merge(Seq::<(RelayId, RelayState)>::empty(), spec_mapped(entries))
}

proof fn lemma_field_at_first(fields: Seq<(String, String)>, name: Seq<char>, i: int)
    requires
        0 <= i < fields.len(),
        fields[i].0@ == name,
        forall|j: int| 0 <= j < i ==> (#[trigger] fields[j]).0@ != name,
    ensures
        spec_field(fields, name) == Some(fields[i].1@),
    decreases i,
{
    if i > 0 {
        assert(fields.drop_first()[i - 1] == fields[i]);
        assert forall|j: int| 0 <= j < i - 1 implies (#[trigger] fields.drop_first()[j]).0@
            != name by {
            assert(fields.drop_first()[j] == fields[j + 1]);
        }
        lemma_field_at_first(fields.drop_first(), name, i - 1);
    }
}

proof fn lemma_field_absent(fields: Seq<(String, String)>, name: Seq<char>)
    requires
        forall|j: int| 0 <= j < fields.len() ==> (#[trigger] fields[j]).0@ != name,
    ensures
        spec_field(fields, name) is None,
    decreases fields.len(),
{
    if fields.len() > 0 {
        assert forall|j: int| 0 <= j < fields.drop_first().len() implies (
        #[trigger] fields.drop_first()[j]).0@ != name by {
            assert(fields.drop_first()[j] == fields[j + 1]);
        }
        lemma_field_absent(fields.drop_first(), name);
    }
}

/// The first field of the given name.
fn field_of<'a>(fields: &'a Vec<(String, String)>, name: &String) -> (r: Option<&'a String>)
    ensures
        match r {
            Some(v) => spec_field(fields@, name@) == Some(v@),
            None => spec_field(fields@, name@) is None,
        },
{
    let n = fields.len();
    for i in 0..n
        invariant
            n == fields@.len(),
            forall|j: int| 0 <= j < i ==> (#[trigger] fields@[j]).0@ != name@,
    {
        if fields[i].0 == *name {
            proof {
                lemma_field_at_first(fields@, name@, i as int);
            }
            return Some(&fields[i].1);
        }
    }
    proof {
        lemma_field_absent(fields@, name@);
    }
    None
}

/// Extracts the typed command from an entry's field map. A missing or
/// unrecognized value yields nothing: the entry is dropped, never an
/// error.
pub fn map_entry(fields: &Vec<(String, String)>) -> (r: Option<(RelayId, RelayState)>)
    ensures
        r == spec_map_entry(fields@),
{
    let relay_key = String::from_str("relay");
    let state_key = String::from_str("state");
    let relay_txt = match field_of(fields, &relay_key) {
        Some(v) => v,
        None => {
            return None;
        },
    };
    let state_txt = match field_of(fields, &state_key) {
        Some(v) => v,
        None => {
            return None;
        },
    };
    let relay = {
        let s = relay_txt.as_str();
        if s.unicode_len() != 1 {
            return None;
        }
        match RelayId::of_digit(s.get_char(0)) {
            Some(r) => r,
            None => {
                return None;
            },
        }
    };
    let on = String::from_str("On");
    let off = String::from_str("Off");
    let state = if *state_txt == on {
        RelayState::On
    } else if *state_txt == off {
        RelayState::Off
    } else {
        return None;
    };
    Some((relay, state))
}

/// Reduces a batch of commands into its delta: later commands override
/// earlier ones for the same relay.
pub fn reduce(commands: &Vec<(RelayId, RelayState)>) -> (delta: RelayStates)
    ensures
        delta@ == spec_merge(Seq::<(RelayId, RelayState)>::empty(), commands@),
        delta.wf(),
{
    let mut delta = RelayStates::new();
    let ghost s0 = delta@;
    let n = commands.len();
    for i in 0..n
        invariant
            n == commands@.len(),
            delta@ == spec_merge(s0, commands@.subrange(0, i as int)),
            s0 =~= Seq::<(RelayId, RelayState)>::empty(),
            delta.wf(),
    {
        let c = commands[i];
        delta.set(c.0, c.1);
        proof {
            crate::states::lemma_merge_snoc(s0, commands@.subrange(0, i as int), c);
            assert(commands@.subrange(0, i + 1) =~= commands@.subrange(0, i as int).push(c));
            crate::states::lemma_merge_preserves_unique(s0, commands@.subrange(0, i + 1));
        }
    }
    proof {
        assert(commands@.subrange(0, n as int) =~= commands@);
    }
    delta
}

/// Drives every pair of a store out to the board, in insertion order.
pub fn set_states(rm8_ctl: &mut Rm8Control, relay_states: &RelayStates)
    ensures
        final(rm8_ctl)@ == old(rm8_ctl)@ + relay_states@,
{
    let ghost c0 = rm8_ctl@;
    let n = relay_states.len();
    for i in 0..n
        invariant
            n == relay_states@.len(),
            rm8_ctl@ == c0 + relay_states@.subrange(0, i as int),
    {
        let p = relay_states.entry_at(i);
        rm8_ctl.set(&p.0, p.1);
        proof {
            assert(rm8_ctl@ =~= c0 + relay_states@.subrange(0, i + 1));
        }
    }
    proof {
        assert(relay_states@.subrange(0, n as int) =~= relay_states@);
    }
}

/// Commits a delta: merge it into the store, then drive the transmitter.
/// On the first batch after process start every address in the store is
/// resent, reconciling hardware whose state is unknown; afterwards only
/// the delta's addresses are sent.
pub fn commit(
    states: &mut RelayStates,
    rm8_ctl: &mut Rm8Control,
    cold_start: bool,
    delta: &RelayStates,
)
    requires
        old(states).wf(),
    ensures
        final(states)@ == spec_merge(old(states)@, delta@),
        final(states).wf(),
        final(rm8_ctl)@ == old(rm8_ctl)@ + (if cold_start {
            final(states)@
        } else {
            delta@
        }),
{
    states.merge(delta);
    if cold_start {
        set_states(rm8_ctl, states);
    } else {
        set_states(rm8_ctl, delta);
    }
}

/// The store key the cursor is persisted under.
pub fn start_key(stream_name: &str) -> (r: String)
    ensures
        r@ == stream_name@ + "_start"@,
{
    String::from_str(stream_name).concat("_start")
}

/// The store key the serialized store is persisted under.
pub fn state_key(stream_name: &str) -> (r: String)
    ensures
        r@ == stream_name@ + "_state"@,
{
    String::from_str(stream_name).concat("_state")
}

/// The keys the batch's delta touches, in delta order.
pub open spec fn spec_delta_keys(entries: Seq<StreamEntry>) -> Seq<RelayId> {
    spec_delta(entries).map_values(|p: (RelayId, RelayState)| p.0)
}

/// What commit drives out: the whole merged store on cold start, only the
/// delta afterwards.
pub open spec fn spec_commit_sends(
    states0: Seq<(RelayId, RelayState)>,
    entries: Seq<StreamEntry>,
    cold_start: bool,
) -> Seq<(RelayId, RelayState)> {
    if cold_start {
        spec_merge(states0, spec_delta(entries))
    } else {
        spec_delta(entries)
    }
}

/// The timers after one full step: refreshed by the delta, then ticked by
/// the governor.
pub open spec fn spec_step_times(
    times0: Seq<u64>,
    entries: Seq<StreamEntry>,
    burst_rate: u64,
    now: u64,
) -> Seq<u64> {
    spec_tick_times(
        crate::governor::spec_refreshed(times0, spec_delta_keys(entries), now),
        burst_rate,
        now,
    )
}

/// Every hardware write of one full step, in order: the commit's writes,
/// then the governor's forced-off writes.
pub open spec fn spec_step_sends(
    states0: Seq<(RelayId, RelayState)>,
    times0: Seq<u64>,
    entries: Seq<StreamEntry>,
    cold_start: bool,
    burst_rate: u64,
    now: u64,
) -> Seq<(RelayId, RelayState)> {
    spec_commit_sends(states0, entries, cold_start) + spec_forced_sends(
        crate::governor::spec_refreshed(times0, spec_delta_keys(entries), now),
        burst_rate,
        now,
    )
}

proof fn lemma_mapped_snoc(s: Seq<StreamEntry>, e: StreamEntry)
    ensures
        spec_mapped(s.push(e)) =~= spec_mapped(s) + (match spec_map_entry(e.fields@) {
            Some(c) => seq![c],
            None => Seq::<(RelayId, RelayState)>::empty(),
        }),
    decreases s.len(),
{
    let tail = (match spec_map_entry(e.fields@) {
        Some(c) => seq![c],
        None => Seq::<(RelayId, RelayState)>::empty(),
    });
    if s.len() == 0 {
        assert(s.push(e)[0] == e);
        assert(s.push(e).drop_first() =~= Seq::<StreamEntry>::empty());
        assert(spec_mapped(s.push(e)) == tail + spec_mapped(Seq::<StreamEntry>::empty()));
        assert(spec_mapped(Seq::<StreamEntry>::empty()) =~= Seq::<(RelayId, RelayState)>::empty());
        assert(spec_mapped(s) =~= Seq::<(RelayId, RelayState)>::empty());
        assert(spec_mapped(s.push(e)) =~= spec_mapped(s) + tail);
    } else {
        let head = (match spec_map_entry(s[0].fields@) {
            Some(c) => seq![c],
            None => Seq::<(RelayId, RelayState)>::empty(),
        });
        assert(s.push(e)[0] == s[0]);
        assert(s.push(e).drop_first() =~= s.drop_first().push(e));
        lemma_mapped_snoc(s.drop_first(), e);
        assert(spec_mapped(s.push(e)) == head + spec_mapped(s.drop_first().push(e)));
        assert(spec_mapped(s) == head + spec_mapped(s.drop_first()));
        assert(spec_mapped(s.push(e)) =~= spec_mapped(s) + tail);
    }
}

proof fn lemma_dropped_snoc(s: Seq<StreamEntry>, e: StreamEntry)
    ensures
        spec_dropped(s.push(e)) =~= spec_dropped(s) + (match spec_map_entry(e.fields@) {
            Some(c) => Seq::<EntryId>::empty(),
            None => seq![e.id],
        }),
    decreases s.len(),
{
    let tail = (match spec_map_entry(e.fields@) {
        Some(c) => Seq::<EntryId>::empty(),
        None => seq![e.id],
    });
    if s.len() == 0 {
        assert(s.push(e)[0] == e);
        assert(s.push(e).drop_first() =~= Seq::<StreamEntry>::empty());
        assert(spec_dropped(s.push(e)) == tail + spec_dropped(Seq::<StreamEntry>::empty()));
        assert(spec_dropped(Seq::<StreamEntry>::empty()) =~= Seq::<EntryId>::empty());
        assert(spec_dropped(s) =~= Seq::<EntryId>::empty());
        assert(spec_dropped(s.push(e)) =~= spec_dropped(s) + tail);
    } else {
        let head = (match spec_map_entry(s[0].fields@) {
            Some(c) => Seq::<EntryId>::empty(),
            None => seq![s[0].id],
        });
        assert(s.push(e)[0] == s[0]);
        assert(s.push(e).drop_first() =~= s.drop_first().push(e));
        lemma_dropped_snoc(s.drop_first(), e);
        assert(spec_dropped(s.push(e)) == head + spec_dropped(s.drop_first().push(e)));
        assert(spec_dropped(s) == head + spec_dropped(s.drop_first()));
        assert(spec_dropped(s.push(e)) =~= spec_dropped(s) + tail);
    }
}

/// What one pipeline iteration hands back for the caller to persist and
/// log: the serialized merged store for `"{name}_state"`, the advanced
/// cursor's text for `"{name}_start"` — written in that order, so a crash
/// between the two only replays an already-merged batch — and the ids of
/// the entries dropped as malformed, to be warned about.
pub struct StepOutput {
    pub snapshot: String,
    pub cursor_text: String,
    pub dropped: Vec<EntryId>,
}

/// The pipeline's whole mutable state, owned exclusively by the loop that
/// drives it.
pub struct Pipeline {
    pub states: RelayStates,
    pub event_times: EventTimes,
    pub cursor: EntryId,
    pub initialized: bool,
    pub burst_rate_ms: u64,
}

impl Pipeline {
    pub open spec fn wf(&self) -> bool {
        self.states.wf() && self.event_times.wf()
    }

    /// A pipeline about to process its first batch: the store as loaded
    /// (or empty on a first run), the cursor as persisted (or the
    /// beginning sentinel), every timer seeded with the start instant.
    pub fn new(states: RelayStates, cursor: EntryId, burst_rate_ms: u64, now: u64) -> (r: Pipeline)
        requires
            states.wf(),
        ensures
            r.states == states,
            r.cursor == cursor,
            r.burst_rate_ms == burst_rate_ms,
            !r.initialized,
            r.event_times@ =~= Seq::new(8, |i: int| now),
            r.wf(),
    {
        Pipeline {
            states,
            event_times: crate::governor::new_event_times_map(now),
            cursor,
            initialized: false,
            burst_rate_ms,
        }
    }

    /// One pipeline iteration over one batch: map, reduce, commit, refresh
    /// the touched timers, tick the governor, advance the cursor past
    /// every entry seen — dropped or not, so one malformed entry can never
    /// block progress — and report what to persist.
    pub fn step(&mut self, rm8_ctl: &mut Rm8Control, now: u64, entries: &Vec<StreamEntry>) -> (out:
        StepOutput)
        requires
            old(self).wf(),
            old(self).event_times.le_now(now),
            forall|i: int|
                0 <= i < entries@.len() ==> (#[trigger] entries@[i]).id.spec_sequence()
                    < u32::MAX,
        ensures
            final(self).wf(),
            final(self).states@ == spec_merge(old(self).states@, spec_delta(entries@)),
            final(self).cursor == spec_new_cursor(old(self).cursor, entries@),
            final(self).initialized,
            final(self).burst_rate_ms == old(self).burst_rate_ms,
            final(self).event_times@ == spec_step_times(
                old(self).event_times@,
                entries@,
                old(self).burst_rate_ms,
                now,
            ),
            final(rm8_ctl)@ == old(rm8_ctl)@ + spec_step_sends(
                old(self).states@,
                old(self).event_times@,
                entries@,
                !old(self).initialized,
                old(self).burst_rate_ms,
                now,
            ),
            out.snapshot@ == snapshot_chars(final(self).states@),
            out.cursor_text@ == spec_entry_text(final(self).cursor),
            out.dropped@ == spec_dropped(entries@),
    {
        let ghost c0 = self.cursor;
        let mut commands: Vec<(RelayId, RelayState)> = Vec::new();
        let mut dropped: Vec<EntryId> = Vec::new();
        let n = entries.len();
        for i in 0..n
            invariant
                n == entries@.len(),
                forall|k: int|
                    0 <= k < entries@.len() ==> (#[trigger] entries@[k]).id.spec_sequence()
                        < u32::MAX,
                commands@ == spec_mapped(entries@.subrange(0, i as int)),
                dropped@ == spec_dropped(entries@.subrange(0, i as int)),
                self.cursor == spec_new_cursor(c0, entries@.subrange(0, i as int)),
                self.states == old(self).states,
                self.event_times == old(self).event_times,
                self.initialized == old(self).initialized,
                self.burst_rate_ms == old(self).burst_rate_ms,
        {
            let ghost prefix = entries@.subrange(0, i as int);
            let e = &entries[i];
            match map_entry(&e.fields) {
                Some(c) => {
                    commands.push(c);
                },
                None => {
                    dropped.push(e.id);
                },
            }
            self.cursor = e.id.next();
            proof {
                lemma_mapped_snoc(prefix, entries@[i as int]);
                lemma_dropped_snoc(prefix, entries@[i as int]);
                assert(entries@.subrange(0, i + 1) =~= prefix.push(entries@[i as int]));
                assert(commands@ =~= spec_mapped(entries@.subrange(0, i + 1)));
                assert(dropped@ =~= spec_dropped(entries@.subrange(0, i + 1)));
                assert(entries@.subrange(0, i + 1).last() == entries@[i as int]);
            }
        }
        proof {
            assert(entries@.subrange(0, n as int) =~= entries@);
        }
        let delta = reduce(&commands);
        let cold_start = !self.initialized;
        commit(&mut self.states, rm8_ctl, cold_start, &delta);
        let mut triggers: Vec<RelayId> = Vec::new();
        let m = delta.len();
        for i in 0..m
            invariant
                m == delta@.len(),
                triggers@.len() == i,
                forall|k: int| 0 <= k < i ==> #[trigger] triggers@[k] == delta@[k].0,
        {
            triggers.push(delta.entry_at(i).0);
        }
        proof {
            assert(triggers@ =~= spec_delta_keys(entries@));
        }
        let ghost t0 = self.event_times@;
        update_event_times(&mut self.event_times, &triggers, now);
        proof {
            assert(self.event_times@ =~= crate::governor::spec_refreshed(t0, triggers@, now));
            assert forall|i: int| 0 <= i < self.event_times@.len() implies #[trigger] self
                .event_times@[i] <= now by {}
        }
        let _forced = check_burst_rate_violations(
            rm8_ctl,
            &mut self.event_times,
            &self.burst_rate_ms,
            now,
        );
        self.initialized = true;
        let snapshot = self.states.to_snapshot_text();
        let cursor_text = self.cursor.to_text();
        StepOutput { snapshot, cursor_text, dropped }
    }
}

proof fn lemma_mapped_absent(entries: Seq<StreamEntry>, r: RelayId)
    requires
        forall|j: int|
            0 <= j < entries.len() ==> ((#[trigger] spec_map_entry(entries[j].fields@)) matches Some(
                c,
            ) ==> c.0 != r),
    ensures
        crate::states::spec_last_value(spec_mapped(entries), r) is None,
    decreases entries.len(),
{
    if entries.len() > 0 {
        assert forall|j: int| 0 <= j < entries.drop_first().len() implies ((
        #[trigger] spec_map_entry(entries.drop_first()[j].fields@)) matches Some(c) ==> c.0
            != r) by {
            assert(entries.drop_first()[j] == entries[j + 1]);
        }
        lemma_mapped_absent(entries.drop_first(), r);
        let rest = spec_mapped(entries.drop_first());
        let w = spec_mapped(entries);
        match spec_map_entry(entries[0].fields@) {
            Some(c0) => {
                assert(w == seq![c0] + rest);
                assert(w.drop_first() =~= rest);
                assert(w[0] == c0);
                assert(c0.0 != r);
            },
            None => {
                assert(w =~= rest);
            },
        }
    }
}

proof fn lemma_mapped_last(entries: Seq<StreamEntry>, i: int, r: RelayId, st: RelayState)
    requires
        0 <= i < entries.len(),
        spec_map_entry(entries[i].fields@) == Some((r, st)),
        forall|j: int|
            i < j < entries.len() ==> ((#[trigger] spec_map_entry(entries[j].fields@)) matches Some(
                c,
            ) ==> c.0 != r),
    ensures
        crate::states::spec_last_value(spec_mapped(entries), r) == Some(st),
    decreases entries.len(),
{
    let w = spec_mapped(entries);
    let rest = spec_mapped(entries.drop_first());
    if i == 0 {
        assert forall|j: int| 0 <= j < entries.drop_first().len() implies ((
        #[trigger] spec_map_entry(entries.drop_first()[j].fields@)) matches Some(c) ==> c.0
            != r) by {
            assert(entries.drop_first()[j] == entries[j + 1]);
        }
        lemma_mapped_absent(entries.drop_first(), r);
        assert(w == seq![(r, st)] + rest);
        assert(w.drop_first() =~= rest);
        assert(w[0] == (r, st));
    } else {
        assert(entries.drop_first()[i - 1] == entries[i]);
        assert forall|j: int| i - 1 < j < entries.drop_first().len() implies ((
        #[trigger] spec_map_entry(entries.drop_first()[j].fields@)) matches Some(c) ==> c.0
            != r) by {
            assert(entries.drop_first()[j] == entries[j + 1]);
        }
        lemma_mapped_last(entries.drop_first(), i - 1, r, st);
        match spec_map_entry(entries[0].fields@) {
            Some(c0) => {
                assert(w == seq![c0] + rest);
                assert(w.drop_first() =~= rest);
            },
            None => {
                assert(w =~= rest);
            },
        }
    }
}

/// Last-write-wins: when a batch holds several commands for one relay,
/// the reduced delta carries the state of the command with the greatest
/// entry id, commands being delivered in ascending id order.
pub proof fn lemma_last_write_wins_batch(
    entries: Seq<StreamEntry>,
    i: int,
    r: RelayId,
    st: RelayState,
)
    requires
        forall|a: int, b: int|
            0 <= a < b < entries.len() ==> (#[trigger] entries[a]).id.spec_lt(
                (#[trigger] entries[b]).id,
            ),
        0 <= i < entries.len(),
        spec_map_entry(entries[i].fields@) == Some((r, st)),
        forall|j: int|
            0 <= j < entries.len() && ((#[trigger] spec_map_entry(entries[j].fields@)) matches Some(
                c,
            ) && c.0 == r) ==> !entries[i].id.spec_lt(entries[j].id),
    ensures
        spec_lookup(spec_delta(entries), r) == Some(st),
{
    assert forall|j: int| i < j < entries.len() implies ((#[trigger] spec_map_entry(
        entries[j].fields@,
    )) matches Some(c) ==> c.0 != r) by {
        if spec_map_entry(entries[j].fields@) matches Some(c) && c.0 == r {
            assert(entries[i].id.spec_lt(entries[j].id));
        }
    }
    lemma_mapped_last(entries, i, r, st);
    crate::states::lemma_last_write_wins(spec_mapped(entries), r);
}

/// Cursor monotonicity: after any batch — valid or dropped entries alike
/// — the cursor stands just past the last entry seen and never below its
/// prior value, the batch being delivered in ascending id order at or
/// after the prior cursor.
pub proof fn lemma_cursor_monotonic(cursor: EntryId, entries: Seq<StreamEntry>)
    requires
        forall|a: int, b: int|
            0 <= a < b < entries.len() ==> (#[trigger] entries[a]).id.spec_lt(
                (#[trigger] entries[b]).id,
            ),
        entries.len() > 0 ==> !entries[0].id.spec_lt(cursor),
        forall|i: int|
            0 <= i < entries.len() ==> (#[trigger] entries[i]).id.spec_sequence() < u32::MAX,
    ensures
        !spec_new_cursor(cursor, entries).spec_lt(cursor),
        entries.len() > 0 ==> spec_new_cursor(cursor, entries) == entries.last().id.spec_next(),
{
    if entries.len() > 0 {
        let last = entries.last().id;
        if entries.len() > 1 {
            assert(entries[0].id.spec_lt(last));
        }
        last.lemma_next_increases();
    }
}

/// Idempotent replay: a batch applied twice — as after a crash between
/// persisting the merged store and persisting the cursor — leaves the
/// store exactly as one application does.
pub proof fn lemma_idempotent_replay(
    states0: Seq<(RelayId, RelayState)>,
    entries: Seq<StreamEntry>,
)
    requires
        crate::states::keys_unique(states0),
    ensures
        spec_merge(spec_merge(states0, spec_delta(entries)), spec_delta(entries)) == spec_merge(
            states0,
            spec_delta(entries),
        ),
{
    crate::states::lemma_merge_idempotent(states0, spec_delta(entries));
}

/// Cold-start reconciliation: the writes of a cold commit are the merged
/// store itself, so every address present in the store — not only those in
/// the delta — receives an explicit hardware write carrying its
/// reconciled state.
pub proof fn lemma_cold_start_full_resend(merged: Seq<(RelayId, RelayState)>, r: RelayId)
    requires
        crate::states::keys_unique(merged),
        contains_key(merged, r),
    ensures
        exists|k: int|
            0 <= k < merged.len() && (#[trigger] merged[k]).0 == r && Some(merged[k].1)
                == spec_lookup(merged, r),
{
    let k = choose|k: int| 0 <= k < merged.len() && (#[trigger] merged[k]).0 == r;
    crate::states::lemma_lookup_at_index(merged, k);
}

} // verus!
