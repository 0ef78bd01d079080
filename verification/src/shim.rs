//! Conversion of raw store fields into relay commands, and the errors it
//! reports.
//!
//! This is the shape the eight-relay deployment reads from the log: each
//! entry carries a `"relay"` field naming a relay by number and a
//! `"state"` field reading `"On"` or `"Off"`. Anything else becomes a
//! `ConvertionError` that the caller logs and drops; the batch still
//! folds into a delta and the cursor still advances.

use vstd::prelude::*;
use vstd::string::StrSliceExecFns;
use vstd::string::StringExecFns;
use crate::pipeline::spec_relay_of_text;
use crate::pipeline::spec_state_of_text;
use crate::rm8_types::RelayId;
use crate::rm8_types::RelayState;
use crate::states::spec_merge;
use crate::states::RelayStates;
use crate::store_value::spec_str_of;
use crate::store_value::StoreValue;

verus! {

#[verifier::external_type_specification]
#[verifier::external_body]
pub struct ExRedisError(redis::RedisError);

#[verifier::external_type_specification]
#[verifier::external_body]
pub struct ExAnyhowError(anyhow::Error);

/// Relies on `redis::RedisError`'s `Display` implementation to render the
/// error as text for a `ConvertionError`'s message.
#[verifier::external_body]
fn redis_error_text(e: &redis::RedisError) -> String {
    format!("{}", e)
}

// --- the error messages, pinned as text ---

pub open spec fn msg_field_missing(field: Seq<char>) -> Seq<char> {
    "Field '"@ + field + "' is missing"@
}

pub open spec fn msg_field_not_string(field: Seq<char>) -> Seq<char> {
    "Field '"@ + field + "' is not a UTF-8 string"@
}

pub open spec fn msg_invalid_relay(value: Seq<char>) -> Seq<char> {
    "Invalid relay number '"@ + value + "'"@
}

pub open spec fn msg_invalid_state(value: Seq<char>) -> Seq<char> {
    "Invalid relay state '"@ + value + "'"@
}

/// Why one log entry could not be converted into a relay command.
#[derive(Debug)]
pub struct ConvertionError {
    stream_key: String,
    entry_id: String,
    message: String,
    source: Option<redis::RedisError>,
}

impl ConvertionError {
    pub closed spec fn spec_stream_key(&self) -> Seq<char> {
        self.stream_key@
    }

    pub closed spec fn spec_entry_id(&self) -> Seq<char> {
        self.entry_id@
    }

    pub closed spec fn spec_message(&self) -> Seq<char> {
        self.message@
    }

    pub closed spec fn spec_has_source(&self) -> bool {
        self.source is Some
    }

    pub fn new(stream_key: &str, entry_id: &str, message: String) -> (r: ConvertionError)
        ensures
            r.spec_stream_key() == stream_key@,
            r.spec_entry_id() == entry_id@,
            r.spec_message() == message@,
            !r.spec_has_source(),
    {
        ConvertionError {
            stream_key: String::from_str(stream_key),
            entry_id: String::from_str(entry_id),
            message,
            source: None,
        }
    }

    /// Wraps a store client error, keeping it as the source and rendering
    /// it into the message.
    pub fn from_redis_error(stream_key: &str, entry_id: &str, source: redis::RedisError) -> (r:
        ConvertionError)
        ensures
            r.spec_stream_key() == stream_key@,
            r.spec_entry_id() == entry_id@,
            r.spec_has_source(),
    {
        let message = redis_error_text(&source);
        ConvertionError {
            stream_key: String::from_str(stream_key),
            entry_id: String::from_str(entry_id),
            message,
            source: Some(source),
        }
    }

    pub fn stream_key(&self) -> (r: &String)
        ensures
            r@ == self.spec_stream_key(),
    {
        &self.stream_key
    }

    pub fn entry_id(&self) -> (r: &String)
        ensures
            r@ == self.spec_entry_id(),
    {
        &self.entry_id
    }

    pub fn message(&self) -> (r: &String)
        ensures
            r@ == self.spec_message(),
    {
        &self.message
    }

    /// The full report, as the error displays itself.
    pub fn describe(&self) -> (r: String)
        ensures
            r@ == "Failed to convert entry '"@ + self.spec_entry_id() + "' of stream '"@
                + self.spec_stream_key() + "': "@ + self.spec_message(),
    {
        let mut out = String::from_str("Failed to convert entry '");
        out.append(self.entry_id.as_str());
        out.append("' of stream '");
        out.append(self.stream_key.as_str());
        out.append("': ");
        out.append(self.message.as_str());
        proof {
            assert(out@ =~= "Failed to convert entry '"@ + self.spec_entry_id()
                + "' of stream '"@ + self.spec_stream_key() + "': "@ + self.spec_message());
        }
        out
    }
}

/// What ends the dispatch loop: a conversion escalated by the caller, a
/// store failure, or a handler failure.
pub enum DispatchRelayStatesError {
    ConvertionError(ConvertionError),
    RedisError(redis::RedisError),
    RelayStatesHandlerError(anyhow::Error),
}

/// The text under the first field of that name: missing and non-string
/// fields turn into their error messages.
pub open spec fn spec_get_as_string(fields: Seq<(String, StoreValue)>, name: Seq<char>) -> Result<
    Seq<char>,
    Seq<char>,
>
    decreases fields.len(),
{
    if fields.len() == 0 {
        Err(msg_field_missing(name))
    } else if fields[0].0@ == name {
        match spec_str_of(fields[0].1) {
            Ok(t) => Ok(t),
            Err(e) => Err(msg_field_not_string(name)),
        }
    } else {
        spec_get_as_string(fields.drop_first(), name)
    }
}

/// The relay command an entry's raw fields carry, or the message of the
/// first check that failed.
pub open spec fn spec_from_redis(fields: Seq<(String, StoreValue)>) -> Result<
    (RelayId, RelayState),
    Seq<char>,
> {
    match spec_get_as_string(fields, "relay"@) {
        Err(m) => Err(m),
        Ok(relay_txt) => match spec_relay_of_text(relay_txt) {
            None => Err(msg_invalid_relay(relay_txt)),
            Some(r) => match spec_get_as_string(fields, "state"@) {
                Err(m) => Err(m),
                Ok(state_txt) => match spec_state_of_text(state_txt) {
                    None => Err(msg_invalid_state(state_txt)),
                    Some(st) => Ok((r, st)),
                },
            },
        },
    }
}

proof fn lemma_get_as_string_at_first(
    fields: Seq<(String, StoreValue)>,
    name: Seq<char>,
    i: int,
)
    requires
        0 <= i < fields.len(),
        fields[i].0@ == name,
        forall|j: int| 0 <= j < i ==> (#[trigger] fields[j]).0@ != name,
    ensures
        spec_get_as_string(fields, name) == (match spec_str_of(fields[i].1) {
            Ok(t) => Ok::<Seq<char>, Seq<char>>(t),
            Err(e) => Err::<Seq<char>, Seq<char>>(msg_field_not_string(name)),
        }),
    decreases i,
{
    if i > 0 {
        assert(fields.drop_first()[i - 1] == fields[i]);
        assert forall|j: int| 0 <= j < i - 1 implies (#[trigger] fields.drop_first()[j]).0@
            != name by {
            assert(fields.drop_first()[j] == fields[j + 1]);
        }
        lemma_get_as_string_at_first(fields.drop_first(), name, i - 1);
    }
}

proof fn lemma_get_as_string_absent(fields: Seq<(String, StoreValue)>, name: Seq<char>)
    requires
        forall|j: int| 0 <= j < fields.len() ==> (#[trigger] fields[j]).0@ != name,
    ensures
        spec_get_as_string(fields, name) == Err::<Seq<char>, Seq<char>>(msg_field_missing(name)),
    decreases fields.len(),
{
    if fields.len() > 0 {
        assert forall|j: int| 0 <= j < fields.drop_first().len() implies (
        #[trigger] fields.drop_first()[j]).0@ != name by {
            assert(fields.drop_first()[j] == fields[j + 1]);
        }
        lemma_get_as_string_absent(fields.drop_first(), name);
    }
}

/// Builds `prefix + middle + suffix`.
fn join3(prefix: &str, middle: &str, suffix: &str) -> (r: String)
    ensures
        r@ == prefix@ + middle@ + suffix@,
{
    let mut out = String::from_str(prefix);
    out.append(middle);
    out.append(suffix);
    proof {
        assert(out@ =~= prefix@ + middle@ + suffix@);
    }
    out
}

/// Reads the named field of an entry as text, reporting a missing or
/// non-string field as a `ConvertionError` on the entry.
pub fn get_as_string(
    stream_key: &str,
    entry_id: &str,
    fields: &Vec<(String, StoreValue)>,
    field: &str,
) -> (r: Result<String, ConvertionError>)
    ensures
        match r {
            Ok(s) => spec_get_as_string(fields@, field@) == Ok::<Seq<char>, Seq<char>>(s@),
            Err(e) => spec_get_as_string(fields@, field@) == Err::<Seq<char>, Seq<char>>(
                e.spec_message(),
            ) && e.spec_stream_key() == stream_key@ && e.spec_entry_id() == entry_id@
                && !e.spec_has_source(),
        },
{
    let fname = String::from_str(field);
    let n = fields.len();
    for i in 0..n
        invariant
            n == fields@.len(),
            fname@ == field@,
            forall|j: int| 0 <= j < i ==> (#[trigger] fields@[j]).0@ != field@,
    {
        if fields[i].0 == fname {
            proof {
                lemma_get_as_string_at_first(fields@, field@, i as int);
            }
            match crate::store_value::as_string(&fields[i].1) {
                Ok(s) => {
                    return Ok(s);
                },
                Err(_) => {
                    let message = join3("Field '", field, "' is not a UTF-8 string");
                    return Err(ConvertionError::new(stream_key, entry_id, message));
                },
            }
        }
    }
    proof {
        lemma_get_as_string_absent(fields@, field@);
    }
    let message = join3("Field '", field, "' is missing");
    Err(ConvertionError::new(stream_key, entry_id, message))
}

/// Converts one entry's raw fields into a relay command: a `"relay"`
/// field naming a relay `"1"` through `"8"` and a `"state"` field reading
/// exactly `"On"` or `"Off"`; anything else is reported with the exact
/// message the failed check carries.
pub fn from_redis(
    stream_key: &str,
    entry_id: &str,
    fields: &Vec<(String, StoreValue)>,
) -> (r: Result<(RelayId, RelayState), ConvertionError>)
    ensures
        match r {
            Ok(c) => spec_from_redis(fields@) == Ok::<(RelayId, RelayState), Seq<char>>(c),
            Err(e) => spec_from_redis(fields@) == Err::<(RelayId, RelayState), Seq<char>>(
                e.spec_message(),
            ) && e.spec_stream_key() == stream_key@ && e.spec_entry_id() == entry_id@
                && !e.spec_has_source(),
        },
{
    let relay_txt = match get_as_string(stream_key, entry_id, fields, "relay") {
        Ok(relay_txt) => relay_txt,
        Err(e) => {
            return Err(e);
        },
    };
    let relay = {
        let s = relay_txt.as_str();
        let valid = s.unicode_len() == 1;
        let parsed = if valid {
            RelayId::of_digit(s.get_char(0))
        } else {
            None
        };
        match parsed {
            Some(r) => r,
            None => {
                let message = join3("Invalid relay number '", relay_txt.as_str(), "'");
                return Err(ConvertionError::new(stream_key, entry_id, message));
            },
        }
    };
    let state_txt = match get_as_string(stream_key, entry_id, fields, "state") {
        Ok(state_txt) => state_txt,
        Err(e) => {
            return Err(e);
        },
    };
    let on = String::from_str("On");
    let off = String::from_str("Off");
    let state = if state_txt == on {
        RelayState::On
    } else if state_txt == off {
        RelayState::Off
    } else {
        let message = join3("Invalid relay state '", state_txt.as_str(), "'");
        return Err(ConvertionError::new(stream_key, entry_id, message));
    };
    Ok((relay, state))
}

// --- folding a raw batch, as the eight-relay dispatch loop does ---

/// The commands of a raw batch, conversion failures dropped.
pub open spec fn spec_shim_cmds(entries: Seq<(String, Vec<(String, StoreValue)>)>) -> Seq<
    (RelayId, RelayState),
>
    decreases entries.len(),
{
    if entries.len() == 0 {
        Seq::<(RelayId, RelayState)>::empty()
    } else {
        (match spec_from_redis(entries[0].1@) {
            Ok(c) => seq![c],
            Err(m) => Seq::<(RelayId, RelayState)>::empty(),
        }) + spec_shim_cmds(entries.drop_first())
    }
}

/// The `(entry id, message)` pairs of the conversions a raw batch drops.
pub open spec fn spec_shim_errs(entries: Seq<(String, Vec<(String, StoreValue)>)>) -> Seq<
    (Seq<char>, Seq<char>),
>
    decreases entries.len(),
{
    if entries.len() == 0 {
        Seq::<(Seq<char>, Seq<char>)>::empty()
    } else {
        (match spec_from_redis(entries[0].1@) {
            Ok(c) => Seq::<(Seq<char>, Seq<char>)>::empty(),
            Err(m) => seq![(entries[0].0@, m)],
        }) + spec_shim_errs(entries.drop_first())
    }
}

proof fn lemma_shim_cmds_snoc(
    s: Seq<(String, Vec<(String, StoreValue)>)>,
    e: (String, Vec<(String, StoreValue)>),
)
    ensures
        spec_shim_cmds(s.push(e)) =~= spec_shim_cmds(s) + (match spec_from_redis(e.1@) {
            Ok(c) => seq![c],
            Err(m) => Seq::<(RelayId, RelayState)>::empty(),
        }),
    decreases s.len(),
{
    let tail = (match spec_from_redis(e.1@) {
        Ok(c) => seq![c],
        Err(m) => Seq::<(RelayId, RelayState)>::empty(),
    });
    if s.len() == 0 {
        assert(s.push(e)[0] == e);
        assert(s.push(e).drop_first() =~= Seq::<(String, Vec<(String, StoreValue)>)>::empty());
        assert(spec_shim_cmds(s.push(e)) == tail + spec_shim_cmds(
            Seq::<(String, Vec<(String, StoreValue)>)>::empty(),
        ));
        assert(spec_shim_cmds(Seq::<(String, Vec<(String, StoreValue)>)>::empty()) =~= Seq::<
            (RelayId, RelayState),
        >::empty());
        assert(spec_shim_cmds(s) =~= Seq::<(RelayId, RelayState)>::empty());
    } else {
        let head = (match spec_from_redis(s[0].1@) {
            Ok(c) => seq![c],
            Err(m) => Seq::<(RelayId, RelayState)>::empty(),
        });
        assert(s.push(e)[0] == s[0]);
        assert(s.push(e).drop_first() =~= s.drop_first().push(e));
        lemma_shim_cmds_snoc(s.drop_first(), e);
        assert(spec_shim_cmds(s.push(e)) == head + spec_shim_cmds(s.drop_first().push(e)));
        assert(spec_shim_cmds(s) == head + spec_shim_cmds(s.drop_first()));
    }
}

proof fn lemma_shim_errs_snoc(
    s: Seq<(String, Vec<(String, StoreValue)>)>,
    e: (String, Vec<(String, StoreValue)>),
)
    ensures
        spec_shim_errs(s.push(e)) =~= spec_shim_errs(s) + (match spec_from_redis(e.1@) {
            Ok(c) => Seq::<(Seq<char>, Seq<char>)>::empty(),
            Err(m) => seq![(e.0@, m)],
        }),
    decreases s.len(),
{
    let tail = (match spec_from_redis(e.1@) {
        Ok(c) => Seq::<(Seq<char>, Seq<char>)>::empty(),
        Err(m) => seq![(e.0@, m)],
    });
    if s.len() == 0 {
        assert(s.push(e)[0] == e);
        assert(s.push(e).drop_first() =~= Seq::<(String, Vec<(String, StoreValue)>)>::empty());
        assert(spec_shim_errs(s.push(e)) == tail + spec_shim_errs(
            Seq::<(String, Vec<(String, StoreValue)>)>::empty(),
        ));
        assert(spec_shim_errs(Seq::<(String, Vec<(String, StoreValue)>)>::empty()) =~= Seq::<
            (Seq<char>, Seq<char>),
        >::empty());
        assert(spec_shim_errs(s) =~= Seq::<(Seq<char>, Seq<char>)>::empty());
    } else {
        let head = (match spec_from_redis(s[0].1@) {
            Ok(c) => Seq::<(Seq<char>, Seq<char>)>::empty(),
            Err(m) => seq![(s[0].0@, m)],
        });
        assert(s.push(e)[0] == s[0]);
        assert(s.push(e).drop_first() =~= s.drop_first().push(e));
        lemma_shim_errs_snoc(s.drop_first(), e);
        assert(spec_shim_errs(s.push(e)) == head + spec_shim_errs(s.drop_first().push(e)));
        assert(spec_shim_errs(s) == head + spec_shim_errs(s.drop_first()));
    }
}

/// The id the cursor should advance to: the last entry seen, or the
/// starting id when the batch is empty.
pub open spec fn spec_shim_last_id(
    last: Seq<char>,
    entries: Seq<(String, Vec<(String, StoreValue)>)>,
) -> Seq<char> {
    if entries.len() == 0 {
        last
    } else {
        entries.last().0@
    }
}

/// Folds a raw batch into relay states, last write wins: returns the last
/// entry id seen, the delta when any entry converted, and the dropped
/// conversions for the caller to log or escalate.
pub fn fold_relay_states(
    stream_key: &str,
    last_entry_id: &str,
    entries: &Vec<(String, Vec<(String, StoreValue)>)>,
) -> (r: (String, Option<RelayStates>, Vec<ConvertionError>))
    ensures
        r.0@ == spec_shim_last_id(last_entry_id@, entries@),
        r.1 is Some <==> spec_shim_cmds(entries@).len() > 0,
        r.1 matches Some(st) ==> st@ == spec_merge(
            Seq::<(RelayId, RelayState)>::empty(),
            spec_shim_cmds(entries@),
        ) && st.wf(),
        r.2@.len() == spec_shim_errs(entries@).len(),
        forall|k: int|
            0 <= k < r.2@.len() ==> (#[trigger] r.2@[k]).spec_entry_id() == spec_shim_errs(
                entries@,
            )[k].0 && r.2@[k].spec_message() == spec_shim_errs(entries@)[k].1
                && r.2@[k].spec_stream_key() == stream_key@ && !r.2@[k].spec_has_source(),
{
    let mut entry_id = String::from_str(last_entry_id);
    let mut relay_states = RelayStates::new();
    let mut dropped: Vec<ConvertionError> = Vec::new();
    let ghost s0 = relay_states@;
    let n = entries.len();
    for i in 0..n
        invariant
            n == entries@.len(),
            s0 =~= Seq::<(RelayId, RelayState)>::empty(),
            entry_id@ == spec_shim_last_id(last_entry_id@, entries@.subrange(0, i as int)),
            relay_states@ == spec_merge(s0, spec_shim_cmds(entries@.subrange(0, i as int))),
            relay_states.wf(),
            dropped@.len() == spec_shim_errs(entries@.subrange(0, i as int)).len(),
            forall|k: int|
                0 <= k < dropped@.len() ==> (#[trigger] dropped@[k]).spec_entry_id()
                    == spec_shim_errs(entries@.subrange(0, i as int))[k].0
                    && dropped@[k].spec_message() == spec_shim_errs(
                    entries@.subrange(0, i as int),
                )[k].1 && dropped@[k].spec_stream_key() == stream_key@
                    && !dropped@[k].spec_has_source(),
    {
        let ghost prefix = entries@.subrange(0, i as int);
        let e = &entries[i];
        entry_id = e.0.clone();
        match from_redis(stream_key, entry_id.as_str(), &e.1) {
            Ok(c) => {
                relay_states.set(c.0, c.1);
                proof {
                    crate::states::lemma_merge_snoc(s0, spec_shim_cmds(prefix), c);
                }
            },
            Err(err) => {
                dropped.push(err);
            },
        }
        proof {
            lemma_shim_cmds_snoc(prefix, entries@[i as int]);
            lemma_shim_errs_snoc(prefix, entries@[i as int]);
            assert(entries@.subrange(0, i + 1) =~= prefix.push(entries@[i as int]));
            if spec_from_redis(entries@[i as int].1@) is Ok {
                assert(spec_shim_cmds(entries@.subrange(0, i + 1)) =~= spec_shim_cmds(
                    prefix,
                ).push(spec_from_redis(entries@[i as int].1@)->Ok_0));
            } else {
                assert(spec_shim_cmds(entries@.subrange(0, i + 1)) =~= spec_shim_cmds(prefix));
            }
            assert(entries@.subrange(0, i + 1).last() == entries@[i as int]);
        }
    }
    proof {
        assert(entries@.subrange(0, n as int) =~= entries@);
    }
    let delta = if relay_states.is_empty() {
        proof {
            if spec_shim_cmds(entries@).len() > 0 {
                crate::states::lemma_contains_merge(
                    s0,
                    spec_shim_cmds(entries@),
                    spec_shim_cmds(entries@)[0].0,
                );
                assert(crate::states::contains_key(
                    spec_shim_cmds(entries@),
                    spec_shim_cmds(entries@)[0].0,
                ));
            }
        }
        None
    } else {
        proof {
            if spec_shim_cmds(entries@).len() == 0 {
                assert(relay_states@ =~= s0);
            }
        }
        Some(relay_states)
    };
    (entry_id, delta, dropped)
}

} // verus!
