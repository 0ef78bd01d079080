//! The persisted snapshot of the relay state store.
//!
//! The store is written under `"{name}_state"` as an ordered list of
//! `(address, state)` pairs, one `"<digit>:<On|Off>"` item per relay,
//! separated by `';'`. The serializer is deterministic; the parser accepts
//! exactly this shape and rejects duplicate relays, so a loaded store
//! satisfies the uniqueness invariant.

use vstd::prelude::*;
use vstd::string::StrSliceExecFns;
use vstd::string::StringExecFns;
use crate::entry_id::digit_char;
use crate::entry_id::push_digit;
use crate::errors::DecodeError;
use crate::rm8_types::RelayId;
use crate::rm8_types::RelayState;
use crate::states::contains_key;
use crate::states::keys_unique;
use crate::states::RelayStates;

verus! {

broadcast use vstd::string::group_string_axioms;

/// The textual form of one state.
pub open spec fn state_chars(st: RelayState) -> Seq<char> {
    if st is On {
        seq!['O', 'n']
    } else {
        seq!['O', 'f', 'f']
    }
}

/// The textual form of one pair: `<digit>:<On|Off>`.
pub open spec fn entry_chars(p: (RelayId, RelayState)) -> Seq<char> {
    seq![p.0.spec_digit(), ':'] + state_chars(p.1)
}

/// The textual form of the whole store, pairs in insertion order separated
/// by `';'`.
pub open spec fn snapshot_chars(s: Seq<(RelayId, RelayState)>) -> Seq<char>
    decreases s.len(),
{
    if s.len() == 0 {
        Seq::<char>::empty()
    } else if s.len() == 1 {
        entry_chars(s[0])
    } else {
        entry_chars(s[0]) + seq![';'] + snapshot_chars(s.drop_first())
    }
}

/// The parse of a snapshot string: a possibly empty `';'`-separated list
/// of pairs, rejected when a relay repeats.
pub open spec fn spec_parse_snapshot(t: Seq<char>) -> Option<Seq<(RelayId, RelayState)>>
    decreases t.len(),
{
    if t.len() == 0 {
        Some(Seq::<(RelayId, RelayState)>::empty())
    } else if t.len() >= 4 && RelayId::spec_of_digit(t[0]) is Some && t[1] == ':' && t[2] == 'O'
        && t[3] == 'n' && (t.len() == 4 || t[4] == ';') {
        let r = RelayId::spec_of_digit(t[0])->0;
        if t.len() == 4 {
            Some(seq![(r, RelayState::On)])
        } else {
            match spec_parse_snapshot(t.skip(5)) {
                Some(others) => if contains_key(others, r) {
                    None
                } else {
                    Some(seq![(r, RelayState::On)] + others)
                },
                None => None,
            }
        }
    } else if t.len() >= 5 && RelayId::spec_of_digit(t[0]) is Some && t[1] == ':' && t[2] == 'O'
        && t[3] == 'f' && t[4] == 'f' && (t.len() == 5 || t[5] == ';') {
        let r = RelayId::spec_of_digit(t[0])->0;
        if t.len() == 5 {
            Some(seq![(r, RelayState::Off)])
        } else {
            match spec_parse_snapshot(t.skip(6)) {
                Some(others) => if contains_key(others, r) {
                    None
                } else {
                    Some(seq![(r, RelayState::Off)] + others)
                },
                None => None,
            }
        }
    } else {
        None
    }
}

/// The digit a relay is written as is the digit character of its
/// one-based position.
proof fn lemma_relay_digit_char(r: RelayId)
    ensures
        digit_char(r.spec_position() + 1) == r.spec_digit(),
{
}

/// Appends `<digit>:<On|Off>` for one pair.
fn push_entry(out: &mut String, p: (RelayId, RelayState))
    ensures
        final(out)@ == old(out)@ + entry_chars(p),
{
    let pos = p.0.position();
    push_digit(out, (pos + 1) as u8);
    out.append(":");
    match p.1 {
        RelayState::On => out.append("On"),
        RelayState::Off => out.append("Off"),
    }
    proof {
        lemma_relay_digit_char(p.0);
        reveal_strlit(":");
        reveal_strlit("On");
        reveal_strlit("Off");
        assert(out@ =~= old(out)@ + entry_chars(p));
    }
}

/// Appends the pairs from position `i` on, `';'`-separated.
fn push_snapshot_from(out: &mut String, states: &RelayStates, i: usize)
    requires
        i <= states@.len(),
    ensures
        final(out)@ == old(out)@ + snapshot_chars(states@.skip(i as int)),
    decreases states@.len() - i,
{
    let n = states.len();
    if i == n {
        proof {
            assert(states@.skip(i as int) =~= Seq::<(RelayId, RelayState)>::empty());
            assert(out@ =~= out@ + snapshot_chars(states@.skip(i as int)));
        }
        return ;
    }
    let p = states.entry_at(i);
    push_entry(out, p);
    if i + 1 < n {
        out.append(";");
        push_snapshot_from(out, states, i + 1);
        proof {
            reveal_strlit(";");
            assert(states@.skip(i as int).drop_first() =~= states@.skip(i + 1));
            assert(states@.skip(i as int)[0] == states@[i as int]);
            assert(out@ =~= old(out)@ + snapshot_chars(states@.skip(i as int)));
        }
    } else {
        proof {
            assert(states@.skip(i as int).len() == 1);
            assert(states@.skip(i as int)[0] == states@[i as int]);
            assert(entry_chars(states@.skip(i as int)[0]) == snapshot_chars(
                states@.skip(i as int),
            ));
            assert(out@ =~= old(out)@ + snapshot_chars(states@.skip(i as int)));
        }
    }
}

impl RelayStates {
    /// Serializes the store for persistence under `"{name}_state"`.
    pub fn to_snapshot_text(&self) -> (r: String)
        ensures
            r@ == snapshot_chars(self@),
    {
        let mut out = String::new();
        push_snapshot_from(&mut out, self, 0);
        proof {
            assert(self@.skip(0) =~= self@);
        }
        out
    }

    /// Parses a persisted snapshot back into a store. Fails, and never
    /// panics, on any text the serializer cannot have written, and on a
    /// repeated relay, so the loaded store keeps its invariant.
    pub fn from_snapshot_text(s: &str) -> (r: Result<RelayStates, DecodeError>)
        ensures
            match r {
                Ok(st) => spec_parse_snapshot(s@) == Some(st@) && st.wf(),
                Err(e) => spec_parse_snapshot(s@) is None && e == DecodeError::IllegalSnapshot,
            },
    {
        match parse_snapshot_at(s, 0) {
            Ok(v) => {
                proof {
                    assert(s@.skip(0) =~= s@);
                    lemma_parse_snapshot_unique(s@);
                }
                Ok(RelayStates::from_entries(v))
            },
            Err(e) => {
                proof {
                    assert(s@.skip(0) =~= s@);
                }
                Err(e)
            },
        }
    }
}

/// Does any pair carry this relay?
fn vec_contains_key(v: &Vec<(RelayId, RelayState)>, r: RelayId) -> (b: bool)
    ensures
        b == contains_key(v@, r),
{
    let n = v.len();
    for i in 0..n
        invariant
            n == v@.len(),
            forall|j: int| 0 <= j < i ==> (#[trigger] v@[j]).0 != r,
    {
        if v[i].0 == r {
            assert(contains_key(v@, r));
            return true;
        }
    }
    proof {
        if contains_key(v@, r) {
            let i = choose|i: int| 0 <= i < v@.len() && v@[i].0 == r;
        }
    }
    false
}

/// Parses the pair list starting at position `i`.
fn parse_snapshot_at(s: &str, i: usize) -> (r: Result<Vec<(RelayId, RelayState)>, DecodeError>)
    requires
        i <= s@.len(),
    ensures
        match r {
            Ok(v) => spec_parse_snapshot(s@.skip(i as int)) == Some(v@),
            Err(e) => spec_parse_snapshot(s@.skip(i as int)) is None && e
                == DecodeError::IllegalSnapshot,
        },
    decreases s@.len() - i,
{
    let ghost t = s@.skip(i as int);
    proof {
        assert forall|k: int| 0 <= k < t.len() implies #[trigger] t[k] == s@[i + k] by {}
    }
    let n = s.unicode_len();
    if i == n {
        let v: Vec<(RelayId, RelayState)> = Vec::new();
        proof {
            assert(t =~= Seq::<char>::empty());
            assert(v@ =~= Seq::<(RelayId, RelayState)>::empty());
        }
        return Ok(v);
    }
    if n - i < 4 {
        return Err(DecodeError::IllegalSnapshot);
    }
    let relay = match RelayId::of_digit(s.get_char(i)) {
        Some(relay) => relay,
        None => {
            return Err(DecodeError::IllegalSnapshot);
        },
    };
    if s.get_char(i + 1) != ':' {
        return Err(DecodeError::IllegalSnapshot);
    }
    if s.get_char(i + 2) != 'O' {
        return Err(DecodeError::IllegalSnapshot);
    }
    let c3 = s.get_char(i + 3);
    if c3 == 'n' {
        if i + 4 == n {
            let mut v: Vec<(RelayId, RelayState)> = Vec::new();
            v.push((relay, RelayState::On));
            proof {
                assert(v@ =~= seq![(relay, RelayState::On)]);
            }
            return Ok(v);
        }
        if s.get_char(i + 4) != ';' {
            return Err(DecodeError::IllegalSnapshot);
        }
        let mut rest = match parse_snapshot_at(s, i + 5) {
            Ok(rest) => rest,
            Err(e) => {
                proof {
                    assert(t.skip(5) =~= s@.skip(i + 5));
                }
                return Err(e);
            },
        };
        proof {
            assert(t.skip(5) =~= s@.skip(i + 5));
        }
        if vec_contains_key(&rest, relay) {
            return Err(DecodeError::IllegalSnapshot);
        }
        let ghost rv = rest@;
        rest.insert(0, (relay, RelayState::On));
        proof {
            assert(rest@ =~= seq![(relay, RelayState::On)] + rv);
        }
        Ok(rest)
    } else if c3 == 'f' {
        if n - i < 5 {
            return Err(DecodeError::IllegalSnapshot);
        }
        if s.get_char(i + 4) != 'f' {
            return Err(DecodeError::IllegalSnapshot);
        }
        if i + 5 == n {
            let mut v: Vec<(RelayId, RelayState)> = Vec::new();
            v.push((relay, RelayState::Off));
            proof {
                assert(v@ =~= seq![(relay, RelayState::Off)]);
            }
            return Ok(v);
        }
        if s.get_char(i + 5) != ';' {
            return Err(DecodeError::IllegalSnapshot);
        }
        let mut rest = match parse_snapshot_at(s, i + 6) {
            Ok(rest) => rest,
            Err(e) => {
                proof {
                    assert(t.skip(6) =~= s@.skip(i + 6));
                }
                return Err(e);
            },
        };
        proof {
            assert(t.skip(6) =~= s@.skip(i + 6));
        }
        if vec_contains_key(&rest, relay) {
            return Err(DecodeError::IllegalSnapshot);
        }
        let ghost rv = rest@;
        rest.insert(0, (relay, RelayState::Off));
        proof {
            assert(rest@ =~= seq![(relay, RelayState::Off)] + rv);
        }
        Ok(rest)
    } else {
        Err(DecodeError::IllegalSnapshot)
    }
}

/// What the parser accepts always has unique keys.
pub proof fn lemma_parse_snapshot_unique(t: Seq<char>)
    ensures
        spec_parse_snapshot(t) is Some ==> keys_unique(spec_parse_snapshot(t)->0),
    decreases t.len(),
{
    if t.len() == 0 {
    } else if t.len() >= 4 && RelayId::spec_of_digit(t[0]) is Some && t[1] == ':' && t[2] == 'O'
        && t[3] == 'n' && (t.len() == 4 || t[4] == ';') {
        let r = RelayId::spec_of_digit(t[0])->0;
        if t.len() == 4 {
            assert(keys_unique(seq![(r, RelayState::On)]));
        } else {
            lemma_parse_snapshot_unique(t.skip(5));
            if spec_parse_snapshot(t.skip(5)) is Some {
                let others = spec_parse_snapshot(t.skip(5))->0;
                if !contains_key(others, r) {
                    crate::states::lemma_unique_cons((r, RelayState::On), others);
                }
            }
        }
    } else if t.len() >= 5 && RelayId::spec_of_digit(t[0]) is Some && t[1] == ':' && t[2] == 'O'
        && t[3] == 'f' && t[4] == 'f' && (t.len() == 5 || t[5] == ';') {
        let r = RelayId::spec_of_digit(t[0])->0;
        if t.len() == 5 {
            assert(keys_unique(seq![(r, RelayState::Off)]));
        } else {
            lemma_parse_snapshot_unique(t.skip(6));
            if spec_parse_snapshot(t.skip(6)) is Some {
                let others = spec_parse_snapshot(t.skip(6))->0;
                if !contains_key(others, r) {
                    crate::states::lemma_unique_cons((r, RelayState::Off), others);
                }
            }
        }
    }
}

/// Serializing a well-formed store and parsing the text back returns the
/// same store: the snapshot survives the store round trip unchanged.
pub proof fn lemma_snapshot_round_trip(s: Seq<(RelayId, RelayState)>)
    requires
        keys_unique(s),
    ensures
        spec_parse_snapshot(snapshot_chars(s)) == Some(s),
    decreases s.len(),
{
    if s.len() == 0 {
    } else {
        let p = s[0];
        let t = snapshot_chars(s);
        let e = entry_chars(p);
        crate::rm8_types::lemma_relay_digit_round_trip(p.0);
        assert(e[0] == p.0.spec_digit());
        assert(e[1] == ':');
        assert(e[2] == 'O');
        if s.len() == 1 {
            assert(t =~= e);
            assert(s =~= seq![p]);
            if p.1 is On {
                assert(t.len() == 4 && t[3] == 'n');
                assert(spec_parse_snapshot(t) == Some(seq![(p.0, RelayState::On)]));
            } else {
                assert(t.len() == 5 && t[3] == 'f' && t[4] == 'f');
                assert(spec_parse_snapshot(t) == Some(seq![(p.0, RelayState::Off)]));
            }
        } else {
            let rest = snapshot_chars(s.drop_first());
            assert(s =~= seq![p] + s.drop_first());
            crate::states::lemma_unique_cons(p, s.drop_first());
            lemma_snapshot_round_trip(s.drop_first());
            assert(s.drop_first().len() >= 1);
            assert(rest.len() >= 4);
            assert(t == e + seq![';'] + rest);
            assert(t[0] == e[0] && t[1] == e[1] && t[2] == e[2] && t[3] == e[3]);
            if p.1 is On {
                assert(e.len() == 4);
                assert(t[3] == 'n');
                assert(t[4] == ';');
                assert(t.skip(5) =~= rest);
                assert(spec_parse_snapshot(t) == Some(seq![(p.0, RelayState::On)]
                    + s.drop_first()));
            } else {
                assert(e.len() == 5);
                assert(t[3] == 'f');
                assert(t[4] == 'f');
                assert(t[5] == ';');
                assert(t.skip(6) =~= rest);
                assert(spec_parse_snapshot(t) == Some(seq![(p.0, RelayState::Off)]
                    + s.drop_first()));
            }
        }
    }
}

} // verus!
