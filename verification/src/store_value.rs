//! The durable store's wire values, and their decoding into stream
//! entries.
//!
//! A reply to a stream read arrives as a nested wire value; the caller
//! converts the store client's value into `StoreValue` one for one, and
//! the functions here check its shape and decode it into `(EntryId,
//! field map)` pairs. A malformed reply is a protocol failure and comes
//! back as an error, never as a panic.

use vstd::prelude::*;
use vstd::utf8::decode_utf8;
use vstd::utf8::valid_utf8;
use crate::entry_id::spec_parse_entry_id;
use crate::entry_id::EntryId;
use crate::errors::DecodeError;

verus! {

/// One wire value of the durable store.
pub enum StoreValue {
    /// The nil reply: a timed-out blocking read.
    Nil,
    /// An integer reply.
    Int(i64),
    /// A binary-safe string.
    Data(Vec<u8>),
    /// A nested array.
    Bulk(Vec<StoreValue>),
    /// A status line.
    Status(String),
    /// The bare OK status.
    Okay,
}

/// The text a binary string holds: its UTF-8 decoding, or an error for
/// any other shape or encoding.
pub open spec fn spec_str_of(v: StoreValue) -> Result<Seq<char>, DecodeError> {
    match v {
        StoreValue::Data(b) => if valid_utf8(b@) {
            Ok(decode_utf8(b@))
        } else {
            Err(DecodeError::InvalidUtf8)
        },
        _ => Err(DecodeError::ExpectedData),
    }
}

/// The text naming an entry id: a binary string's decoding or a status
/// line.
pub open spec fn spec_entry_id_text_of(v: StoreValue) -> Result<Seq<char>, DecodeError> {
    match v {
        StoreValue::Data(b) => if valid_utf8(b@) {
            Ok(decode_utf8(b@))
        } else {
            Err(DecodeError::InvalidUtf8)
        },
        StoreValue::Status(s) => Ok(s@),
        _ => Err(DecodeError::ExpectedEntryId),
    }
}

/// The elements of a nested array.
pub open spec fn spec_bulk_of(v: StoreValue) -> Result<Seq<StoreValue>, DecodeError> {
    match v {
        StoreValue::Bulk(items) => Ok(items@),
        _ => Err(DecodeError::ExpectedBulk),
    }
}

/// An even run of alternating key and value strings, as pairs.
pub open spec fn spec_field_pairs(items: Seq<StoreValue>) -> Result<
    Seq<(Seq<char>, Seq<char>)>,
    DecodeError,
>
    decreases items.len(),
{
    if items.len() == 0 {
        Ok(Seq::<(Seq<char>, Seq<char>)>::empty())
    } else if items.len() == 1 {
        Err(DecodeError::OddFieldCount)
    } else {
        match spec_str_of(items[0]) {
            Err(e) => Err(e),
            Ok(k) => match spec_str_of(items[1]) {
                Err(e) => Err(e),
                Ok(val) => match spec_field_pairs(items.skip(2)) {
                    Err(e) => Err(e),
                    Ok(rest) => Ok(seq![(k, val)] + rest),
                },
            },
        }
    }
}

/// One stream entry: the pair `[id, fields]`, its id text parsing as an
/// entry id, its fields an even key/value run.
pub open spec fn spec_as_stream_entry(v: StoreValue) -> Result<
    (EntryId, Seq<(Seq<char>, Seq<char>)>),
    DecodeError,
> {
    match spec_bulk_of(v) {
        Err(e) => Err(e),
        Ok(entry) => if entry.len() != 2 {
            Err(DecodeError::MalformedStreamEntry)
        } else {
            match spec_entry_id_text_of(entry[0]) {
                Err(e) => Err(e),
                Ok(idt) => match spec_parse_entry_id(idt) {
                    None => Err(DecodeError::IllegalEntryId),
                    Some(id) => match spec_bulk_of(entry[1]) {
                        Err(e) => Err(e),
                        Ok(items) => if items.len() % 2 != 0 {
                            Err(DecodeError::OddFieldCount)
                        } else {
                            match spec_field_pairs(items) {
                                Err(e) => Err(e),
                                Ok(pairs) => Ok((id, pairs)),
                            }
                        },
                    },
                },
            }
        },
    }
}

/// A run of stream entries, in delivered order.
pub open spec fn spec_entries(entries: Seq<StoreValue>) -> Result<
    Seq<(EntryId, Seq<(Seq<char>, Seq<char>)>)>,
    DecodeError,
>
    decreases entries.len(),
{
    if entries.len() == 0 {
        Ok(Seq::<(EntryId, Seq<(Seq<char>, Seq<char>)>)>::empty())
    } else {
        match spec_as_stream_entry(entries[0]) {
            Err(e) => Err(e),
            Ok(se) => match spec_entries(entries.drop_first()) {
                Err(e) => Err(e),
                Ok(rest) => Ok(seq![se] + rest),
            },
        }
    }
}

/// A whole stream-read reply: nil on timeout, else a single stream whose
/// second element holds the entries.
pub open spec fn spec_decode_stream_reply(v: StoreValue) -> Result<
    Seq<(EntryId, Seq<(Seq<char>, Seq<char>)>)>,
    DecodeError,
> {
    if v is Nil {
        Ok(Seq::<(EntryId, Seq<(Seq<char>, Seq<char>)>)>::empty())
    } else {
        match spec_bulk_of(v) {
            Err(e) => Err(e),
            Ok(streams) => if streams.len() != 1 {
                Err(DecodeError::UnexpectedStreamCount)
            } else {
                match spec_bulk_of(streams[0]) {
                    Err(e) => Err(e),
                    Ok(nte) => if nte.len() < 2 {
                        Err(DecodeError::MalformedReply)
                    } else {
                        match spec_bulk_of(nte[1]) {
                            Err(e) => Err(e),
                            Ok(entries) => spec_entries(entries),
                        }
                    },
                }
            },
        }
    }
}

/// The field pairs of an entry, as the views of its strings.
pub open spec fn pairs_view(v: Seq<(String, String)>) -> Seq<(Seq<char>, Seq<char>)> {
    v.map_values(|p: (String, String)| (p.0@, p.1@))
}

/// The decoded entries, as the views of their field maps.
pub open spec fn entries_view(v: Seq<(EntryId, Vec<(String, String)>)>) -> Seq<
    (EntryId, Seq<(Seq<char>, Seq<char>)>),
> {
    v.map_values(|e: (EntryId, Vec<(String, String)>)| (e.0, pairs_view(e.1@)))
}

/// Relies on `String::from_utf8`: it succeeds exactly on valid UTF-8, and
/// the returned string's characters are the bytes' decoding.
#[verifier::external_body]
fn string_from_utf8(bytes: &Vec<u8>) -> (r: Option<String>)
    ensures
        r is Some <==> valid_utf8(bytes@),
        r is Some ==> r->0@ == decode_utf8(bytes@),
{
    String::from_utf8(bytes.clone()).ok()
}

/// A timed-out blocking read answers nil.
fn is_nil(value: &StoreValue) -> (b: bool)
    ensures
        b == (value is Nil),
{
    match value {
        StoreValue::Nil => true,
        _ => false,
    }
}

/// The UTF-8 text of a binary string value.
pub fn as_string(value: &StoreValue) -> (r: Result<String, DecodeError>)
    ensures
        match r {
            Ok(s) => spec_str_of(*value) == Ok::<Seq<char>, DecodeError>(s@),
            Err(e) => spec_str_of(*value) == Err::<Seq<char>, DecodeError>(e),
        },
{
    match value {
        StoreValue::Data(bytes) => match string_from_utf8(bytes) {
            Some(s) => Ok(s),
            None => Err(DecodeError::InvalidUtf8),
        },
        _ => Err(DecodeError::ExpectedData),
    }
}

/// The text naming an entry id.
pub fn as_entry_id(value: &StoreValue) -> (r: Result<String, DecodeError>)
    ensures
        match r {
            Ok(s) => spec_entry_id_text_of(*value) == Ok::<Seq<char>, DecodeError>(s@),
            Err(e) => spec_entry_id_text_of(*value) == Err::<Seq<char>, DecodeError>(e),
        },
{
    match value {
        StoreValue::Data(bytes) => match string_from_utf8(bytes) {
            Some(s) => Ok(s),
            None => Err(DecodeError::InvalidUtf8),
        },
        StoreValue::Status(s) => Ok(s.clone()),
        _ => Err(DecodeError::ExpectedEntryId),
    }
}

/// The elements of a nested array value.
pub fn as_bulk(value: &StoreValue) -> (r: Result<&Vec<StoreValue>, DecodeError>)
    ensures
        match r {
            Ok(items) => spec_bulk_of(*value) == Ok::<Seq<StoreValue>, DecodeError>(items@),
            Err(e) => spec_bulk_of(*value) == Err::<Seq<StoreValue>, DecodeError>(e),
        },
{
    match value {
        StoreValue::Bulk(items) => Ok(items),
        _ => Err(DecodeError::ExpectedBulk),
    }
}

/// Decodes the key/value run from position `i` on.
fn field_pairs_at(items: &Vec<StoreValue>, i: usize) -> (r: Result<
    Vec<(String, String)>,
    DecodeError,
>)
    requires
        i <= items@.len(),
    ensures
        match r {
            Ok(v) => spec_field_pairs(items@.skip(i as int)) == Ok::<
                Seq<(Seq<char>, Seq<char>)>,
                DecodeError,
            >(pairs_view(v@)),
            Err(e) => spec_field_pairs(items@.skip(i as int)) == Err::<
                Seq<(Seq<char>, Seq<char>)>,
                DecodeError,
            >(e),
        },
    decreases items@.len() - i,
{
    let ghost t = items@.skip(i as int);
    proof {
        assert forall|k: int| 0 <= k < t.len() implies #[trigger] t[k] == items@[i + k] by {}
    }
    let n = items.len();
    if i == n {
        let v: Vec<(String, String)> = Vec::new();
        proof {
            assert(pairs_view(v@) =~= Seq::<(Seq<char>, Seq<char>)>::empty());
        }
        return Ok(v);
    }
    if n - i == 1 {
        return Err(DecodeError::OddFieldCount);
    }
    let key = match as_string(&items[i]) {
        Ok(key) => key,
        Err(e) => {
            return Err(e);
        },
    };
    let val = match as_string(&items[i + 1]) {
        Ok(val) => val,
        Err(e) => {
            return Err(e);
        },
    };
    let mut rest = match field_pairs_at(items, i + 2) {
        Ok(rest) => rest,
        Err(e) => {
            proof {
                assert(t.skip(2) =~= items@.skip(i + 2));
            }
            return Err(e);
        },
    };
    proof {
        assert(t.skip(2) =~= items@.skip(i + 2));
    }
    let ghost rv = rest@;
    rest.insert(0, (key, val));
    proof {
        assert(pairs_view(rest@) =~= seq![(rest@[0].0@, rest@[0].1@)] + pairs_view(rv));
    }
    Ok(rest)
}

/// Decodes one stream entry: the `[id, fields]` pair.
pub fn as_stream_entry(value: &StoreValue) -> (r: Result<
    (EntryId, Vec<(String, String)>),
    DecodeError,
>)
    ensures
        match r {
            Ok(se) => spec_as_stream_entry(*value) == Ok::<
                (EntryId, Seq<(Seq<char>, Seq<char>)>),
                DecodeError,
            >((se.0, pairs_view(se.1@))),
            Err(e) => spec_as_stream_entry(*value) == Err::<
                (EntryId, Seq<(Seq<char>, Seq<char>)>),
                DecodeError,
            >(e),
        },
{
    let entry = match as_bulk(value) {
        Ok(entry) => entry,
        Err(e) => {
            return Err(e);
        },
    };
    if entry.len() != 2 {
        return Err(DecodeError::MalformedStreamEntry);
    }
    let id_text = match as_entry_id(&entry[0]) {
        Ok(id_text) => id_text,
        Err(e) => {
            return Err(e);
        },
    };
    let id = match EntryId::from_str(id_text.as_str()) {
        Ok(id) => id,
        Err(_) => {
            return Err(DecodeError::IllegalEntryId);
        },
    };
    let items = match as_bulk(&entry[1]) {
        Ok(items) => items,
        Err(e) => {
            return Err(e);
        },
    };
    if items.len() % 2 != 0 {
        return Err(DecodeError::OddFieldCount);
    }
    let pairs = match field_pairs_at(items, 0) {
        Ok(pairs) => pairs,
        Err(e) => {
            proof {
                assert(items@.skip(0) =~= items@);
            }
            return Err(e);
        },
    };
    proof {
        assert(items@.skip(0) =~= items@);
    }
    Ok((id, pairs))
}

/// Decodes the entry list from position `i` on.
fn entries_at(entries: &Vec<StoreValue>, i: usize) -> (r: Result<
    Vec<(EntryId, Vec<(String, String)>)>,
    DecodeError,
>)
    requires
        i <= entries@.len(),
    ensures
        match r {
            Ok(v) => spec_entries(entries@.skip(i as int)) == Ok::<
                Seq<(EntryId, Seq<(Seq<char>, Seq<char>)>)>,
                DecodeError,
            >(entries_view(v@)),
            Err(e) => spec_entries(entries@.skip(i as int)) == Err::<
                Seq<(EntryId, Seq<(Seq<char>, Seq<char>)>)>,
                DecodeError,
            >(e),
        },
    decreases entries@.len() - i,
{
    let ghost t = entries@.skip(i as int);
    proof {
        assert forall|k: int| 0 <= k < t.len() implies #[trigger] t[k] == entries@[i + k] by {}
    }
    let n = entries.len();
    if i == n {
        let v: Vec<(EntryId, Vec<(String, String)>)> = Vec::new();
        proof {
            assert(entries_view(v@) =~= Seq::<(EntryId, Seq<(Seq<char>, Seq<char>)>)>::empty());
        }
        return Ok(v);
    }
    let se = match as_stream_entry(&entries[i]) {
        Ok(se) => se,
        Err(e) => {
            return Err(e);
        },
    };
    let mut rest = match entries_at(entries, i + 1) {
        Ok(rest) => rest,
        Err(e) => {
            proof {
                assert(t.drop_first() =~= entries@.skip(i + 1));
            }
            return Err(e);
        },
    };
    proof {
        assert(t.drop_first() =~= entries@.skip(i + 1));
    }
    let ghost rv = rest@;
    let ghost sev = (se.0, pairs_view(se.1@));
    rest.insert(0, se);
    proof {
        assert(entries_view(rest@) =~= seq![sev] + entries_view(rv));
    }
    Ok(rest)
}

/// Decodes a whole stream-read reply: an empty batch on a nil reply, the
/// single queried stream's entries otherwise, and an error — never a
/// panic — on any other shape.
pub fn decode_stream_reply(streams: &StoreValue) -> (r: Result<
    Vec<(EntryId, Vec<(String, String)>)>,
    DecodeError,
>)
    ensures
        match r {
            Ok(v) => spec_decode_stream_reply(*streams) == Ok::<
                Seq<(EntryId, Seq<(Seq<char>, Seq<char>)>)>,
                DecodeError,
            >(entries_view(v@)),
            Err(e) => spec_decode_stream_reply(*streams) == Err::<
                Seq<(EntryId, Seq<(Seq<char>, Seq<char>)>)>,
                DecodeError,
            >(e),
        },
{
    if is_nil(streams) {
        let v: Vec<(EntryId, Vec<(String, String)>)> = Vec::new();
        proof {
            assert(entries_view(v@) =~= Seq::<(EntryId, Seq<(Seq<char>, Seq<char>)>)>::empty());
        }
        return Ok(v);
    }
    let stream_list = match as_bulk(streams) {
        Ok(stream_list) => stream_list,
        Err(e) => {
            return Err(e);
        },
    };
    if stream_list.len() != 1 {
        return Err(DecodeError::UnexpectedStreamCount);
    }
    let name_to_entries = match as_bulk(&stream_list[0]) {
        Ok(name_to_entries) => name_to_entries,
        Err(e) => {
            return Err(e);
        },
    };
    if name_to_entries.len() < 2 {
        return Err(DecodeError::MalformedReply);
    }
    let entry_values = match as_bulk(&name_to_entries[1]) {
        Ok(entry_values) => entry_values,
        Err(e) => {
            return Err(e);
        },
    };
    match entries_at(entry_values, 0) {
        Ok(v) => {
            proof {
                assert(entry_values@.skip(0) =~= entry_values@);
            }
            Ok(v)
        },
        Err(e) => {
            proof {
                assert(entry_values@.skip(0) =~= entry_values@);
            }
            Err(e)
        },
    }
}

} // verus!
