//! Error values of the library.
//!
//! Malformed individual log entries are recovered locally by the pipeline;
//! everything here is either such a local decode failure or a fatal
//! protocol-shape failure against the durable store.

use vstd::prelude::*;

verus! {

/// Why a wire value or a piece of stored text could not be decoded.
#[derive(Clone, Copy, Debug, PartialEq, Eq, Structural)]
pub enum DecodeError {
    /// An entry id string is not `<u64>-<u32>`.
    IllegalEntryId,
    /// A nested-array value was expected and something else arrived.
    ExpectedBulk,
    /// A binary-string value was expected and something else arrived.
    ExpectedData,
    /// An entry id value was neither binary string nor status string.
    ExpectedEntryId,
    /// A binary string did not hold valid UTF-8.
    InvalidUtf8,
    /// The reply named more or fewer streams than the single one queried.
    UnexpectedStreamCount,
    /// A stream entry was not the `[id, fields]` pair the protocol promises.
    MalformedStreamEntry,
    /// A stream in the reply was missing its name or its entry list.
    MalformedReply,
    /// An entry's field list had an odd number of items.
    OddFieldCount,
    /// A persisted snapshot string did not parse back into relay states.
    IllegalSnapshot,
}

} // verus!
