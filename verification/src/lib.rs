//! Drives remote-controlled power relays from a replayable command log.
//!
//! The crate covers the consumption pipeline that turns an ordered log of
//! commands into reconciled, idempotent hardware state: command decoding,
//! last-write-wins batch reduction, crash-safe cursor handling, the RF
//! tri-state codeword encoder, and a staleness-based safety governor.
//! Store and pin I/O live outside the crate; the library computes what to
//! send and persist, and records what was driven.

pub mod errors;
pub mod entry_id;
pub mod governor;
pub mod pipeline;
pub mod rcs;
pub mod rm8;
pub mod rm8_ctl;
pub mod rm8_types;
pub mod shim;
pub mod snapshot;
pub mod states;
pub mod store_value;
