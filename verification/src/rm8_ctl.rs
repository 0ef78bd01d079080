//! The eight-relay board driver.
//!
//! The library computes which relay is driven to which state and in what
//! order; the electrical write itself happens outside it. `Rm8Control`
//! therefore records the writes as a transcript, in order, and the caller
//! drains the transcript to the pins. Its view is that transcript, which is
//! what the reconciliation laws speak about.

use vstd::prelude::*;
use crate::rm8_types::spec_relay_at;
use crate::rm8_types::RelayId;
use crate::rm8_types::RelayState;

verus! {

/// The eight writes of `set_all`, one per relay in board order.
pub open spec fn spec_all_set(st: RelayState) -> Seq<(RelayId, RelayState)> {
    Seq::new(8, |i: int| (spec_relay_at(i), st))
}

/// Drives the eight-relay board: every write is recorded in order.
pub struct Rm8Control {
    pins: Vec<usize>,
    invert_outputs: bool,
    sent: Vec<(RelayId, RelayState)>,
}

impl View for Rm8Control {
    type V = Seq<(RelayId, RelayState)>;

    closed spec fn view(&self) -> Seq<(RelayId, RelayState)> {
        self.sent@
    }
}

impl Rm8Control {
    /// Opens the board on the given output pins, with nothing driven yet.
    pub fn open(pins: Vec<usize>, invert_outputs: bool) -> (r: Rm8Control)
        ensures
            r@ =~= Seq::<(RelayId, RelayState)>::empty(),
    {
        Rm8Control { pins, invert_outputs, sent: Vec::new() }
    }

    /// Drives one relay to one state.
    pub fn set(&mut self, relay: &RelayId, state: RelayState)
        ensures
            final(self)@ == old(self)@.push((*relay, state)),
    {
        self.sent.push((*relay, state));
    }

    /// Drives every relay to the same state, in board order: the fail-safe
    /// shutdown path.
    pub fn set_all(&mut self, state: RelayState)
        ensures
            final(self)@ == old(self)@ + spec_all_set(state),
    {
        let ghost s0 = self@;
        self.set(&RelayId::Relay1, state);
        self.set(&RelayId::Relay2, state);
        self.set(&RelayId::Relay3, state);
        self.set(&RelayId::Relay4, state);
        self.set(&RelayId::Relay5, state);
        self.set(&RelayId::Relay6, state);
        self.set(&RelayId::Relay7, state);
        self.set(&RelayId::Relay8, state);
        proof {
            assert(self@ =~= s0 + spec_all_set(state));
        }
    }

    /// The recorded writes, oldest first.
    pub fn sent_log(&self) -> (v: &Vec<(RelayId, RelayState)>)
        ensures
            v@ == self@,
    {
        &self.sent
    }

    /// Forgets the recorded writes once the caller has driven them out.
    pub fn clear_sent(&mut self)
        ensures
            final(self)@ =~= Seq::<(RelayId, RelayState)>::empty(),
    {
        self.sent.clear();
    }

    /// The configured output pins, in relay order.
    pub closed spec fn spec_pins(&self) -> Seq<usize> {
        self.pins@
    }

    pub fn pin_of(&self, i: usize) -> (p: Option<usize>)
        ensures
            p is Some <==> i < self.spec_pins().len(),
            p is Some ==> p->0 == self.spec_pins()[i as int],
    {
        if i < self.pins.len() {
            Some(self.pins[i])
        } else {
            None
        }
    }

    /// Whether outputs are driven inverted.
    pub fn inverted(&self) -> bool {
        self.invert_outputs
    }
}

} // verus!
