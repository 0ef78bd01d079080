//! The fixed-address eight-relay remote control.
//!
//! In this scheme the codeword's leading segment one-hot-selects the
//! target among eight relays, and the two-symbol state segment follows
//! directly. The transmitter here is the simple non-RF deployment: it
//! drives its pin high for On and low for Off, recording each level for
//! the caller to write out.

use vstd::prelude::*;
use crate::rcs::spec_one_hot;

verus! {

/// One of the eight relays this remote controls.
#[derive(Clone, Copy, Debug, Hash, PartialEq, Eq, Structural)]
pub enum Relay {
    Relay1,
    Relay2,
    Relay3,
    Relay4,
    Relay5,
    Relay6,
    Relay7,
    Relay8,
}

/// The desired relay state.
#[derive(Clone, Copy, Debug, Hash, PartialEq, Eq, Structural)]
pub enum RelayState {
    On,
    Off,
}

impl Relay {
    pub open spec fn spec_index(&self) -> int {
        match self {
            Relay::Relay1 => 0,
            Relay::Relay2 => 1,
            Relay::Relay3 => 2,
            Relay::Relay4 => 3,
            Relay::Relay5 => 4,
            Relay::Relay6 => 5,
            Relay::Relay7 => 6,
            Relay::Relay8 => 7,
        }
    }

    /// Appends the one-hot relay-selection segment: eight symbol slots.
    fn add_bits(&self, buf: &mut Vec<u8>)
        ensures
            final(buf)@ == old(buf)@ + spec_one_hot(self.spec_index(), 8),
    {
        let idx: usize = match self {
            Relay::Relay1 => 0,
            Relay::Relay2 => 1,
            Relay::Relay3 => 2,
            Relay::Relay4 => 3,
            Relay::Relay5 => 4,
            Relay::Relay6 => 5,
            Relay::Relay7 => 6,
            Relay::Relay8 => 7,
        };
        crate::rcs::add_one_hot(buf, idx, 8);
    }
}

impl RelayState {
    pub open spec fn spec_index(&self) -> int {
        match self {
            RelayState::On => 0,
            RelayState::Off => 1,
        }
    }

    /// Appends the one-hot state-selection segment.
    fn add_bits(&self, buf: &mut Vec<u8>)
        ensures
            final(buf)@ == old(buf)@ + spec_one_hot(self.spec_index(), 2),
    {
        let idx: usize = match self {
            RelayState::On => 0,
            RelayState::Off => 1,
        };
        crate::rcs::add_one_hot(buf, idx, 2);
    }
}

/// The fixed-address codeword: the eight-slot relay selection, then the
/// two-symbol state selection.
pub open spec fn spec_rm8_code_word(relay: &Relay, state: &RelayState) -> Seq<u8> {
    spec_one_hot(relay.spec_index(), 8) + spec_one_hot(state.spec_index(), 2)
}

/// Builds the ten-symbol codeword for one relay and state.
pub fn get_code_word(relay: &Relay, state: &RelayState) -> (r: Vec<u8>)
    ensures
        r@ == spec_rm8_code_word(relay, state),
        r@.len() == 10,
{
    let mut buf: Vec<u8> = Vec::new();
    relay.add_bits(&mut buf);
    state.add_bits(&mut buf);
    proof {
        assert(buf@ =~= spec_rm8_code_word(relay, state));
    }
    buf
}

/// Drives one relay directly through one output pin: high for On, low
/// for Off, every level recorded for the caller to write out.
pub struct RemoteControl {
    pin: usize,
    levels: Vec<bool>,
}

impl View for RemoteControl {
    type V = Seq<bool>;

    closed spec fn view(&self) -> Seq<bool> {
        self.levels@
    }
}

impl RemoteControl {
    pub closed spec fn spec_pin(&self) -> usize {
        self.pin
    }

    /// Opens the control on one output pin, with nothing driven yet.
    pub fn open(pin: usize) -> (r: RemoteControl)
        ensures
            r@ =~= Seq::<bool>::empty(),
            r.spec_pin() == pin,
    {
        RemoteControl { pin, levels: Vec::new() }
    }

    /// Drives the pin high for On, low for Off.
    pub fn send(&mut self, relay: &Relay, state: RelayState)
        ensures
            final(self)@ == old(self)@.push(state is On),
            final(self).spec_pin() == old(self).spec_pin(),
    {
        let value = match state {
            RelayState::On => true,
            RelayState::Off => false,
        };
        self.levels.push(value);
    }

    /// The recorded pin levels, oldest first.
    pub fn level_log(&self) -> (v: &Vec<bool>)
        ensures
            v@ == self@,
    {
        &self.levels
    }

    /// Forgets the recorded levels once the caller has written them out.
    pub fn clear_levels(&mut self)
        ensures
            final(self)@ =~= Seq::<bool>::empty(),
            final(self).spec_pin() == old(self).spec_pin(),
    {
        self.levels.clear();
    }

    pub fn pin(&self) -> (p: usize)
        ensures
            p == self.spec_pin(),
    {
        self.pin
    }
}

} // verus!
