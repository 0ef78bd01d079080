//! The two value types every other module speaks of: which relay, and
//! whether it is on or off.

use vstd::prelude::*;

verus! {

/// One of the eight relays on the board. Immutable value, used as a key.
#[derive(Copy, Clone, Debug, Hash, PartialEq, Eq, Structural)]
pub enum RelayId {
    Relay1,
    Relay2,
    Relay3,
    Relay4,
    Relay5,
    Relay6,
    Relay7,
    Relay8,
}

/// The commanded state of a relay.
#[derive(Copy, Clone, Debug, Hash, PartialEq, Eq, Structural)]
pub enum RelayState {
    On,
    Off,
}

impl RelayId {
    /// Zero-based position of the relay, as the codeword encoder counts them.
    pub open spec fn spec_position(self) -> int {
        match self {
            RelayId::Relay1 => 0,
            RelayId::Relay2 => 1,
            RelayId::Relay3 => 2,
            RelayId::Relay4 => 3,
            RelayId::Relay5 => 4,
            RelayId::Relay6 => 5,
            RelayId::Relay7 => 6,
            RelayId::Relay8 => 7,
        }
    }

    /// The relay whose decimal digit is `c`, as command fields and snapshots
    /// write it: `'1'` through `'8'`.
    pub open spec fn spec_of_digit(c: char) -> Option<RelayId> {
        match c {
            '1' => Some(RelayId::Relay1),
            '2' => Some(RelayId::Relay2),
            '3' => Some(RelayId::Relay3),
            '4' => Some(RelayId::Relay4),
            '5' => Some(RelayId::Relay5),
            '6' => Some(RelayId::Relay6),
            '7' => Some(RelayId::Relay7),
            '8' => Some(RelayId::Relay8),
            _ => None,
        }
    }

    /// The decimal digit naming this relay, inverse of `spec_of_digit`.
    pub open spec fn spec_digit(self) -> char {
        match self {
            RelayId::Relay1 => '1',
            RelayId::Relay2 => '2',
            RelayId::Relay3 => '3',
            RelayId::Relay4 => '4',
            RelayId::Relay5 => '5',
            RelayId::Relay6 => '6',
            RelayId::Relay7 => '7',
            RelayId::Relay8 => '8',
        }
    }

    pub fn position(&self) -> (i: usize)
        ensures
            i == self.spec_position(),
    {
        match self {
            RelayId::Relay1 => 0,
            RelayId::Relay2 => 1,
            RelayId::Relay3 => 2,
            RelayId::Relay4 => 3,
            RelayId::Relay5 => 4,
            RelayId::Relay6 => 5,
            RelayId::Relay7 => 6,
            RelayId::Relay8 => 7,
        }
    }

    pub fn of_digit(c: char) -> (r: Option<RelayId>)
        ensures
            r == Self::spec_of_digit(c),
    {
        match c {
            '1' => Some(RelayId::Relay1),
            '2' => Some(RelayId::Relay2),
            '3' => Some(RelayId::Relay3),
            '4' => Some(RelayId::Relay4),
            '5' => Some(RelayId::Relay5),
            '6' => Some(RelayId::Relay6),
            '7' => Some(RelayId::Relay7),
            '8' => Some(RelayId::Relay8),
            _ => None,
        }
    }

    pub fn digit(&self) -> (c: char)
        ensures
            c == self.spec_digit(),
    {
        match self {
            RelayId::Relay1 => '1',
            RelayId::Relay2 => '2',
            RelayId::Relay3 => '3',
            RelayId::Relay4 => '4',
            RelayId::Relay5 => '5',
            RelayId::Relay6 => '6',
            RelayId::Relay7 => '7',
            RelayId::Relay8 => '8',
        }
    }

    /// All eight relays, in board order. The governor seeds its timers from
    /// this list, and cold start walks it.
    pub fn all() -> (v: Vec<RelayId>)
        ensures
            v@.len() == 8,
            forall|i: int| 0 <= i < 8 ==> (#[trigger] v@[i]).spec_position() == i,
    {
        let v = vec![
            RelayId::Relay1,
            RelayId::Relay2,
            RelayId::Relay3,
            RelayId::Relay4,
            RelayId::Relay5,
            RelayId::Relay6,
            RelayId::Relay7,
            RelayId::Relay8,
        ];
        v
    }
}

/// The relay standing at a zero-based position, inverse of
/// `spec_position`.
pub open spec fn spec_relay_at(i: int) -> RelayId {
    if i == 0 {
        RelayId::Relay1
    } else if i == 1 {
        RelayId::Relay2
    } else if i == 2 {
        RelayId::Relay3
    } else if i == 3 {
        RelayId::Relay4
    } else if i == 4 {
        RelayId::Relay5
    } else if i == 5 {
        RelayId::Relay6
    } else if i == 6 {
        RelayId::Relay7
    } else {
        RelayId::Relay8
    }
}

pub fn relay_at(i: usize) -> (r: RelayId)
    requires
        i < 8,
    ensures
        r == spec_relay_at(i as int),
{
    if i == 0 {
        RelayId::Relay1
    } else if i == 1 {
        RelayId::Relay2
    } else if i == 2 {
        RelayId::Relay3
    } else if i == 3 {
        RelayId::Relay4
    } else if i == 4 {
        RelayId::Relay5
    } else if i == 5 {
        RelayId::Relay6
    } else if i == 6 {
        RelayId::Relay7
    } else {
        RelayId::Relay8
    }
}

/// Position and relay determine each other.
pub proof fn lemma_relay_position_round_trip(r: RelayId, i: int)
    ensures
        spec_relay_at(r.spec_position()) == r,
        0 <= i < 8 ==> spec_relay_at(i).spec_position() == i,
{
}

/// Digit round trip: every relay's digit names that relay back.
pub proof fn lemma_relay_digit_round_trip(r: RelayId)
    ensures
        RelayId::spec_of_digit(r.spec_digit()) == Some(r),
{
}

} // verus!
