//! The RF tri-state encoder and transmitter for remote-control sockets.
//!
//! A relay address and desired state become a twelve-symbol codeword over
//! `{'0','1','F'}`, and the codeword becomes a pulse train: per symbol two
//! high/low pulse pairs, a sync pair after each pass, the whole pass
//! repeated ten times — there is no acknowledgement channel, reliability
//! comes purely from repetition. The library builds the exact pulse
//! train; the caller busy-drives the pin through it, one unit lasting
//! `PULSE_LENGTH` microseconds.

use vstd::prelude::*;

verus! {

/// The base timing quantum in microseconds: every pulse lasts a small
/// integer multiple of it.
pub const PULSE_LENGTH: usize = 300;

/// The codeword symbol `'0'`.
pub const SYMBOL_0: u8 = 48;

/// The codeword symbol `'1'`.
pub const SYMBOL_1: u8 = 49;

/// The codeword symbol `'F'`.
pub const SYMBOL_F: u8 = 70;

/// One pulse pair: the pin held high for `high_units` units, then low for
/// `low_units` units.
#[derive(Clone, Copy, Debug, PartialEq, Eq, Structural)]
pub struct Pulse {
    pub high_units: u32,
    pub low_units: u32,
}

/// A five-position socket group switch.
pub enum SwitchCode {
    SwitchA,
    SwitchB,
    SwitchC,
    SwitchD,
    SwitchE,
}

/// The desired socket state.
pub enum SwitchState {
    On,
    Off,
}

/// A socket address: a five-bit system code and a group switch.
pub struct Switch {
    system_code: [bool; 5],
    switch_code: SwitchCode,
}

impl SwitchCode {
    pub open spec fn spec_index(&self) -> int {
        match self {
            SwitchCode::SwitchA => 0,
            SwitchCode::SwitchB => 1,
            SwitchCode::SwitchC => 2,
            SwitchCode::SwitchD => 3,
            SwitchCode::SwitchE => 4,
        }
    }
}

impl SwitchState {
    pub open spec fn spec_index(&self) -> int {
        match self {
            SwitchState::On => 0,
            SwitchState::Off => 1,
        }
    }
}

/// A one-hot segment: `'0'` at the selected position, `'F'` everywhere
/// else.
pub open spec fn spec_one_hot(idx: int, len: int) -> Seq<u8> {
    Seq::new(
        len as nat,
        |i: int|
            if i == idx {
                SYMBOL_0
            } else {
                SYMBOL_F
            },
    )
}

/// The system-code segment: a set bit encodes as `'0'`, a clear bit as
/// `'F'`.
pub open spec fn spec_system_bits(system: Seq<bool>) -> Seq<u8> {
    Seq::new(
        system.len(),
        |i: int|
            if system[i] {
                SYMBOL_0
            } else {
                SYMBOL_F
            },
    )
}

/// The twelve-symbol codeword: five system symbols, the one-hot switch
/// selection among five, and the two-symbol one-hot state selection —
/// On is `0F`, Off is `F0`.
pub open spec fn spec_code_word(system: Seq<bool>, switch: &SwitchCode, state: &SwitchState) -> Seq<
    u8,
> {
    spec_system_bits(system) + spec_one_hot(switch.spec_index(), 5) + spec_one_hot(
        state.spec_index(),
        2,
    )
}

impl Switch {
    pub closed spec fn spec_system_code(&self) -> Seq<bool> {
        self.system_code@
    }

    pub closed spec fn spec_switch_code(&self) -> &SwitchCode {
        &self.switch_code
    }

    pub fn new(system_code: &[bool; 5], switch_code: SwitchCode) -> (r: Switch)
        ensures
            r.spec_system_code() == system_code@,
            *r.spec_switch_code() == switch_code,
    {
        let system_code = *system_code;
        Switch { system_code, switch_code }
    }
}

/// Appends a one-hot segment of the given length.
pub(crate) fn add_one_hot(buf: &mut Vec<u8>, idx: usize, len: usize)
    requires
        idx < len,
    ensures
        final(buf)@ == old(buf)@ + spec_one_hot(idx as int, len as int),
{
    let ghost b0 = buf@;
    for i in 0..len
        invariant
            buf@.len() == b0.len() + i,
            forall|k: int|
                b0.len() <= k < b0.len() + i ==> #[trigger] buf@[k] == (if k - b0.len() == idx {
                    SYMBOL_0
                } else {
                    SYMBOL_F
                }),
            forall|k: int| 0 <= k < b0.len() ==> buf@[k] == b0[k],
    {
        if i == idx {
            buf.push(SYMBOL_0);
        } else {
            buf.push(SYMBOL_F);
        }
    }
    proof {
        assert(buf@ =~= b0 + spec_one_hot(idx as int, len as int));
    }
}

impl SwitchCode {
    /// Appends the one-hot switch-selection segment.
    fn add_bits(&self, buf: &mut Vec<u8>)
        ensures
            final(buf)@ == old(buf)@ + spec_one_hot(self.spec_index(), 5),
    {
        let idx: usize = match self {
            SwitchCode::SwitchA => 0,
            SwitchCode::SwitchB => 1,
            SwitchCode::SwitchC => 2,
            SwitchCode::SwitchD => 3,
            SwitchCode::SwitchE => 4,
        };
        add_one_hot(buf, idx, 5);
    }
}

impl SwitchState {
    /// Appends the one-hot state-selection segment.
    fn add_bits(&self, buf: &mut Vec<u8>)
        ensures
            final(buf)@ == old(buf)@ + spec_one_hot(self.spec_index(), 2),
    {
        let idx: usize = match self {
            SwitchState::On => 0,
            SwitchState::Off => 1,
        };
        add_one_hot(buf, idx, 2);
    }
}

/// Builds the codeword for an address and state. Encoding is a pure
/// function of its inputs: the same inputs always yield the identical
/// twelve symbols.
pub fn get_code_word(system: &[bool; 5], switch: &SwitchCode, state: &SwitchState) -> (r: Vec<u8>)
    ensures
        r@ == spec_code_word(system@, switch, state),
        r@.len() == 12,
{
    let mut buf: Vec<u8> = Vec::new();
    let ghost b0 = buf@;
    for i in 0..5usize
        invariant
            buf@.len() == i,
            forall|k: int|
                0 <= k < i ==> buf@[k] == (if system@[k] {
                    SYMBOL_0
                } else {
                    SYMBOL_F
                }),
    {
        if system[i] {
            buf.push(SYMBOL_0);
        } else {
            buf.push(SYMBOL_F);
        }
    }
    proof {
        assert(buf@ =~= spec_system_bits(system@));
    }
    switch.add_bits(&mut buf);
    state.add_bits(&mut buf);
    proof {
        assert(buf@ =~= spec_code_word(system@, switch, state));
    }
    buf
}

// --- the waveform ---

/// The pulse pairs one symbol transmits: `'0'` is the short-long pair
/// twice, `'1'` the long-short pair twice, `'F'` one of each; anything
/// else transmits nothing.
pub open spec fn spec_symbol_pulses(c: u8) -> Seq<Pulse> {
    if c == SYMBOL_0 {
        seq![
            Pulse { high_units: 1, low_units: 3 },
            Pulse { high_units: 1, low_units: 3 },
        ]
    } else if c == SYMBOL_1 {
        seq![
            Pulse { high_units: 3, low_units: 1 },
            Pulse { high_units: 3, low_units: 1 },
        ]
    } else if c == SYMBOL_F {
        seq![
            Pulse { high_units: 1, low_units: 3 },
            Pulse { high_units: 3, low_units: 1 },
        ]
    } else {
        Seq::<Pulse>::empty()
    }
}

/// The sync trailer after each full codeword: one high unit, thirty-one
/// low.
pub open spec fn spec_sync_pulses() -> Seq<Pulse> {
    seq![Pulse { high_units: 1, low_units: 31 }]
}

/// The pulses of the symbols up to position `k`.
pub open spec fn spec_symbols_pulses_upto(w: Seq<u8>, k: int) -> Seq<Pulse>
    decreases k,
{
    if k <= 0 {
        Seq::<Pulse>::empty()
    } else {
        spec_symbols_pulses_upto(w, k - 1) + spec_symbol_pulses(w[k - 1])
    }
}

/// One full pass: every symbol's pulses in order, then the sync trailer.
pub open spec fn spec_pass_pulses(w: Seq<u8>) -> Seq<Pulse> {
    spec_symbols_pulses_upto(w, w.len() as int) + spec_sync_pulses()
}

/// `n` passes back to back.
pub open spec fn spec_repeat_pulses(w: Seq<u8>, n: int) -> Seq<Pulse>
    decreases n,
{
    if n <= 0 {
        Seq::<Pulse>::empty()
    } else {
        spec_repeat_pulses(w, n - 1) + spec_pass_pulses(w)
    }
}

/// The full transmission of a codeword: ten passes.
pub open spec fn spec_tri_state_pulses(w: Seq<u8>) -> Seq<Pulse> {
    spec_repeat_pulses(w, 10)
}

/// Appends one pulse pair.
fn transmit(out: &mut Vec<Pulse>, high_pulses: u32, low_pulses: u32)
    ensures
        final(out)@ == old(out)@.push(
            Pulse { high_units: high_pulses, low_units: low_pulses },
        ),
{
    out.push(Pulse { high_units: high_pulses, low_units: low_pulses });
}

/// Appends a tri-state `'0'` symbol's pulses.
fn send_t0(out: &mut Vec<Pulse>)
    ensures
        final(out)@ == old(out)@ + spec_symbol_pulses(SYMBOL_0),
{
    transmit(out, 1, 3);
    transmit(out, 1, 3);
    proof {
        assert(out@ =~= old(out)@ + spec_symbol_pulses(SYMBOL_0));
    }
}

/// Appends a tri-state `'1'` symbol's pulses.
fn send_t1(out: &mut Vec<Pulse>)
    ensures
        final(out)@ == old(out)@ + spec_symbol_pulses(SYMBOL_1),
{
    transmit(out, 3, 1);
    transmit(out, 3, 1);
    proof {
        assert(out@ =~= old(out)@ + spec_symbol_pulses(SYMBOL_1));
    }
}

/// Appends a tri-state `'F'` symbol's pulses.
fn send_tf(out: &mut Vec<Pulse>)
    ensures
        final(out)@ == old(out)@ + spec_symbol_pulses(SYMBOL_F),
{
    transmit(out, 1, 3);
    transmit(out, 3, 1);
    proof {
        assert(out@ =~= old(out)@ + spec_symbol_pulses(SYMBOL_F));
    }
}

/// Appends the sync trailer.
fn send_sync(out: &mut Vec<Pulse>)
    ensures
        final(out)@ == old(out)@ + spec_sync_pulses(),
{
    transmit(out, 1, 31);
    proof {
        assert(out@ =~= old(out)@ + spec_sync_pulses());
    }
}

/// Appends the whole transmission of a codeword: ten passes of its
/// symbols, each closed by the sync trailer.
pub fn send_tri_state(out: &mut Vec<Pulse>, code_word: &Vec<u8>)
    ensures
        final(out)@ == old(out)@ + spec_tri_state_pulses(code_word@),
{
    let ghost o0 = out@;
    let w = code_word;
    for r in 0..10usize
        invariant
            out@ == o0 + spec_repeat_pulses(w@, r as int),
    {
        let ghost p0 = out@;
        let n = w.len();
        for i in 0..n
            invariant
                n == w@.len(),
                out@ == p0 + spec_symbols_pulses_upto(w@, i as int),
        {
            let c = w[i];
            if c == SYMBOL_0 {
                send_t0(out);
            } else if c == SYMBOL_F {
                send_tf(out);
            } else if c == SYMBOL_1 {
                send_t1(out);
            }
            proof {
                assert(out@ =~= p0 + spec_symbols_pulses_upto(w@, i + 1));
            }
        }
        send_sync(out);
        proof {
            assert(out@ =~= o0 + spec_repeat_pulses(w@, r + 1));
        }
    }
}

/// Drives remote-control sockets through one RF output pin, recording the
/// pulse train for the caller to emit.
pub struct RemoteControl {
    pin: usize,
    pulses: Vec<Pulse>,
}

impl View for RemoteControl {
    type V = Seq<Pulse>;

    closed spec fn view(&self) -> Seq<Pulse> {
        self.pulses@
    }
}

impl RemoteControl {
    pub closed spec fn spec_pin(&self) -> usize {
        self.pin
    }

    /// Opens the transmitter on one output pin, with nothing queued yet.
    pub fn open(pin: usize) -> (r: RemoteControl)
        ensures
            r@ =~= Seq::<Pulse>::empty(),
            r.spec_pin() == pin,
    {
        RemoteControl { pin, pulses: Vec::new() }
    }

    /// Queues the full transmission for one switch and state.
    pub fn send(&mut self, switch: &Switch, state: SwitchState)
        ensures
            final(self)@ == old(self)@ + spec_tri_state_pulses(
                spec_code_word(switch.spec_system_code(), switch.spec_switch_code(), &state),
            ),
            final(self).spec_pin() == old(self).spec_pin(),
    {
        let code_word = get_code_word(&switch.system_code, &switch.switch_code, &state);
        send_tri_state(&mut self.pulses, &code_word);
    }

    /// The queued pulse train, oldest first.
    pub fn pulse_log(&self) -> (v: &Vec<Pulse>)
        ensures
            v@ == self@,
    {
        &self.pulses
    }

    /// Forgets the queued pulses once the caller has driven them out.
    pub fn clear_pulses(&mut self)
        ensures
            final(self)@ =~= Seq::<Pulse>::empty(),
            final(self).spec_pin() == old(self).spec_pin(),
    {
        self.pulses.clear();
    }

    pub fn pin(&self) -> (p: usize)
        ensures
            p == self.spec_pin(),
    {
        self.pin
    }
}

} // verus!
