//! Entry identifiers of the command log.
//!
//! An entry id is a pair `{time, sequence_number}`, totally ordered first by
//! time and then by sequence number, written textually as
//! `"<time>-<sequence>"`. The cursor the pipeline persists is one such id.

use vstd::prelude::*;
use vstd::string::StrSliceExecFns;
use vstd::string::StringExecFns;
use crate::errors::DecodeError;

verus! {

broadcast use vstd::string::group_string_axioms;

/// Identifies one entry of the command log.
#[derive(Clone, Copy, Debug, Hash, PartialEq, Eq, Structural)]
pub struct EntryId {
    pub time: u64,
    pub sequence_number: u32,
}

// --- decimal digits in specifications ---

/// True of the ten ASCII decimal digit characters.
pub open spec fn is_dec_digit(c: char) -> bool {
    48 <= c as u32 <= 57
}

/// Numeric value of a decimal digit character.
pub open spec fn digit_val(c: char) -> int {
    c as u32 - 48
}

/// The decimal digit character for a value below ten.
pub open spec fn digit_char(d: int) -> char {
    if d == 0 {
        '0'
    } else if d == 1 {
        '1'
    } else if d == 2 {
        '2'
    } else if d == 3 {
        '3'
    } else if d == 4 {
        '4'
    } else if d == 5 {
        '5'
    } else if d == 6 {
        '6'
    } else if d == 7 {
        '7'
    } else if d == 8 {
        '8'
    } else {
        '9'
    }
}

pub open spec fn all_dec_digits(s: Seq<char>) -> bool {
    forall|i: int| 0 <= i < s.len() ==> is_dec_digit(#[trigger] s[i])
}

/// Value of a digit string read as a decimal number.
pub open spec fn digits_val(s: Seq<char>) -> int
    decreases s.len(),
{
    if s.len() == 0 {
        0
    } else {
        digits_val(s.drop_last()) * 10 + digit_val(s.last())
    }
}

/// The canonical decimal form of `n`: no sign, no leading zero except for
/// `n == 0` itself.
pub open spec fn dec_chars(n: int) -> Seq<char>
    decreases n,
{
    if n < 10 {
        seq![digit_char(n)]
    } else {
        dec_chars(n / 10) + seq![digit_char(n % 10)]
    }
}

/// A nonempty all-digit string whose value fits in a `u64` parses to that
/// value; anything else is rejected.
pub open spec fn spec_parse_u64(s: Seq<char>) -> Option<u64> {
    if s.len() > 0 && all_dec_digits(s) && digits_val(s) <= u64::MAX {
        Some(digits_val(s) as u64)
    } else {
        None
    }
}

pub open spec fn spec_parse_u32(s: Seq<char>) -> Option<u32> {
    if s.len() > 0 && all_dec_digits(s) && digits_val(s) <= u32::MAX {
        Some(digits_val(s) as u32)
    } else {
        None
    }
}

// --- the entry id grammar ---

/// Position `i` splits `s` into a `u64` time, one `'-'`, and a `u32`
/// sequence number.
pub open spec fn entry_split_ok(s: Seq<char>, i: int) -> bool {
    &&& 0 <= i < s.len()
    &&& s[i] == '-'
    &&& spec_parse_u64(s.subrange(0, i)) is Some
    &&& spec_parse_u32(s.subrange(i + 1, s.len() as int)) is Some
}

/// The parse of an entry id string: defined exactly when some position
/// splits the string as `entry_split_ok` asks. Because both sides must be
/// digits only, at most one position can.
pub open spec fn spec_parse_entry_id(s: Seq<char>) -> Option<EntryId> {
    if exists|i: int| entry_split_ok(s, i) {
        let i = choose|i: int| entry_split_ok(s, i);
        Some(
            EntryId {
                time: spec_parse_u64(s.subrange(0, i))->0,
                sequence_number: spec_parse_u32(s.subrange(i + 1, s.len() as int))->0,
            },
        )
    } else {
        None
    }
}

/// The textual form of an entry id.
pub open spec fn spec_entry_text(id: EntryId) -> Seq<char> {
    dec_chars(id.time as int) + seq!['-'] + dec_chars(id.sequence_number as int)
}

/// Only one position can split a well-formed entry id string.
pub proof fn lemma_entry_split_unique(s: Seq<char>, i: int, j: int)
    requires
        entry_split_ok(s, i),
        entry_split_ok(s, j),
    ensures
        i == j,
{
    if i < j {
        let right = s.subrange(i + 1, s.len() as int);
        assert(right[j - i - 1] == s[j]);
        assert(is_dec_digit(s[j]));
        assert(!is_dec_digit('-'));
    } else if j < i {
        let right = s.subrange(j + 1, s.len() as int);
        assert(right[i - j - 1] == s[i]);
        assert(is_dec_digit(s[i]));
        assert(!is_dec_digit('-'));
    }
}

proof fn lemma_digits_val_nonneg(s: Seq<char>)
    requires
        all_dec_digits(s),
    ensures
        digits_val(s) >= 0,
    decreases s.len(),
{
    if s.len() > 0 {
        assert forall|i: int| 0 <= i < s.drop_last().len() implies is_dec_digit(
            #[trigger] s.drop_last()[i],
        ) by {
            assert(s.drop_last()[i] == s[i]);
        }
        lemma_digits_val_nonneg(s.drop_last());
    }
}

proof fn lemma_digits_val_push(t: Seq<char>, c: char)
    ensures
        digits_val(t.push(c)) == digits_val(t) * 10 + digit_val(c),
{
    assert(t.push(c).drop_last() =~= t);
    assert(t.push(c).last() == c);
}

/// Reading more digits never shrinks the value.
proof fn lemma_digits_val_prefix(s: Seq<char>, k: int)
    requires
        0 <= k <= s.len(),
        all_dec_digits(s),
    ensures
        digits_val(s.subrange(0, k)) <= digits_val(s),
    decreases s.len() - k,
{
    if k == s.len() {
        assert(s.subrange(0, k) =~= s);
    } else {
        let t = s.subrange(0, k);
        assert forall|i: int| 0 <= i < t.len() implies is_dec_digit(#[trigger] t[i]) by {
            assert(t[i] == s[i]);
        }
        lemma_digits_val_nonneg(t);
        assert(s.subrange(0, k + 1) =~= t.push(s[k]));
        lemma_digits_val_push(t, s[k]);
        lemma_digits_val_prefix(s, k + 1);
    }
}

/// With two dashes in it, no position splits the string into two digit
/// runs, so it does not parse.
proof fn lemma_two_dashes_no_parse(s: Seq<char>, d1: int, d2: int)
    requires
        0 <= d1 < s.len(),
        0 <= d2 < s.len(),
        d1 != d2,
        s[d1] == '-',
        s[d2] == '-',
    ensures
        spec_parse_entry_id(s) is None,
{
    assert forall|k: int| !entry_split_ok(s, k) by {
        if entry_split_ok(s, k) {
            let other = if k == d1 {
                d2
            } else {
                d1
            };
            if other < k {
                assert(s.subrange(0, k)[other] == s[other]);
                assert(is_dec_digit(s.subrange(0, k)[other]));
            } else {
                assert(s.subrange(k + 1, s.len() as int)[other - k - 1] == s[other]);
                assert(is_dec_digit(s.subrange(k + 1, s.len() as int)[other - k - 1]));
            }
            assert(!is_dec_digit('-'));
        }
    }
}

proof fn lemma_no_dash_no_parse(s: Seq<char>)
    requires
        forall|j: int| 0 <= j < s.len() ==> s[j] != '-',
    ensures
        spec_parse_entry_id(s) is None,
{
    assert forall|k: int| !entry_split_ok(s, k) by {
        if entry_split_ok(s, k) {
            assert(s[k] == '-');
        }
    }
}

proof fn lemma_single_dash_no_parse(s: Seq<char>, d: int)
    requires
        0 <= d < s.len(),
        s[d] == '-',
        forall|j: int| 0 <= j < s.len() && j != d ==> s[j] != '-',
        !entry_split_ok(s, d),
    ensures
        spec_parse_entry_id(s) is None,
{
    assert forall|k: int| !entry_split_ok(s, k) by {
        if entry_split_ok(s, k) {
            assert(s[k] == '-');
            assert(k == d);
        }
    }
}

/// Parses the decimal run `s[from..to]` as a `u64`, exactly as
/// `spec_parse_u64` reads it.
fn parse_u64_chars(s: &str, from: usize, to: usize) -> (r: Option<u64>)
    requires
        from <= to <= s@.len(),
    ensures
        r == spec_parse_u64(s@.subrange(from as int, to as int)),
{
    let ghost w = s@.subrange(from as int, to as int);
    if from == to {
        proof {
            assert(w =~= Seq::<char>::empty());
        }
        return None;
    }
    let mut value: u64 = 0;
    for j in from..to
        invariant
            from <= j <= to <= s@.len(),
            w == s@.subrange(from as int, to as int),
            all_dec_digits(s@.subrange(from as int, j as int)),
            value as int == digits_val(s@.subrange(from as int, j as int)),
    {
        let ghost prefix = s@.subrange(from as int, j as int);
        let c = s.get_char(j);
        let u = c as u32;
        if u < 48 || u > 57 {
            proof {
                assert(w[j - from] == s@[j as int]);
            }
            return None;
        }
        let d = (u - 48) as u64;
        let overflowed: bool = match value.checked_mul(10) {
            Some(v10) => match v10.checked_add(d) {
                Some(v) => {
                    value = v;
                    false
                },
                None => true,
            },
            None => true,
        };
        proof {
            lemma_digits_val_push(prefix, s@[j as int]);
            assert(s@.subrange(from as int, j + 1) =~= prefix.push(s@[j as int]));
        }
        if overflowed {
            proof {
                if all_dec_digits(w) {
                    assert forall|i: int| 0 <= i < w.len() implies is_dec_digit(
                        #[trigger] w[i],
                    ) by {}
                    assert(s@.subrange(from as int, j + 1) =~= w.subrange(0, j + 1 - from));
                    lemma_digits_val_prefix(w, j + 1 - from);
                }
            }
            return None;
        }
        proof {
            assert forall|i: int| 0 <= i < j + 1 - from implies is_dec_digit(
                #[trigger] s@.subrange(from as int, j + 1)[i],
            ) by {
                if i < j - from {
                    assert(s@.subrange(from as int, j + 1)[i] == prefix[i]);
                } else {
                    assert(s@.subrange(from as int, j + 1)[i] == s@[j as int]);
                }
            }
        }
    }
    proof {
        assert(s@.subrange(from as int, to as int) == w);
    }
    Some(value)
}

impl EntryId {
    pub open spec fn spec_time(self) -> u64 {
        self.time
    }

    pub open spec fn spec_sequence(self) -> u32 {
        self.sequence_number
    }

    /// The order of entry ids, matching the log's native wire ordering.
    pub open spec fn spec_lt(self, other: EntryId) -> bool {
        self.time < other.time || (self.time == other.time
            && self.sequence_number < other.sequence_number)
    }

    /// The id that `next` returns: same time, next sequence number.
    pub open spec fn spec_next(self) -> EntryId {
        EntryId { time: self.time, sequence_number: (self.sequence_number + 1) as u32 }
    }

    pub fn new(time: u64, sequence_number: u32) -> (r: EntryId)
        ensures
            r.spec_time() == time,
            r.spec_sequence() == sequence_number,
    {
        EntryId { time, sequence_number }
    }

    pub fn time(&self) -> (t: u64)
        ensures
            t == self.spec_time(),
    {
        self.time
    }

    pub fn sequence(&self) -> (q: u32)
        ensures
            q == self.spec_sequence(),
    {
        self.sequence_number
    }

    /// Increments the sequence number, leaving the time unchanged.
    pub fn next(&self) -> (r: EntryId)
        requires
            self.spec_sequence() < u32::MAX,
        ensures
            r == self.spec_next(),
    {
        EntryId::new(self.time, self.sequence_number + 1)
    }

    /// Every id is strictly below its successor.
    pub proof fn lemma_next_increases(self)
        requires
            self.spec_sequence() < u32::MAX,
        ensures
            self.spec_lt(self.spec_next()),
    {
    }

    /// Parses `"<time>-<sequence>"`. Fails, and never panics, on a string
    /// without exactly one `'-'`, with a non-digit part, with an empty
    /// part, or with a number out of range.
    pub fn from_str(s: &str) -> (r: Result<EntryId, DecodeError>)
        ensures
            match r {
                Ok(id) => spec_parse_entry_id(s@) == Some(id),
                Err(e) => spec_parse_entry_id(s@) is None && e == DecodeError::IllegalEntryId,
            },
    {
        let n = s.unicode_len();
        let mut dash: Option<usize> = None;
        for i in 0..n
            invariant
                n == s@.len(),
                match dash {
                    Some(d) => d < i && s@[d as int] == '-' && (forall|j: int|
                        0 <= j < i && j != d ==> s@[j] != '-'),
                    None => forall|j: int| 0 <= j < i ==> s@[j] != '-',
                },
        {
            let c = s.get_char(i);
            if c == '-' {
                match dash {
                    None => {
                        dash = Some(i);
                    },
                    Some(d) => {
                        proof {
                            lemma_two_dashes_no_parse(s@, d as int, i as int);
                        }
                        return Err(DecodeError::IllegalEntryId);
                    },
                }
            }
        }
        match dash {
            None => {
                proof {
                    lemma_no_dash_no_parse(s@);
                }
                Err(DecodeError::IllegalEntryId)
            },
            Some(d) => {
                let ghost left = s@.subrange(0, d as int);
                let ghost right = s@.subrange(d as int + 1, s@.len() as int);
                let time = parse_u64_chars(s, 0, d);
                let seq64 = parse_u64_chars(s, d + 1, n);
                match (time, seq64) {
                    (Some(t), Some(q)) if q <= u32::MAX as u64 => {
                        let id = EntryId::new(t, q as u32);
                        proof {
                            lemma_digits_val_nonneg(right);
                            assert(right.len() > 0 && all_dec_digits(right) && digits_val(right)
                                <= u64::MAX);
                            assert(digits_val(right) == q as int);
                            assert(spec_parse_u32(right) == Some(q as u32));
                            assert(entry_split_ok(s@, d as int));
                            let k = choose|k: int| entry_split_ok(s@, k);
                            lemma_entry_split_unique(s@, k, d as int);
                        }
                        Ok(id)
                    },
                    _ => {
                        proof {
                            if entry_split_ok(s@, d as int) {
                                // the u32 side parsed, so the u64 read of the
                                // same digits is in u32 range and the guarded
                                // arm above would have matched
                                assert(spec_parse_u32(right) is Some);
                                lemma_digits_val_nonneg(right);
                                assert(right.len() > 0 && all_dec_digits(right) && digits_val(
                                    right,
                                ) <= u32::MAX);
                                assert(spec_parse_u64(right) == Some(digits_val(right) as u64));
                                assert(false);
                            }
                            lemma_single_dash_no_parse(s@, d as int);
                        }
                        Err(DecodeError::IllegalEntryId)
                    },
                }
            },
        }
    }

    /// The textual form `"<time>-<sequence>"`, inverse of `from_str`.
    pub fn to_text(&self) -> (r: String)
        ensures
            r@ == spec_entry_text(*self),
    {
        let mut out = String::new();
        push_u64(&mut out, self.time);
        out.append("-");
        push_u64(&mut out, self.sequence_number as u64);
        proof {
            reveal_strlit("-");
            assert(out@ =~= spec_entry_text(*self));
        }
        out
    }
}

/// Appends one decimal digit character.
pub(crate) fn push_digit(out: &mut String, d: u8)
    requires
        d < 10,
    ensures
        final(out)@ == old(out)@ + seq![digit_char(d as int)],
{
    if d == 0 {
        out.append("0");
        proof {
            reveal_strlit("0");
            assert(out@ =~= old(out)@ + seq![digit_char(d as int)]);
        }
    } else if d == 1 {
        out.append("1");
        proof {
            reveal_strlit("1");
            assert(out@ =~= old(out)@ + seq![digit_char(d as int)]);
        }
    } else if d == 2 {
        out.append("2");
        proof {
            reveal_strlit("2");
            assert(out@ =~= old(out)@ + seq![digit_char(d as int)]);
        }
    } else if d == 3 {
        out.append("3");
        proof {
            reveal_strlit("3");
            assert(out@ =~= old(out)@ + seq![digit_char(d as int)]);
        }
    } else if d == 4 {
        out.append("4");
        proof {
            reveal_strlit("4");
            assert(out@ =~= old(out)@ + seq![digit_char(d as int)]);
        }
    } else if d == 5 {
        out.append("5");
        proof {
            reveal_strlit("5");
            assert(out@ =~= old(out)@ + seq![digit_char(d as int)]);
        }
    } else if d == 6 {
        out.append("6");
        proof {
            reveal_strlit("6");
            assert(out@ =~= old(out)@ + seq![digit_char(d as int)]);
        }
    } else if d == 7 {
        out.append("7");
        proof {
            reveal_strlit("7");
            assert(out@ =~= old(out)@ + seq![digit_char(d as int)]);
        }
    } else if d == 8 {
        out.append("8");
        proof {
            reveal_strlit("8");
            assert(out@ =~= old(out)@ + seq![digit_char(d as int)]);
        }
    } else {
        out.append("9");
        proof {
            reveal_strlit("9");
            assert(out@ =~= old(out)@ + seq![digit_char(d as int)]);
        }
    }
}

/// Appends the canonical decimal form of `n`.
fn push_u64(out: &mut String, n: u64)
    ensures
        final(out)@ == old(out)@ + dec_chars(n as int),
    decreases n,
{
    if n < 10 {
        push_digit(out, n as u8);
    } else {
        push_u64(out, n / 10);
        push_digit(out, (n % 10) as u8);
        proof {
            assert(out@ =~= old(out)@ + dec_chars(n as int));
        }
    }
}

/// The canonical decimal form is a nonempty digit run reading back to the
/// same value.
pub proof fn lemma_dec_chars_value(n: int)
    requires
        n >= 0,
    ensures
        dec_chars(n).len() >= 1,
        all_dec_digits(dec_chars(n)),
        digits_val(dec_chars(n)) == n,
    decreases n,
{
    if n < 10 {
        assert(dec_chars(n) =~= seq![digit_char(n)]);
        assert(dec_chars(n).drop_last() =~= Seq::<char>::empty());
        assert(dec_chars(n).last() == digit_char(n));
        assert(digit_val(digit_char(n)) == n);
        assert(digits_val(Seq::<char>::empty()) == 0);
        assert(digits_val(dec_chars(n)) == digits_val(Seq::<char>::empty()) * 10 + digit_val(
            digit_char(n),
        ));
    } else {
        lemma_dec_chars_value(n / 10);
        let w = dec_chars(n);
        assert(w =~= dec_chars(n / 10).push(digit_char(n % 10)));
        lemma_digits_val_push(dec_chars(n / 10), digit_char(n % 10));
        assert(digit_val(digit_char(n % 10)) == n % 10);
        assert(digits_val(w) == digits_val(dec_chars(n / 10)) * 10 + digit_val(
            digit_char(n % 10),
        ));
        assert(digits_val(w) == (n / 10) * 10 + n % 10);
        assert forall|i: int| 0 <= i < w.len() implies is_dec_digit(#[trigger] w[i]) by {
            if i < w.len() - 1 {
                assert(w[i] == dec_chars(n / 10)[i]);
            }
        }
    }
}

/// Printing an entry id and parsing it back returns the same id: the
/// persisted cursor survives the store round trip unchanged.
pub proof fn lemma_entry_text_round_trip(id: EntryId)
    ensures
        spec_parse_entry_id(spec_entry_text(id)) == Some(id),
{
    let a = dec_chars(id.time as int);
    let b = dec_chars(id.sequence_number as int);
    let s = spec_entry_text(id);
    lemma_dec_chars_value(id.time as int);
    lemma_dec_chars_value(id.sequence_number as int);
    let d = a.len() as int;
    assert(s[d] == '-');
    assert(s.subrange(0, d) =~= a);
    assert(s.subrange(d + 1, s.len() as int) =~= b);
    assert(entry_split_ok(s, d));
    let k = choose|k: int| entry_split_ok(s, k);
    lemma_entry_split_unique(s, k, d);
}

} // verus!
