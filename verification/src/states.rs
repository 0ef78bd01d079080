//! The reconciled relay state store.
//!
//! An ordered association from relay to last-known state: at most one entry
//! per relay, update-in-place on repeated writes, insertion order stable.
//! Chosen over an unordered map because cardinality is small and
//! deterministic serialization of persisted snapshots matters.

use vstd::prelude::*;
use crate::rm8_types::RelayId;
use crate::rm8_types::RelayState;

verus! {

/// No relay appears twice.
pub open spec fn keys_unique(s: Seq<(RelayId, RelayState)>) -> bool {
    forall|i: int, j: int|
        0 <= i < j < s.len() ==> (#[trigger] s[i]).0 != (#[trigger] s[j]).0
}

pub open spec fn contains_key(s: Seq<(RelayId, RelayState)>, r: RelayId) -> bool {
    exists|i: int| 0 <= i < s.len() && (#[trigger] s[i]).0 == r
}

/// The state recorded for `r`: the first entry with that key, which under
/// `keys_unique` is the only one.
pub open spec fn spec_lookup(s: Seq<(RelayId, RelayState)>, r: RelayId) -> Option<RelayState>
    decreases s.len(),
{
    if s.len() == 0 {
        None
    } else if s[0].0 == r {
        Some(s[0].1)
    } else {
        spec_lookup(s.drop_first(), r)
    }
}

/// Writing `r := st`: update in place where `r` already stands, append
/// otherwise.
pub open spec fn spec_set(
    s: Seq<(RelayId, RelayState)>,
    r: RelayId,
    st: RelayState,
) -> Seq<(RelayId, RelayState)>
    decreases s.len(),
{
    if s.len() == 0 {
        seq![(r, st)]
    } else if s[0].0 == r {
        seq![(r, st)] + s.drop_first()
    } else {
        seq![s[0]] + spec_set(s.drop_first(), r, st)
    }
}

/// Folding a batch of writes into the store, in delivered order: the
/// last write for a relay wins.
pub open spec fn spec_merge(
    s: Seq<(RelayId, RelayState)>,
    d: Seq<(RelayId, RelayState)>,
) -> Seq<(RelayId, RelayState)>
    decreases d.len(),
{
    if d.len() == 0 {
        s
    } else {
        spec_merge(spec_set(s, d[0].0, d[0].1), d.drop_first())
    }
}

/// The state the last write for `r` in `d` carries, if any write does.
pub open spec fn spec_last_value(d: Seq<(RelayId, RelayState)>, r: RelayId) -> Option<RelayState>
    decreases d.len(),
{
    if d.len() == 0 {
        None
    } else {
        let rest = spec_last_value(d.drop_first(), r);
        if rest is Some {
            rest
        } else if d[0].0 == r {
            Some(d[0].1)
        } else {
            None
        }
    }
}

/// The reconciled map of relay to last-known state.
#[derive(Clone, Debug, PartialEq, Eq)]
pub struct RelayStates {
    entries: Vec<(RelayId, RelayState)>,
}

impl View for RelayStates {
    type V = Seq<(RelayId, RelayState)>;

    closed spec fn view(&self) -> Seq<(RelayId, RelayState)> {
        self.entries@
    }
}

impl RelayStates {
    /// The store's invariant: at most one entry per relay.
    pub open spec fn wf(&self) -> bool {
        keys_unique(self@)
    }

    /// Created empty on first run.
    pub fn new() -> (r: RelayStates)
        ensures
            r@ =~= Seq::<(RelayId, RelayState)>::empty(),
            r.wf(),
    {
        RelayStates { entries: Vec::new() }
    }

    /// Wraps a ready list of pairs, as the snapshot parser builds it.
    pub fn from_entries(entries: Vec<(RelayId, RelayState)>) -> (r: RelayStates)
        ensures
            r@ == entries@,
    {
        RelayStates { entries }
    }

    pub fn len(&self) -> (n: usize)
        ensures
            n == self@.len(),
    {
        self.entries.len()
    }

    pub fn is_empty(&self) -> (b: bool)
        ensures
            b == (self@.len() == 0),
    {
        self.entries.len() == 0
    }

    /// The pairs in insertion order, for sending and for serialization.
    pub fn entry_at(&self, i: usize) -> (p: (RelayId, RelayState))
        requires
            i < self@.len(),
        ensures
            p == self@[i as int],
    {
        self.entries[i]
    }

    pub fn get(&self, r: RelayId) -> (o: Option<RelayState>)
        ensures
            o == spec_lookup(self@, r),
    {
        let n = self.entries.len();
        for i in 0..n
            invariant
                n == self@.len(),
                forall|j: int| 0 <= j < i ==> (#[trigger] self@[j]).0 != r,
        {
            let p = self.entries[i];
            if p.0 == r {
                proof {
                    lemma_lookup_at_first(self@, r, i as int);
                }
                return Some(p.1);
            }
        }
        proof {
            lemma_lookup_absent(self@, r);
        }
        None
    }

    /// Writes `r := st`, in place when `r` is already present.
    pub fn set(&mut self, r: RelayId, st: RelayState)
        ensures
            final(self)@ == spec_set(old(self)@, r, st),
            old(self).wf() ==> final(self).wf(),
    {
        proof {
            if keys_unique(self@) {
                lemma_set_preserves_unique(self@, r, st);
            }
        }
        let ghost s0 = self@;
        let n = self.entries.len();
        for i in 0..n
            invariant
                self@ == s0,
                old(self)@ == s0,
                n == s0.len(),
                forall|j: int| 0 <= j < i ==> (#[trigger] s0[j]).0 != r,
        {
            let p = self.entries[i];
            if p.0 == r {
                self.entries.set(i, (r, st));
                proof {
                    lemma_set_at_first(s0, r, st, i as int);
                    assert(self@ =~= spec_set(s0, r, st));
                }
                return ;
            }
        }
        self.entries.push((r, st));
        proof {
            lemma_set_absent(s0, r, st);
            assert(self@ =~= spec_set(s0, r, st));
        }
    }

    /// Folds a whole delta in, later writes overriding earlier ones.
    pub fn merge(&mut self, delta: &RelayStates)
        ensures
            final(self)@ == spec_merge(old(self)@, delta@),
            old(self).wf() ==> final(self).wf(),
    {
        proof {
            if keys_unique(self@) {
                lemma_merge_preserves_unique(self@, delta@);
            }
        }
        let ghost s0 = self@;
        let n = delta.entries.len();
        for i in 0..n
            invariant
                n == delta@.len(),
                self@ == spec_merge(s0, delta@.subrange(0, i as int)),
        {
            let p = delta.entries[i];
            self.set(p.0, p.1);
            proof {
                lemma_merge_snoc(s0, delta@.subrange(0, i as int), p);
                assert(delta@.subrange(0, i + 1) =~= delta@.subrange(0, i as int).push(p));
            }
        }
        proof {
            assert(delta@.subrange(0, n as int) =~= delta@);
        }
    }
}

/// `spec_lookup` finds the first occurrence.
proof fn lemma_lookup_at_first(s: Seq<(RelayId, RelayState)>, r: RelayId, i: int)
    requires
        0 <= i < s.len(),
        s[i].0 == r,
        forall|j: int| 0 <= j < i ==> (#[trigger] s[j]).0 != r,
    ensures
        spec_lookup(s, r) == Some(s[i].1),
    decreases i,
{
    if i > 0 {
        assert(s[0].0 != r);
        assert(s.drop_first()[i - 1] == s[i]);
        assert forall|j: int| 0 <= j < i - 1 implies (#[trigger] s.drop_first()[j]).0 != r by {
            assert(s.drop_first()[j] == s[j + 1]);
        }
        lemma_lookup_at_first(s.drop_first(), r, i - 1);
    }
}

proof fn lemma_lookup_absent(s: Seq<(RelayId, RelayState)>, r: RelayId)
    requires
        forall|j: int| 0 <= j < s.len() ==> (#[trigger] s[j]).0 != r,
    ensures
        spec_lookup(s, r) is None,
    decreases s.len(),
{
    if s.len() > 0 {
        assert forall|j: int| 0 <= j < s.drop_first().len() implies (#[trigger] s.drop_first()[j]).0
            != r by {
            assert(s.drop_first()[j] == s[j + 1]);
        }
        lemma_lookup_absent(s.drop_first(), r);
    }
}

/// `spec_set` updates the first occurrence in place.
proof fn lemma_set_at_first(s: Seq<(RelayId, RelayState)>, r: RelayId, st: RelayState, i: int)
    requires
        0 <= i < s.len(),
        s[i].0 == r,
        forall|j: int| 0 <= j < i ==> (#[trigger] s[j]).0 != r,
    ensures
        spec_set(s, r, st) =~= s.update(i, (r, st)),
    decreases i,
{
    if i == 0 {
        assert(spec_set(s, r, st) == seq![(r, st)] + s.drop_first());
    } else {
        assert(s[0].0 != r);
        assert(s.drop_first()[i - 1] == s[i]);
        assert forall|j: int| 0 <= j < i - 1 implies (#[trigger] s.drop_first()[j]).0 != r by {
            assert(s.drop_first()[j] == s[j + 1]);
        }
        lemma_set_at_first(s.drop_first(), r, st, i - 1);
    }
}

/// With `r` absent, `spec_set` appends.
proof fn lemma_set_absent(s: Seq<(RelayId, RelayState)>, r: RelayId, st: RelayState)
    requires
        forall|j: int| 0 <= j < s.len() ==> (#[trigger] s[j]).0 != r,
    ensures
        spec_set(s, r, st) =~= s.push((r, st)),
    decreases s.len(),
{
    if s.len() > 0 {
        assert forall|j: int| 0 <= j < s.drop_first().len() implies (#[trigger] s.drop_first()[j]).0
            != r by {
            assert(s.drop_first()[j] == s[j + 1]);
        }
        lemma_set_absent(s.drop_first(), r, st);
    }
}

/// Splitting one entry off the front of a key search.
proof fn lemma_contains_cons(p: (RelayId, RelayState), t: Seq<(RelayId, RelayState)>, x: RelayId)
    ensures
        contains_key(seq![p] + t, x) <==> (p.0 == x || contains_key(t, x)),
{
    let w = seq![p] + t;
    if contains_key(w, x) {
        let i = choose|i: int| 0 <= i < w.len() && w[i].0 == x;
        if i > 0 {
            assert(t[i - 1] == w[i]);
            assert(contains_key(t, x));
        }
    }
    if p.0 == x {
        assert(w[0].0 == x);
        assert(contains_key(w, x));
    }
    if contains_key(t, x) {
        let i = choose|i: int| 0 <= i < t.len() && t[i].0 == x;
        assert(w[i + 1] == t[i]);
        assert(contains_key(w, x));
    }
}

/// Splitting one entry off the front of the uniqueness invariant.
pub proof fn lemma_unique_cons(p: (RelayId, RelayState), t: Seq<(RelayId, RelayState)>)
    ensures
        keys_unique(seq![p] + t) <==> (!contains_key(t, p.0) && keys_unique(t)),
{
    let w = seq![p] + t;
    if keys_unique(w) {
        assert forall|i: int, j: int| 0 <= i < j < t.len() implies (#[trigger] t[i]).0 != (
        #[trigger] t[j]).0 by {
            assert(w[i + 1] == t[i]);
            assert(w[j + 1] == t[j]);
        }
        if contains_key(t, p.0) {
            let i = choose|i: int| 0 <= i < t.len() && t[i].0 == p.0;
            assert(w[i + 1] == t[i]);
            assert(w[0].0 == w[i + 1].0);
        }
    }
    if !contains_key(t, p.0) && keys_unique(t) {
        assert forall|i: int, j: int| 0 <= i < j < w.len() implies (#[trigger] w[i]).0 != (
        #[trigger] w[j]).0 by {
            if i == 0 {
                assert(w[j] == t[j - 1]);
                if t[j - 1].0 == p.0 {
                    assert(contains_key(t, p.0));
                }
            } else {
                assert(w[i] == t[i - 1]);
                assert(w[j] == t[j - 1]);
            }
        }
    }
}

/// A write adds exactly its own key.
pub proof fn lemma_contains_set(
    s: Seq<(RelayId, RelayState)>,
    r: RelayId,
    st: RelayState,
    x: RelayId,
)
    ensures
        contains_key(spec_set(s, r, st), x) <==> (contains_key(s, x) || x == r),
    decreases s.len(),
{
    if s.len() == 0 {
        lemma_contains_cons((r, st), Seq::<(RelayId, RelayState)>::empty(), x);
        assert(seq![(r, st)] + Seq::<(RelayId, RelayState)>::empty() =~= seq![(r, st)]);
        if contains_key(s, x) {
            let i = choose|i: int| 0 <= i < s.len() && s[i].0 == x;
        }
    } else {
        assert(s =~= seq![s[0]] + s.drop_first());
        lemma_contains_cons(s[0], s.drop_first(), x);
        if s[0].0 == r {
            lemma_contains_cons((r, st), s.drop_first(), x);
        } else {
            lemma_contains_set(s.drop_first(), r, st, x);
            lemma_contains_cons(s[0], spec_set(s.drop_first(), r, st), x);
        }
    }
}

/// A write keeps keys unique.
pub proof fn lemma_set_preserves_unique(s: Seq<(RelayId, RelayState)>, r: RelayId, st: RelayState)
    requires
        keys_unique(s),
    ensures
        keys_unique(spec_set(s, r, st)),
    decreases s.len(),
{
    if s.len() == 0 {
        assert(spec_set(s, r, st) =~= seq![(r, st)]);
    } else {
        assert(s =~= seq![s[0]] + s.drop_first());
        lemma_unique_cons(s[0], s.drop_first());
        if s[0].0 == r {
            lemma_unique_cons((r, st), s.drop_first());
        } else {
            lemma_set_preserves_unique(s.drop_first(), r, st);
            lemma_contains_set(s.drop_first(), r, st, s[0].0);
            lemma_unique_cons(s[0], spec_set(s.drop_first(), r, st));
        }
    }
}

/// What a write does to every lookup: the written key reads back the new
/// state, every other key is untouched.
pub proof fn lemma_lookup_set(
    s: Seq<(RelayId, RelayState)>,
    r: RelayId,
    st: RelayState,
    x: RelayId,
)
    ensures
        spec_lookup(spec_set(s, r, st), x) == if x == r {
            Some(st)
        } else {
            spec_lookup(s, x)
        },
    decreases s.len(),
{
    if s.len() == 0 {
        let w = seq![(r, st)];
        assert(spec_set(s, r, st) =~= w);
        assert(w.drop_first() =~= Seq::<(RelayId, RelayState)>::empty());
        assert(spec_lookup(w.drop_first(), x) is None);
    } else if s[0].0 == r {
        let w = seq![(r, st)] + s.drop_first();
        assert(w[0] == (r, st));
        assert(w.drop_first() =~= s.drop_first());
    } else {
        let w = seq![s[0]] + spec_set(s.drop_first(), r, st);
        assert(w[0] == s[0]);
        assert(w.drop_first() =~= spec_set(s.drop_first(), r, st));
        lemma_lookup_set(s.drop_first(), r, st, x);
    }
}

/// What a whole merge does to every lookup: the last write for the key
/// wins, keys never written keep their old state.
pub proof fn lemma_merge_lookup(
    s: Seq<(RelayId, RelayState)>,
    d: Seq<(RelayId, RelayState)>,
    x: RelayId,
)
    ensures
        spec_lookup(spec_merge(s, d), x) == match spec_last_value(d, x) {
            Some(v) => Some(v),
            None => spec_lookup(s, x),
        },
    decreases d.len(),
{
    if d.len() > 0 {
        lemma_merge_lookup(spec_set(s, d[0].0, d[0].1), d.drop_first(), x);
        lemma_lookup_set(s, d[0].0, d[0].1, x);
    }
}

/// Merging adds exactly the keys of the delta.
pub proof fn lemma_contains_merge(
    s: Seq<(RelayId, RelayState)>,
    d: Seq<(RelayId, RelayState)>,
    x: RelayId,
)
    ensures
        contains_key(spec_merge(s, d), x) <==> (contains_key(s, x) || contains_key(d, x)),
    decreases d.len(),
{
    if d.len() == 0 {
        if contains_key(d, x) {
            let i = choose|i: int| 0 <= i < d.len() && d[i].0 == x;
        }
    } else {
        lemma_contains_merge(spec_set(s, d[0].0, d[0].1), d.drop_first(), x);
        lemma_contains_set(s, d[0].0, d[0].1, x);
        assert(d =~= seq![d[0]] + d.drop_first());
        lemma_contains_cons(d[0], d.drop_first(), x);
    }
}

/// Merging keeps keys unique.
pub proof fn lemma_merge_preserves_unique(s: Seq<(RelayId, RelayState)>, d: Seq<(RelayId, RelayState)>)
    requires
        keys_unique(s),
    ensures
        keys_unique(spec_merge(s, d)),
    decreases d.len(),
{
    if d.len() > 0 {
        lemma_set_preserves_unique(s, d[0].0, d[0].1);
        lemma_merge_preserves_unique(spec_set(s, d[0].0, d[0].1), d.drop_first());
    }
}

/// Under unique keys, the entry at a position is what its key looks up to.
pub proof fn lemma_lookup_at_index(s: Seq<(RelayId, RelayState)>, i: int)
    requires
        keys_unique(s),
        0 <= i < s.len(),
    ensures
        spec_lookup(s, s[i].0) == Some(s[i].1),
{
    assert forall|j: int| 0 <= j < i implies (#[trigger] s[j]).0 != s[i].0 by {}
    lemma_lookup_at_first(s, s[i].0, i);
}

/// Writing a key that is already present moves no entry: length and the
/// key at every position stay.
proof fn lemma_set_in_place(s: Seq<(RelayId, RelayState)>, r: RelayId, st: RelayState)
    requires
        contains_key(s, r),
    ensures
        spec_set(s, r, st).len() == s.len(),
        forall|i: int| 0 <= i < s.len() ==> (#[trigger] spec_set(s, r, st)[i]).0 == s[i].0,
    decreases s.len(),
{
    let k = choose|k: int| 0 <= k < s.len() && s[k].0 == r;
    if s[0].0 == r {
        let w = seq![(r, st)] + s.drop_first();
        assert forall|i: int| 0 <= i < s.len() implies (#[trigger] w[i]).0 == s[i].0 by {
            if i > 0 {
                assert(w[i] == s.drop_first()[i - 1]);
            }
        }
    } else {
        assert(s.drop_first()[k - 1] == s[k]);
        assert(contains_key(s.drop_first(), r));
        lemma_set_in_place(s.drop_first(), r, st);
        let w = seq![s[0]] + spec_set(s.drop_first(), r, st);
        assert forall|i: int| 0 <= i < s.len() implies (#[trigger] w[i]).0 == s[i].0 by {
            if i > 0 {
                assert(w[i] == spec_set(s.drop_first(), r, st)[i - 1]);
                assert(s.drop_first()[i - 1] == s[i]);
            }
        }
    }
}

/// Merging a delta whose keys are all present moves no entry.
proof fn lemma_merge_in_place(s: Seq<(RelayId, RelayState)>, d: Seq<(RelayId, RelayState)>)
    requires
        forall|k: int| 0 <= k < d.len() ==> contains_key(s, (#[trigger] d[k]).0),
    ensures
        spec_merge(s, d).len() == s.len(),
        forall|i: int| 0 <= i < s.len() ==> (#[trigger] spec_merge(s, d)[i]).0 == s[i].0,
    decreases d.len(),
{
    if d.len() > 0 {
        assert(contains_key(s, d[0].0));
        lemma_set_in_place(s, d[0].0, d[0].1);
        let s1 = spec_set(s, d[0].0, d[0].1);
        assert forall|k: int| 0 <= k < d.drop_first().len() implies contains_key(
            s1,
            (#[trigger] d.drop_first()[k]).0,
        ) by {
            assert(d.drop_first()[k] == d[k + 1]);
            lemma_contains_set(s, d[0].0, d[0].1, d[k + 1].0);
        }
        lemma_merge_in_place(s1, d.drop_first());
    }
}

/// Replaying a batch on a store that has already absorbed it changes
/// nothing: merging is idempotent, so a crash between persisting state and
/// persisting the cursor is safe.
pub proof fn lemma_merge_idempotent(s: Seq<(RelayId, RelayState)>, d: Seq<(RelayId, RelayState)>)
    requires
        keys_unique(s),
    ensures
        spec_merge(spec_merge(s, d), d) == spec_merge(s, d),
{
    let m = spec_merge(s, d);
    lemma_merge_preserves_unique(s, d);
    assert forall|k: int| 0 <= k < d.len() implies contains_key(m, (#[trigger] d[k]).0) by {
        lemma_contains_merge(s, d, d[k].0);
        assert(contains_key(d, d[k].0));
    }
    lemma_merge_in_place(m, d);
    let mm = spec_merge(m, d);
    lemma_merge_preserves_unique(m, d);
    assert forall|i: int| 0 <= i < m.len() implies #[trigger] mm[i] == m[i] by {
        let x = m[i].0;
        assert(mm[i].0 == x);
        lemma_lookup_at_index(mm, i);
        lemma_lookup_at_index(m, i);
        lemma_merge_lookup(m, d, x);
        if spec_last_value(d, x) is Some {
            lemma_merge_lookup(s, d, x);
        }
    }
    assert(mm =~= m);
}

/// In a reduced batch, each relay carries the state of its last command:
/// starting from an empty delta, every lookup is the last write.
pub proof fn lemma_last_write_wins(cmds: Seq<(RelayId, RelayState)>, r: RelayId)
    ensures
        spec_lookup(spec_merge(Seq::<(RelayId, RelayState)>::empty(), cmds), r)
            == spec_last_value(cmds, r),
{
    lemma_merge_lookup(Seq::<(RelayId, RelayState)>::empty(), cmds, r);
}

/// The last write for `r` is the one at its last occurrence.
pub proof fn lemma_last_value_at_last(d: Seq<(RelayId, RelayState)>, i: int)
    requires
        0 <= i < d.len(),
        forall|j: int| i < j < d.len() ==> (#[trigger] d[j]).0 != d[i].0,
    ensures
        spec_last_value(d, d[i].0) == Some(d[i].1),
    decreases d.len(),
{
    let r = d[i].0;
    if i == 0 {
        assert forall|j: int| 0 <= j < d.drop_first().len() implies (#[trigger] d.drop_first()[j]).0
            != r by {
            assert(d.drop_first()[j] == d[j + 1]);
        }
        lemma_last_value_absent(d.drop_first(), r);
    } else {
        assert(d.drop_first()[i - 1] == d[i]);
        assert forall|j: int| i - 1 < j < d.drop_first().len() implies (
        #[trigger] d.drop_first()[j]).0 != d.drop_first()[i - 1].0 by {
            assert(d.drop_first()[j] == d[j + 1]);
        }
        lemma_last_value_at_last(d.drop_first(), i - 1);
    }
}

proof fn lemma_last_value_absent(d: Seq<(RelayId, RelayState)>, r: RelayId)
    requires
        forall|j: int| 0 <= j < d.len() ==> (#[trigger] d[j]).0 != r,
    ensures
        spec_last_value(d, r) is None,
    decreases d.len(),
{
    if d.len() > 0 {
        assert forall|j: int| 0 <= j < d.drop_first().len() implies (#[trigger] d.drop_first()[j]).0
            != r by {
            assert(d.drop_first()[j] == d[j + 1]);
        }
        lemma_last_value_absent(d.drop_first(), r);
    }
}

/// A key reads back a state exactly when some entry carries it.
pub proof fn lemma_lookup_some_iff_contains(s: Seq<(RelayId, RelayState)>, r: RelayId)
    ensures
        spec_lookup(s, r) is Some <==> contains_key(s, r),
    decreases s.len(),
{
    if s.len() > 0 {
        lemma_lookup_some_iff_contains(s.drop_first(), r);
        if s[0].0 == r {
            assert(contains_key(s, r));
        } else {
            if contains_key(s.drop_first(), r) {
                let i = choose|i: int| 0 <= i < s.drop_first().len() && s.drop_first()[i].0 == r;
                assert(s[i + 1] == s.drop_first()[i]);
                assert(contains_key(s, r));
            }
            if contains_key(s, r) {
                let i = choose|i: int| 0 <= i < s.len() && s[i].0 == r;
                assert(s.drop_first()[i - 1] == s[i]);
                assert(contains_key(s.drop_first(), r));
            }
        }
    }
}

/// Peeling the last write off a merge.
pub proof fn lemma_merge_snoc(
    s: Seq<(RelayId, RelayState)>,
    d: Seq<(RelayId, RelayState)>,
    p: (RelayId, RelayState),
)
    ensures
        spec_merge(s, d.push(p)) == spec_set(spec_merge(s, d), p.0, p.1),
    decreases d.len(),
{
    if d.len() == 0 {
        assert(d.push(p).drop_first() =~= Seq::<(RelayId, RelayState)>::empty());
        assert(d.push(p)[0] == p);
        assert(spec_merge(s, d.push(p)) == spec_merge(
            spec_set(s, p.0, p.1),
            d.push(p).drop_first(),
        ));
        assert(spec_merge(spec_set(s, p.0, p.1), d.push(p).drop_first()) == spec_set(
            s,
            p.0,
            p.1,
        ));
        assert(spec_merge(s, d) == s);
    } else {
        assert(d.push(p)[0] == d[0]);
        assert(d.push(p).drop_first() =~= d.drop_first().push(p));
        assert(spec_merge(s, d.push(p)) == spec_merge(
            spec_set(s, d[0].0, d[0].1),
            d.drop_first().push(p),
        ));
        lemma_merge_snoc(spec_set(s, d[0].0, d[0].1), d.drop_first(), p);
        assert(spec_merge(s, d) == spec_merge(spec_set(s, d[0].0, d[0].1), d.drop_first()));
    }
}

} // verus!
