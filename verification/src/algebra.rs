//! The N-way merge algebra over sorted streams.
//!
//! Given N sorted inputs, a derived stream repeatedly finds the smallest
//! unconsumed key (the frontier), collects the inputs whose head equals it,
//! advances exactly those, and applies the operation's inclusion policy to
//! decide whether the key is emitted. The engine works for any N; output
//! keys are strictly increasing, and each key's presence depends only on
//! which inputs contain it.

use vstd::prelude::*;

use crate::order::{
    KeyOrder, entries_get, entry_keys, lemma_lex_trans, lemma_lex_trichotomy, lex_cmp, lex_lt,
    sorted_strict,
};

verus! {

/// The operation a derived stream computes over its inputs.
#[derive(Clone, Copy, Debug, PartialEq, Eq, Structural)]
pub enum MergeOp {
    /// Keys present in at least one input.
    Union,
    /// Keys present in every input.
    Intersection,
    /// Keys present in the first input and absent from all others.
    Difference,
    /// Keys present in an odd number of inputs.
    SymmetricDifference,
}

/// One occurrence of an emitted key: the index of an input stream that
/// holds the key (in push order, from zero) and the value it stores there.
#[derive(Clone, Copy, Debug, PartialEq, Eq, Structural)]
pub struct IndexedValue {
    pub index: usize,
    pub value: u64,
}

/// Whether input `i` contains key `k`.
pub open spec fn contains_key(inputs: Seq<Seq<(Seq<u8>, u64)>>, i: int, k: Seq<u8>) -> bool {
    entry_keys(inputs[i]).contains(k)
}

/// How many of the inputs contain key `k`.
pub open spec fn occ_count(inputs: Seq<Seq<(Seq<u8>, u64)>>, k: Seq<u8>) -> nat
    decreases inputs.len(),
{
    if inputs.len() == 0 {
        0
    } else {
        occ_count(inputs.drop_last(), k) + if contains_key(inputs, inputs.len() - 1, k) {
            1nat
        } else {
            0nat
        }
    }
}

/// Whether the operation emits key `k`: a pure function of which inputs
/// contain it, independent of the order the inputs were pushed in.
pub open spec fn op_emits(op: MergeOp, inputs: Seq<Seq<(Seq<u8>, u64)>>, k: Seq<u8>) -> bool {
    match op {
        MergeOp::Union => exists|i: int| 0 <= i < inputs.len() && contains_key(inputs, i, k),
        MergeOp::Intersection => inputs.len() >= 1 && forall|i: int|
            0 <= i < inputs.len() ==> contains_key(inputs, i, k),
        MergeOp::Difference => inputs.len() >= 1 && contains_key(inputs, 0, k) && forall|i: int|
            1 <= i < inputs.len() ==> !contains_key(inputs, i, k),
        MergeOp::SymmetricDifference => occ_count(inputs, k) % 2 == 1,
    }
}

/// The value input `i` stores under `k` (zero when absent; inputs standing
/// for key-only sets store zero everywhere).
pub open spec fn value_under(inputs: Seq<Seq<(Seq<u8>, u64)>>, i: int, k: Seq<u8>) -> u64 {
    match entries_get(inputs[i], k) {
        Some(v) => v,
        None => 0,
    }
}

/// The (index, value) pairs an emitted key carries: one pair for each input
/// that contains the key, in ascending input order.
pub open spec fn owners(inputs: Seq<Seq<(Seq<u8>, u64)>>, k: Seq<u8>) -> Seq<(int, u64)>
    decreases inputs.len(),
{
    if inputs.len() == 0 {
        Seq::empty()
    } else {
        let pre = owners(inputs.drop_last(), k);
        if contains_key(inputs, inputs.len() - 1, k) {
            pre.push((inputs.len() - 1, value_under(inputs, inputs.len() - 1, k)))
        } else {
            pre
        }
    }
}

/// A prefix of the inputs contains a key exactly as the whole does, and
/// stores the same value under it.
proof fn lemma_prefix_contains(inputs: Seq<Seq<(Seq<u8>, u64)>>, m: int, i: int, k: Seq<u8>)
    requires
        0 <= i < m <= inputs.len(),
    ensures
        contains_key(inputs.take(m), i, k) == contains_key(inputs, i, k),
        value_under(inputs.take(m), i, k) == value_under(inputs, i, k),
{
    assert(inputs.take(m)[i] == inputs[i]);
}

/// What `owners` holds: one entry per containing input, index ascending,
/// value as stored; its length is the occurrence count.
pub proof fn lemma_owners(inputs: Seq<Seq<(Seq<u8>, u64)>>, k: Seq<u8>)
    ensures
        owners(inputs, k).len() == occ_count(inputs, k),
        occ_count(inputs, k) <= inputs.len(),
        forall|e: int| 0 <= e < owners(inputs, k).len() ==> {
            let p = #[trigger] owners(inputs, k)[e];
            0 <= p.0 < inputs.len() && contains_key(inputs, p.0, k) && p.1 == value_under(
                inputs,
                p.0,
                k,
            )
        },
        forall|e1: int, e2: int| 0 <= e1 < e2 < owners(inputs, k).len()
            ==> #[trigger] owners(inputs, k)[e1].0 < #[trigger] owners(inputs, k)[e2].0,
        forall|i: int| 0 <= i < inputs.len() && #[trigger] contains_key(inputs, i, k)
            ==> exists|e: int| 0 <= e < owners(inputs, k).len() && owners(inputs, k)[e].0 == i,
    decreases inputs.len(),
{
    if inputs.len() > 0 {
        let pre = inputs.drop_last();
        lemma_owners(pre, k);
        let last = inputs.len() - 1;
        assert forall|i: int| 0 <= i < last implies contains_key(pre, i, k) == contains_key(
            inputs,
            i,
            k,
        ) && value_under(pre, i, k) == value_under(inputs, i, k) by {
            assert(pre[i] == inputs[i]);
        }
        assert forall|i: int| 0 <= i < inputs.len() && #[trigger] contains_key(inputs, i, k)
            implies exists|e: int|
            0 <= e < owners(inputs, k).len() && owners(inputs, k)[e].0 == i by {
            if i < last {
                let e = choose|e: int| 0 <= e < owners(pre, k).len() && owners(pre, k)[e].0 == i;
                assert(owners(inputs, k)[e].0 == i);
            } else {
                assert(owners(inputs, k)[owners(inputs, k).len() - 1].0 == i);
            }
        }
    }
}

/// A key contained in no input is emitted by no operation, and a key the
/// union emits is contained in some input.
pub proof fn lemma_emits_needs_presence(op: MergeOp, inputs: Seq<Seq<(Seq<u8>, u64)>>, k: Seq<u8>)
    requires
        inputs.len() >= 1,
        op_emits(op, inputs, k),
    ensures
        exists|i: int| 0 <= i < inputs.len() && contains_key(inputs, i, k),
{
    match op {
        MergeOp::Union => {},
        MergeOp::Intersection => {
            assert(contains_key(inputs, 0, k));
        },
        MergeOp::Difference => {
            assert(contains_key(inputs, 0, k));
        },
        MergeOp::SymmetricDifference => {
            lemma_occ_pos(inputs, k);
        },
    }
}

/// The occurrence count is positive exactly when some input contains the
/// key, and equals the number of inputs exactly when all do.
pub proof fn lemma_occ_pos(inputs: Seq<Seq<(Seq<u8>, u64)>>, k: Seq<u8>)
    ensures
        occ_count(inputs, k) > 0 <==> exists|i: int|
            0 <= i < inputs.len() && contains_key(inputs, i, k),
        occ_count(inputs, k) <= inputs.len(),
        occ_count(inputs, k) == inputs.len() <==> forall|i: int|
            0 <= i < inputs.len() ==> contains_key(inputs, i, k),
    decreases inputs.len(),
{
    if inputs.len() > 0 {
        let pre = inputs.drop_last();
        let last = inputs.len() - 1;
        lemma_occ_pos(pre, k);
        assert forall|i: int| 0 <= i < last implies contains_key(pre, i, k) == contains_key(
            inputs,
            i,
            k,
        ) by {
            assert(pre[i] == inputs[i]);
        }
        if occ_count(inputs, k) > 0 {
            if contains_key(inputs, last, k) {
            } else {
                let i = choose|i: int| 0 <= i < pre.len() && contains_key(pre, i, k);
                assert(contains_key(inputs, i, k));
            }
        }
        if exists|i: int| 0 <= i < inputs.len() && contains_key(inputs, i, k) {
            let i = choose|i: int| 0 <= i < inputs.len() && contains_key(inputs, i, k);
            if i < last {
                assert(contains_key(pre, i, k));
            }
        }
        if occ_count(inputs, k) == inputs.len() {
            assert(forall|i: int| 0 <= i < pre.len() ==> contains_key(pre, i, k));
        }
        if forall|i: int| 0 <= i < inputs.len() ==> contains_key(inputs, i, k) {
            assert(forall|i: int| 0 <= i < pre.len() ==> contains_key(pre, i, k));
            assert(occ_count(pre, k) == pre.len());
        }
    }
}

/// In a strictly sorted entry sequence, the entry at any position is the one
/// a lookup of its key finds.
pub proof fn lemma_sorted_get_at(es: Seq<(Seq<u8>, u64)>, a: int)
    requires
        sorted_strict(entry_keys(es)),
        0 <= a < es.len(),
    ensures
        entries_get(es, es[a].0) == Some(es[a].1),
    decreases es.len(),
{
    if a == 0 {
    } else {
        assert(lex_lt(entry_keys(es)[0], entry_keys(es)[a]));
        lemma_lex_trichotomy(entry_keys(es)[0], entry_keys(es)[a]);
        let tail = es.drop_first();
        assert(sorted_strict(entry_keys(tail))) by {
            assert forall|i: int, j: int| 0 <= i < j < entry_keys(tail).len() implies lex_lt(
                entry_keys(tail)[i],
                entry_keys(tail)[j],
            ) by {
                assert(entry_keys(tail)[i] == entry_keys(es)[i + 1]);
                assert(entry_keys(tail)[j] == entry_keys(es)[j + 1]);
            }
        }
        lemma_sorted_get_at(tail, a - 1);
        assert(tail[a - 1] == es[a]);
    }
}

/// A derived stream: the lazy N-way merge of its sorted inputs under one
/// operation. `inputs` holds each input's full sorted entry sequence (a
/// key-only input stores zero values); `pos[i]` marks how far input `i` has
/// been consumed; the ghost history records the keys emitted so far.
pub struct MergeStream {
    op: MergeOp,
    inputs: Vec<Vec<(Vec<u8>, u64)>>,
    pos: Vec<usize>,
    hist: Ghost<Seq<Seq<u8>>>,
}

impl MergeStream {
    /// The operation this stream computes.
    pub closed spec fn op_spec(&self) -> MergeOp {
        self.op
    }

    /// The full input sequences, in push order.
    pub closed spec fn inputs_view(&self) -> Seq<Seq<(Seq<u8>, u64)>> {
        self.inputs@.map_values(|v: Vec<(Vec<u8>, u64)>| crate::order::entries_view(v@))
    }

    /// The keys emitted so far, in emission order.
    pub closed spec fn emitted(&self) -> Seq<Seq<u8>> {
        self.hist@
    }

    spec fn n(&self) -> int {
        self.inputs@.len() as int
    }

    spec fn len_at(&self, i: int) -> int {
        self.inputs_view()[i].len() as int
    }

    spec fn pos_at(&self, i: int) -> int {
        self.pos@[i] as int
    }

    spec fn key_at(&self, i: int, a: int) -> Seq<u8> {
        self.inputs_view()[i][a].0
    }

    spec fn val_at(&self, i: int, a: int) -> u64 {
        self.inputs_view()[i][a].1
    }

    spec fn live(&self, i: int) -> bool {
        self.pos_at(i) < self.len_at(i)
    }

    spec fn head(&self, i: int) -> Seq<u8> {
        self.key_at(i, self.pos_at(i))
    }

    /// Some input holds `k` before its cursor.
    spec fn processed(&self, k: Seq<u8>) -> bool {
        exists|i: int, a: int|
            0 <= i < self.n() && 0 <= a < self.pos_at(i) && #[trigger] self.key_at(i, a) == k
    }

    /// `k` lies strictly above everything emitted so far.
    pub open spec fn pending(&self, k: Seq<u8>) -> bool {
        self.emitted().len() == 0 || lex_lt(self.emitted().last(), k)
    }

    /// The stream still owes `k`: the operation emits it and it has not been
    /// emitted yet.
    pub open spec fn owes(&self, k: Seq<u8>) -> bool {
        op_emits(self.op_spec(), self.inputs_view(), k) && self.pending(k)
    }

    /// The stream's internal invariant: cursors in bounds, inputs sorted,
    /// every consumed key strictly below every unconsumed one, the emitted
    /// history sorted, and each consumed key emitted exactly when the
    /// operation emits it.
    pub closed spec fn wf(&self) -> bool {
        &&& self.pos@.len() == self.n()
        &&& self.n() >= 1
        &&& forall|i: int| 0 <= i < self.n() ==> 0 <= #[trigger] self.pos_at(i) <= self.len_at(i)
        &&& forall|i: int, a: int, b: int|
            0 <= i < self.n() && 0 <= a < b < self.len_at(i) ==> lex_lt(
                #[trigger] self.key_at(i, a),
                #[trigger] self.key_at(i, b),
            )
        &&& forall|i: int, j: int, a: int, b: int|
            0 <= i < self.n() && 0 <= j < self.n() && 0 <= a < self.pos_at(i) && self.pos_at(j)
                <= b < self.len_at(j) ==> lex_lt(
                #[trigger] self.key_at(i, a),
                #[trigger] self.key_at(j, b),
            )
        &&& sorted_strict(self.hist@)
        &&& forall|e: int| 0 <= e < self.hist@.len() ==> self.processed(#[trigger] self.hist@[e])
        &&& forall|i: int, a: int|
            0 <= i < self.n() && 0 <= a < self.pos_at(i) ==> (self.hist@.contains(
                #[trigger] self.key_at(i, a),
            ) <==> op_emits(self.op, self.inputs_view(), self.key_at(i, a)))
    }

    /// How many entries are still unconsumed, from input `i` on.
    spec fn rem_from(&self, i: int) -> int
        decreases self.n() - i,
    {
        if i < 0 || i >= self.n() {
            0
        } else {
            self.len_at(i) - self.pos_at(i) + self.rem_from(i + 1)
        }
    }

    /// How many entries are still unconsumed in all; it shrinks with every
    /// emitted item, which bounds the stream's length.
    pub closed spec fn remaining(&self) -> int {
        self.rem_from(0)
    }
}

/// The unconsumed count is never negative while cursors stay in bounds.
proof fn lemma_rem_nonneg(s: &MergeStream, i: int)
    requires
        s.pos@.len() == s.n(),
        forall|l: int| 0 <= l < s.n() ==> 0 <= #[trigger] s.pos_at(l) <= s.len_at(l),
        0 <= i <= s.n(),
    ensures
        s.rem_from(i) >= 0,
    decreases s.n() - i,
{
    if i < s.n() {
        lemma_rem_nonneg(s, i + 1);
    }
}

/// Advancing cursors only shrinks the unconsumed count, strictly so if some
/// cursor moved.
proof fn lemma_rem_mono(s1: &MergeStream, s2: &MergeStream, i: int)
    requires
        s1.inputs@ == s2.inputs@,
        s1.pos@.len() == s1.n(),
        s2.pos@.len() == s2.n(),
        forall|j: int| 0 <= j < s1.n() ==> #[trigger] s1.pos_at(j) <= s2.pos_at(j),
        0 <= i <= s1.n(),
    ensures
        s2.rem_from(i) <= s1.rem_from(i),
        (exists|j: int| i <= j < s1.n() && #[trigger] s2.pos_at(j) > s1.pos_at(j))
            ==> s2.rem_from(i) < s1.rem_from(i),
    decreases s1.n() - i,
{
    if i < s1.n() {
        lemma_rem_mono(s1, s2, i + 1);
        assert(s1.len_at(i) == s2.len_at(i));
        if exists|j: int| i <= j < s1.n() && #[trigger] s2.pos_at(j) > s1.pos_at(j) {
            let j = choose|j: int| i <= j < s1.n() && #[trigger] s2.pos_at(j) > s1.pos_at(j);
            if j == i {
            } else {
                assert(exists|j2: int| i + 1 <= j2 < s1.n() && #[trigger] s2.pos_at(j2)
                    > s1.pos_at(j2));
            }
        }
    }
}

/// A live input whose head is the frontier key contains it; any other input
/// does not (its consumed keys lie below the frontier and its unconsumed
/// keys above).
proof fn lemma_tie_iff_contains(s: &MergeStream, mi: int, j: int, m: Seq<u8>)
    requires
        s.wf(),
        0 <= mi < s.n(),
        s.live(mi),
        m == s.head(mi),
        forall|l: int| 0 <= l < s.n() && #[trigger] s.live(l) ==> !lex_lt(s.head(l), m),
        0 <= j < s.n(),
    ensures
        contains_key(s.inputs_view(), j, m) <==> (s.live(j) && s.head(j) == m),
        (s.live(j) && s.head(j) == m) ==> value_under(s.inputs_view(), j, m) == s.val_at(
            j,
            s.pos_at(j),
        ),
{
    let iv = s.inputs_view();
    if s.live(j) && s.head(j) == m {
        assert(entry_keys(iv[j])[s.pos_at(j)] == m);
        assert(entry_keys(iv[j]).contains(m));
        assert(sorted_strict(entry_keys(iv[j]))) by {
            assert(forall|a: int, b: int|
                0 <= a < b < iv[j].len() ==> lex_lt(
                    #[trigger] entry_keys(iv[j])[a],
                    #[trigger] entry_keys(iv[j])[b],
                )) by {
                assert(forall|a: int| 0 <= a < iv[j].len() ==> #[trigger] entry_keys(iv[j])[a]
                    == s.key_at(j, a));
            }
        }
        lemma_sorted_get_at(iv[j], s.pos_at(j));
    }
    if contains_key(iv, j, m) {
        let a = choose|a: int| 0 <= a < entry_keys(iv[j]).len() && entry_keys(iv[j])[a] == m;
        assert(s.key_at(j, a) == m);
        lemma_lex_trichotomy(m, m);
        if a < s.pos_at(j) {
            assert(lex_lt(s.key_at(j, a), s.key_at(mi, s.pos_at(mi))));
        } else {
            assert(s.live(j));
            if a > s.pos_at(j) {
                assert(lex_lt(s.key_at(j, s.pos_at(j)), s.key_at(j, a)));
                assert(false);
            }
        }
    }
}

/// A strictly sorted key sequence that contains `k` has `k` at or below its
/// last element, so `k` is not strictly above it.
pub proof fn lemma_sorted_contains_not_above(ks: Seq<Seq<u8>>, k: Seq<u8>)
    requires
        sorted_strict(ks),
        ks.contains(k),
    ensures
        ks.len() > 0,
        !lex_lt(ks.last(), k),
{
    let e = choose|e: int| 0 <= e < ks.len() && ks[e] == k;
    if e == ks.len() - 1 {
        lemma_lex_trichotomy(ks.last(), k);
    } else {
        assert(lex_lt(ks[e], ks.last()));
        lemma_lex_trichotomy(ks.last(), k);
    }
}

/// A key some input still owes is not below the frontier: every consumed
/// occurrence was decided (so a pending key cannot sit there), and every
/// unconsumed occurrence sits at or above the frontier.
proof fn lemma_pending_not_below_frontier(s: &MergeStream, mi: int, m: Seq<u8>, j: Seq<u8>)
    requires
        s.wf(),
        0 <= mi < s.n(),
        s.live(mi),
        m == s.head(mi),
        forall|l: int| 0 <= l < s.n() && #[trigger] s.live(l) ==> !lex_lt(s.head(l), m),
        s.owes(j),
    ensures
        j == m || lex_lt(m, j),
{
    lemma_emits_needs_presence(s.op_spec(), s.inputs_view(), j);
    let i = choose|i: int| 0 <= i < s.n() && contains_key(s.inputs_view(), i, j);
    let a = choose|a: int|
        0 <= a < entry_keys(s.inputs_view()[i]).len() && entry_keys(s.inputs_view()[i])[a] == j;
    assert(s.key_at(i, a) == j);
    if a < s.pos_at(i) {
        // consumed, hence decided, hence already emitted and not pending
        assert(s.hist@.contains(j));
        lemma_sorted_contains_not_above(s.hist@, j);
        assert(false);
    } else {
        assert(s.live(i));
        if a == s.pos_at(i) {
            assert(j == s.head(i));
            lemma_lex_trichotomy(s.head(i), m);
        } else {
            assert(lex_lt(s.head(i), s.key_at(i, a)));
            lemma_lex_trichotomy(s.head(i), m);
            if m != s.head(i) {
                lemma_lex_trans(m, s.head(i), j);
            }
        }
    }
}

impl MergeStream {
    /// Advances the merge: repeatedly takes the frontier (the least
    /// unconsumed key), advances exactly the inputs whose head equals it,
    /// and applies the operation's inclusion policy, until a key is emitted
    /// or the inputs run out.
    ///
    /// An emitted key is the least key the stream still owes, paired with
    /// one (index, value) occurrence per input that contains it, in
    /// ascending input order. The sentinel means nothing is owed, and once
    /// it appears every further call yields it again without emitting.
    #[verifier::loop_isolation(false)]
    pub fn next(&mut self) -> (r: Option<(Vec<u8>, Vec<IndexedValue>)>)
        requires
            old(self).wf(),
        ensures
            final(self).wf(),
            final(self).op_spec() == old(self).op_spec(),
            final(self).inputs_view() == old(self).inputs_view(),
            r matches Some(item) ==> {
                &&& old(self).owes(item.0@)
                &&& forall|j: Seq<u8>|
                    #[trigger] old(self).owes(j) && j != item.0@ ==> lex_lt(item.0@, j)
                &&& final(self).emitted() == old(self).emitted().push(item.0@)
                &&& item.1@.map_values(|iv: IndexedValue| (iv.index as int, iv.value)) == owners(
                    old(self).inputs_view(),
                    item.0@,
                )
            },
            r is None ==> final(self).emitted() == old(self).emitted() && (forall|j: Seq<u8>|
                !(#[trigger] old(self).owes(j))),
            r is Some ==> final(self).remaining() < old(self).remaining(),
            final(self).remaining() >= 0,
    {
        let n = self.inputs.len();
        proof {
            lemma_rem_nonneg(self, 0);
        }
        loop
            invariant
                self.wf(),
                n == self.n(),
                self.op_spec() == old(self).op_spec(),
                self.inputs@ == old(self).inputs@,
                self.emitted() == old(self).emitted(),
                0 <= self.remaining() <= old(self).remaining(),
            decreases self.remaining(),
        {
            let ghost s0 = *self;
            // find the frontier: the least head among the live inputs
            let mut found = false;
            let mut mi: usize = 0;
            let mut idx: usize = 0;
            while idx < n
                invariant
                    idx <= n,
                    found ==> mi < n && self.live(mi as int),
                    found ==> forall|l: int|
                        0 <= l < idx && #[trigger] self.live(l) ==> !lex_lt(
                            self.head(l),
                            self.head(mi as int),
                        ),
                    !found ==> forall|l: int| 0 <= l < idx ==> !(#[trigger] self.live(l)),
                decreases n - idx,
            {
                if self.pos[idx] < self.inputs[idx].len() {
                    proof {
                        assert(self.inputs@[idx as int]@[self.pos@[idx as int] as int].0@
                            == self.head(idx as int));
                        lemma_lex_trichotomy(self.head(idx as int), self.head(idx as int));
                    }
                    if !found {
                        found = true;
                        mi = idx;
                    } else {
                        proof {
                            assert(self.inputs@[mi as int]@[self.pos@[mi as int] as int].0@
                                == self.head(mi as int));
                        }
                        let c = lex_cmp(
                            &self.inputs[idx][self.pos[idx]].0,
                            &self.inputs[mi][self.pos[mi]].0,
                        );
                        if c == KeyOrder::Less {
                            proof {
                                let ghost oldmi = mi as int;
                                assert forall|l: int| 0 <= l < idx + 1 && #[trigger] self.live(l)
                                    implies !lex_lt(self.head(l), self.head(idx as int)) by {
                                    lemma_lex_trichotomy(self.head(l), self.head(idx as int));
                                    lemma_lex_trichotomy(self.head(l), self.head(oldmi));
                                    if l < idx && lex_lt(self.head(l), self.head(idx as int)) {
                                        lemma_lex_trans(
                                            self.head(l),
                                            self.head(idx as int),
                                            self.head(oldmi),
                                        );
                                    }
                                }
                            }
                            mi = idx;
                        } else {
                            proof {
                                lemma_lex_trichotomy(
                                    self.head(idx as int),
                                    self.head(mi as int),
                                );
                            }
                        }
                    }
                }
                idx = idx + 1;
            }
            if !found {
                // every input is exhausted: every key anywhere was decided
                proof {
                    assert forall|j: Seq<u8>| !(#[trigger] old(self).owes(j)) by {
                        if old(self).owes(j) {
                            assert(self.owes(j));
                            lemma_emits_needs_presence(self.op_spec(), self.inputs_view(), j);
                            let i = choose|i: int|
                                0 <= i < self.n() && contains_key(self.inputs_view(), i, j);
                            let a = choose|a: int|
                                0 <= a < entry_keys(self.inputs_view()[i]).len() && entry_keys(
                                    self.inputs_view()[i],
                                )[a] == j;
                            assert(self.key_at(i, a) == j);
                            assert(!self.live(i));
                            assert(a < self.pos_at(i));
                            assert(self.hist@.contains(j));
                            lemma_sorted_contains_not_above(self.hist@, j);
                        }
                    }
                }
                return None;
            }
            let m = vstd::slice::slice_to_vec(self.inputs[mi][self.pos[mi]].0.as_slice());
            proof {
                assert(m@ == s0.head(mi as int));
                assert(s0.live(mi as int));
                assert forall|l: int| 0 <= l < n && #[trigger] s0.live(l) implies !lex_lt(
                    s0.head(l),
                    m@,
                ) by {
                    assert(self.live(l) == s0.live(l));
                    assert(self.head(l) == s0.head(l));
                    assert(self.head(mi as int) == s0.head(mi as int));
                }
            }
            // collect the frontier's occurrences and advance exactly those inputs
            let mut vals: Vec<IndexedValue> = Vec::new();
            let mut i: usize = 0;
            while i < n
                invariant
                    i <= n,
                    self.op_spec() == s0.op_spec(),
                    self.inputs@ == s0.inputs@,
                    self.hist@ == s0.hist@,
                    self.pos@.len() == n,
                    forall|l: int| i <= l < n ==> #[trigger] self.pos@[l] == s0.pos@[l],
                    forall|l: int|
                        0 <= l < i && (s0.live(l) && s0.head(l) == m@)
                            ==> #[trigger] self.pos@[l] == s0.pos@[l] + 1,
                    forall|l: int|
                        0 <= l < i && !(s0.live(l) && s0.head(l) == m@)
                            ==> #[trigger] self.pos@[l] == s0.pos@[l],
                    vals@.map_values(|iv: IndexedValue| (iv.index as int, iv.value)) == owners(
                        s0.inputs_view().take(i as int),
                        m@,
                    ),
                decreases n - i,
            {
                proof {
                    lemma_tie_iff_contains(&s0, mi as int, i as int, m@);
                    assert(s0.inputs_view().take(i + 1).drop_last() =~= s0.inputs_view().take(
                        i as int,
                    ));
                    assert(s0.inputs_view().take(i + 1)[i as int] == s0.inputs_view()[i as int]);
                }
                let ghost prev_vals = vals@;
                if self.pos[i] < self.inputs[i].len() {
                    proof {
                        assert(self.pos_at(i as int) == s0.pos_at(i as int));
                        assert(s0.inputs_view()[i as int] == crate::order::entries_view(
                            s0.inputs@[i as int]@,
                        ));
                        assert(s0.head(i as int) == s0.inputs_view()[i as int][s0.pos_at(
                            i as int,
                        )].0);
                        assert(s0.live(i as int));
                        assert(self.inputs@[i as int]@[self.pos@[i as int] as int].0@
                            == s0.head(i as int));
                    }
                    let c = lex_cmp(&self.inputs[i][self.pos[i]].0, &m);
                    if c == KeyOrder::Equal {
                        let v = self.inputs[i][self.pos[i]].1;
                        vals.push(IndexedValue { index: i, value: v });
                        let p = self.pos[i];
                        self.pos[i] = p + 1;
                        proof {
                            assert(v == s0.val_at(i as int, s0.pos_at(i as int)));
                            assert(vals@.map_values(|iv: IndexedValue| (iv.index as int, iv.value))
                                =~= prev_vals.map_values(
                                |iv: IndexedValue| (iv.index as int, iv.value),
                            ).push((i as int, v)));
                            assert(contains_key(s0.inputs_view().take(i + 1), i as int, m@));
                            assert(value_under(s0.inputs_view().take(i + 1), i as int, m@)
                                == value_under(s0.inputs_view(), i as int, m@)) by {
                                lemma_prefix_contains(s0.inputs_view(), i + 1, i as int, m@);
                            }
                        }
                    } else {
                        proof {
                            assert(!contains_key(s0.inputs_view(), i as int, m@));
                            assert(!contains_key(s0.inputs_view().take(i + 1), i as int, m@)) by {
                                lemma_prefix_contains(s0.inputs_view(), i + 1, i as int, m@);
                            }
                            assert(owners(s0.inputs_view().take(i + 1), m@) == owners(
                                s0.inputs_view().take(i as int),
                                m@,
                            ));
                        }
                    }
                } else {
                    proof {
                        assert(self.pos_at(i as int) == s0.pos_at(i as int));
                        assert(s0.inputs_view()[i as int] == crate::order::entries_view(
                            s0.inputs@[i as int]@,
                        ));
                        assert(!s0.live(i as int));
                        assert(!contains_key(s0.inputs_view(), i as int, m@));
                        assert(!contains_key(s0.inputs_view().take(i + 1), i as int, m@)) by {
                            lemma_prefix_contains(s0.inputs_view(), i + 1, i as int, m@);
                        }
                    }
                }
                i = i + 1;
            }
            proof {
                assert(s0.inputs_view().take(n as int) =~= s0.inputs_view());
            }
            let ghost ow = owners(s0.inputs_view(), m@);
            proof {
                lemma_owners(s0.inputs_view(), m@);
                lemma_occ_pos(s0.inputs_view(), m@);
                lemma_tie_iff_contains(&s0, mi as int, mi as int, m@);
                assert(vals@.len() == ow.len());
            }
            // the operation's inclusion policy, over which inputs had the key
            let emit = match self.op {
                MergeOp::Union => true,
                MergeOp::Intersection => vals.len() == n,
                MergeOp::Difference => vals.len() == 1 && vals[0].index == 0,
                MergeOp::SymmetricDifference => vals.len() % 2 == 1,
            };
            proof {
                // the policy decision agrees with the specification
                assert(emit == op_emits(s0.op_spec(), s0.inputs_view(), m@)) by {
                    match s0.op_spec() {
                        MergeOp::Union => {
                            assert(contains_key(s0.inputs_view(), mi as int, m@));
                        },
                        MergeOp::Intersection => {},
                        MergeOp::Difference => {
                            if vals.len() == 1 && vals[0].index == 0 {
                                assert(ow[0] == (0int, value_under(s0.inputs_view(), 0, m@)));
                                assert(contains_key(s0.inputs_view(), 0, m@));
                                assert forall|l: int| 1 <= l < s0.n() implies !contains_key(
                                    s0.inputs_view(),
                                    l,
                                    m@,
                                ) by {
                                    if contains_key(s0.inputs_view(), l, m@) {
                                        let e = choose|e: int|
                                            0 <= e < ow.len() && ow[e].0 == l;
                                        assert(ow[e].0 == 0);
                                    }
                                }
                            } else {
                                if op_emits(MergeOp::Difference, s0.inputs_view(), m@) {
                                    let e0 = choose|e: int| 0 <= e < ow.len() && ow[e].0 == 0;
                                    assert forall|e: int| 0 <= e < ow.len() implies ow[e].0
                                        == 0 by {
                                        assert(contains_key(s0.inputs_view(), ow[e].0, m@));
                                        if ow[e].0 != 0 {
                                            assert(1 <= ow[e].0 < s0.n());
                                        }
                                    }
                                    assert(ow.len() == 1) by {
                                        if ow.len() > 1 {
                                            assert(ow[0].0 < ow[1].0);
                                        }
                                    }
                                    assert(vals@.map_values(
                                        |iv: IndexedValue| (iv.index as int, iv.value),
                                    )[0] == ow[0]);
                                    assert(vals@[0].index as int == 0);
                                }
                            }
                        },
                        MergeOp::SymmetricDifference => {
                            assert(vals.len() == occ_count(s0.inputs_view(), m@));
                        },
                    }
                }
            }
            // the advanced state keeps the invariant's ordering facts
            proof {
                assert forall|l: int, a: int| #[trigger] self.key_at(l, a) == s0.key_at(
                    l,
                    a,
                ) by {
                    assert(self.inputs_view() == s0.inputs_view());
                }
                assert forall|l: int| #[trigger] self.len_at(l) == s0.len_at(l) by {
                    assert(self.inputs_view() == s0.inputs_view());
                }
                // cursors moved forward, within bounds
                assert forall|l: int| 0 <= l < n implies s0.pos_at(l) <= #[trigger] self.pos_at(l)
                    && self.pos_at(l) <= self.len_at(l) by {
                    if s0.live(l) && s0.head(l) == m@ {
                        assert(self.pos_at(l) == s0.pos_at(l) + 1);
                    } else {
                        assert(self.pos_at(l) == s0.pos_at(l));
                    }
                }
                // every consumed key of the old state is strictly below m
                assert forall|ii: int, a: int|
                    0 <= ii < n && 0 <= a < s0.pos_at(ii) implies lex_lt(
                    #[trigger] s0.key_at(ii, a),
                    m@,
                ) by {
                    assert(lex_lt(s0.key_at(ii, a), s0.key_at(mi as int, s0.pos_at(mi as int))));
                }
                assert forall|e: int| 0 <= e < s0.hist@.len() implies lex_lt(
                    #[trigger] s0.hist@[e],
                    m@,
                ) by {
                    assert(s0.processed(s0.hist@[e]));
                    let (ii, a) = choose|ii: int, a: int|
                        0 <= ii < s0.n() && 0 <= a < s0.pos_at(ii) && #[trigger] s0.key_at(ii, a)
                            == s0.hist@[e];
                }
                // consumed keys stay strictly below unconsumed ones
                assert forall|ii: int, jj: int, a: int, b: int|
                    0 <= ii < n && 0 <= jj < n && 0 <= a < self.pos_at(ii) && self.pos_at(jj) <= b
                        < self.len_at(jj) implies lex_lt(
                    #[trigger] self.key_at(ii, a),
                    #[trigger] self.key_at(jj, b),
                ) by {
                    assert(s0.pos_at(jj) <= b && b < s0.len_at(jj));
                    if a < s0.pos_at(ii) {
                        assert(lex_lt(s0.key_at(ii, a), s0.key_at(jj, b)));
                    } else {
                        // a is the newly consumed frontier entry of input ii
                        assert(s0.live(ii) && s0.head(ii) == m@);
                        assert(a == s0.pos_at(ii));
                        assert(s0.key_at(ii, a) == m@);
                        if s0.pos_at(jj) < b {
                            assert(s0.live(jj));
                            assert(lex_lt(s0.key_at(jj, s0.pos_at(jj)), s0.key_at(jj, b)));
                            lemma_lex_trichotomy(s0.head(jj), m@);
                            if s0.head(jj) != m@ {
                                lemma_lex_trans(m@, s0.head(jj), s0.key_at(jj, b));
                            }
                        } else {
                            // b is input jj's head, which was not advanced
                            assert(self.pos_at(jj) == s0.pos_at(jj));
                            assert(!(s0.live(jj) && s0.head(jj) == m@));
                            assert(s0.live(jj));
                            lemma_lex_trichotomy(s0.head(jj), m@);
                        }
                    }
                }
            }
            if emit {
                let ghost s1 = *self;
                proof {
                    self.hist@ = self.hist@.push(m@);
                    assert(self.pos@ == s1.pos@ && self.inputs@ == s1.inputs@ && self.op
                        == s1.op);
                    assert(self.hist@ == s0.hist@.push(m@));
                    // bridge the new state's cursors and keys to the advanced state
                    assert forall|l: int| #[trigger] self.pos_at(l) == s1.pos_at(l) by {}
                    assert forall|l: int| #[trigger] self.len_at(l) == s1.len_at(l) by {
                        assert(self.inputs_view() == s1.inputs_view());
                    }
                    assert forall|l: int, a: int| #[trigger] self.key_at(l, a) == s1.key_at(
                        l,
                        a,
                    ) by {
                        assert(self.inputs_view() == s1.inputs_view());
                    }
                    // the new history is still strictly sorted
                    assert(sorted_strict(self.hist@)) by {
                        assert forall|e1: int, e2: int|
                            0 <= e1 < e2 < self.hist@.len() implies lex_lt(
                            self.hist@[e1],
                            self.hist@[e2],
                        ) by {
                            if e2 == self.hist@.len() - 1 {
                                assert(self.hist@[e1] == s0.hist@[e1]);
                                assert(lex_lt(s0.hist@[e1], m@));
                            } else {
                                assert(self.hist@[e1] == s0.hist@[e1]);
                                assert(self.hist@[e2] == s0.hist@[e2]);
                            }
                        }
                    }
                    // every emitted key is consumed, m now included
                    assert forall|e: int| 0 <= e < self.hist@.len() implies self.processed(
                        #[trigger] self.hist@[e],
                    ) by {
                        if e < self.hist@.len() - 1 {
                            assert(s0.processed(s0.hist@[e]));
                            let (ii, a) = choose|ii: int, a: int|
                                0 <= ii < s0.n() && 0 <= a < s0.pos_at(ii) && #[trigger] s0.key_at(
                                    ii,
                                    a,
                                ) == s0.hist@[e];
                            assert(s1.pos_at(ii) >= s0.pos_at(ii));
                            assert(self.pos_at(ii) >= s0.pos_at(ii));
                            assert(self.key_at(ii, a) == s0.key_at(ii, a));
                            assert(self.hist@[e] == s0.hist@[e]);
                        } else {
                            assert(s1.pos_at(mi as int) == s0.pos_at(mi as int) + 1);
                            assert(self.pos_at(mi as int) == s0.pos_at(mi as int) + 1);
                            assert(self.key_at(mi as int, s0.pos_at(mi as int)) == s0.key_at(
                                mi as int,
                                s0.pos_at(mi as int),
                            ));
                            assert(self.hist@[e] == m@);
                        }
                    }
                    // every consumed key is emitted exactly when the policy says
                    assert forall|ii: int, a: int|
                        0 <= ii < n && 0 <= a < self.pos_at(ii) implies (self.hist@.contains(
                        #[trigger] self.key_at(ii, a),
                    ) <==> op_emits(self.op, self.inputs_view(), self.key_at(ii, a))) by {
                        assert(self.pos_at(ii) == s1.pos_at(ii));
                        assert(self.key_at(ii, a) == s0.key_at(ii, a));
                        let k = s0.key_at(ii, a);
                        assert(op_emits(self.op, self.inputs_view(), k) == op_emits(
                            s0.op_spec(),
                            s0.inputs_view(),
                            k,
                        )) by {
                            assert(self.inputs_view() == s0.inputs_view());
                            assert(self.op == s0.op_spec());
                        }
                        if a < s0.pos_at(ii) {
                            assert(lex_lt(k, m@));
                            lemma_lex_trichotomy(k, m@);
                            assert(s0.hist@.contains(k) <==> op_emits(
                                s0.op_spec(),
                                s0.inputs_view(),
                                k,
                            ));
                            assert(self.hist@.contains(k) <==> s0.hist@.contains(k)) by {
                                if self.hist@.contains(k) {
                                    let e = choose|e: int|
                                        0 <= e < self.hist@.len() && self.hist@[e] == k;
                                    assert(e < self.hist@.len() - 1);
                                    assert(s0.hist@[e] == k);
                                }
                                if s0.hist@.contains(k) {
                                    let e = choose|e: int|
                                        0 <= e < s0.hist@.len() && s0.hist@[e] == k;
                                    assert(self.hist@[e] == k);
                                }
                            }
                        } else {
                            assert(s0.live(ii) && s0.head(ii) == m@);
                            assert(a == s0.pos_at(ii));
                            assert(k == m@);
                            assert(self.hist@[self.hist@.len() - 1] == m@);
                            assert(self.hist@.contains(m@));
                        }
                    }
                    // the emitted key is owed, and is the least key owed
                    assert(old(self).owes(m@)) by {
                        assert(old(self).inputs_view() == s0.inputs_view());
                        assert(old(self).op_spec() == s0.op_spec());
                        assert(old(self).emitted() == s0.hist@);
                        if s0.hist@.len() > 0 {
                            assert(lex_lt(s0.hist@[s0.hist@.len() - 1], m@));
                        }
                    }
                    assert forall|j: Seq<u8>| #[trigger] old(self).owes(j) && j != m@ implies
                        lex_lt(m@, j) by {
                        assert(s0.owes(j)) by {
                            assert(old(self).inputs_view() == s0.inputs_view());
                            assert(old(self).emitted() == s0.hist@);
                        }
                        lemma_pending_not_below_frontier(&s0, mi as int, m@, j);
                    }
                    assert(vals@.map_values(|iv: IndexedValue| (iv.index as int, iv.value))
                        == owners(old(self).inputs_view(), m@)) by {
                        assert(old(self).inputs_view() == s0.inputs_view());
                    }
                    assert(self.emitted() == old(self).emitted().push(m@));
                    // an emission consumed at least the frontier entry
                    assert(self.pos_at(mi as int) == s0.pos_at(mi as int) + 1);
                    lemma_rem_mono(&s0, self, 0);
                    lemma_rem_nonneg(self, 0);
                    assert(0 <= self.remaining() < s0.remaining());
                }
                return Some((m, vals));
            }
            proof {
                // the frontier key was decided against; the history is unchanged
                assert forall|e: int| 0 <= e < self.hist@.len() implies self.processed(
                    #[trigger] self.hist@[e],
                ) by {
                    assert(s0.processed(s0.hist@[e]));
                    let (ii, a) = choose|ii: int, a: int|
                        0 <= ii < s0.n() && 0 <= a < s0.pos_at(ii) && #[trigger] s0.key_at(ii, a)
                            == s0.hist@[e];
                    assert(self.pos_at(ii) >= s0.pos_at(ii));
                    assert(self.key_at(ii, a) == s0.key_at(ii, a));
                }
                assert forall|ii: int, a: int|
                    0 <= ii < n && 0 <= a < self.pos_at(ii) implies (self.hist@.contains(
                    #[trigger] self.key_at(ii, a),
                ) <==> op_emits(self.op, self.inputs_view(), self.key_at(ii, a))) by {
                    assert(self.key_at(ii, a) == s0.key_at(ii, a));
                    let k = s0.key_at(ii, a);
                    assert(op_emits(self.op, self.inputs_view(), k) == op_emits(
                        s0.op_spec(),
                        s0.inputs_view(),
                        k,
                    )) by {
                        assert(self.inputs_view() == s0.inputs_view());
                        assert(self.op == s0.op_spec());
                    }
                    if a < s0.pos_at(ii) {
                        assert(s0.hist@.contains(k) <==> op_emits(
                            s0.op_spec(),
                            s0.inputs_view(),
                            k,
                        ));
                    } else {
                        assert(s0.live(ii) && s0.head(ii) == m@);
                        assert(a == s0.pos_at(ii));
                        assert(k == m@);
                        assert(!op_emits(s0.op_spec(), s0.inputs_view(), m@));
                        assert(!self.hist@.contains(m@)) by {
                            if self.hist@.contains(m@) {
                                let e = choose|e: int|
                                    0 <= e < self.hist@.len() && self.hist@[e] == m@;
                                assert(lex_lt(s0.hist@[e], m@));
                                lemma_lex_trichotomy(m@, m@);
                            }
                        }
                    }
                }
                // at least the frontier input advanced, so the merge shrinks
                assert(self.pos_at(mi as int) == s0.pos_at(mi as int) + 1);
                lemma_rem_mono(&s0, self, 0);
                lemma_rem_nonneg(self, 0);
                assert(0 <= self.remaining() < s0.remaining());
            }
        }
    }
}

/// A mutable collection of sorted input streams, materialized in push
/// order; it is consumed exactly once by the choice of operation, which
/// yields the derived stream.
pub struct OpBuilder {
    inputs: Vec<Vec<(Vec<u8>, u64)>>,
}

impl OpBuilder {
    /// The full input sequences, in push order.
    pub closed spec fn inputs_view(&self) -> Seq<Seq<(Seq<u8>, u64)>> {
        self.inputs@.map_values(|v: Vec<(Vec<u8>, u64)>| crate::order::entries_view(v@))
    }

    /// The inputs' key sequences, in push order.
    pub open spec fn input_keys(&self) -> Seq<Seq<Seq<u8>>> {
        self.inputs_view().map_values(|es: Seq<(Seq<u8>, u64)>| entry_keys(es))
    }

    /// At least one input, each sorted strictly by key.
    pub open spec fn wf(&self) -> bool {
        self.inputs_view().len() >= 1 && forall|i: int|
            0 <= i < self.inputs_view().len() ==> sorted_strict(
                entry_keys(#[trigger] self.inputs_view()[i]),
            )
    }

    /// Starts an operation over one input.
    pub fn new_with(first: Vec<(Vec<u8>, u64)>) -> (r: OpBuilder)
        requires
            sorted_strict(entry_keys(crate::order::entries_view(first@))),
        ensures
            r.wf(),
            r.inputs_view() =~= seq![crate::order::entries_view(first@)],
    {
        let mut inputs: Vec<Vec<(Vec<u8>, u64)>> = Vec::new();
        inputs.push(first);
        let r = OpBuilder { inputs };
        proof {
            assert(r.inputs_view() =~= seq![crate::order::entries_view(first@)]);
        }
        r
    }

    /// Adds one more input to the operation.
    pub fn push_entries(&mut self, entries: Vec<(Vec<u8>, u64)>)
        requires
            sorted_strict(entry_keys(crate::order::entries_view(entries@))),
        ensures
            final(self).inputs_view() == old(self).inputs_view().push(
                crate::order::entries_view(entries@),
            ),
            old(self).wf() ==> final(self).wf(),
    {
        let ghost pre = self.inputs_view();
        self.inputs.push(entries);
        proof {
            assert(self.inputs_view() =~= pre.push(crate::order::entries_view(entries@)));
        }
    }

    /// Consumes the builder into the derived stream computing `op` over the
    /// inputs, positioned at the start.
    pub fn finish(self, op: MergeOp) -> (r: MergeStream)
        requires
            self.wf(),
        ensures
            r.wf(),
            r.op_spec() == op,
            r.inputs_view() == self.inputs_view(),
            r.emitted() == Seq::<Seq<u8>>::empty(),
    {
        let n = self.inputs.len();
        let mut pos: Vec<usize> = Vec::new();
        let mut i: usize = 0;
        while i < n
            invariant
                i <= n,
                pos@.len() == i,
                forall|l: int| 0 <= l < i ==> pos@[l] == 0,
            decreases n - i,
        {
            pos.push(0);
            i = i + 1;
        }
        let r = MergeStream { op, inputs: self.inputs, pos, hist: Ghost(Seq::empty()) };
        proof {
            assert(r.wf()) by {
                assert forall|i2: int, a: int, b: int|
                    0 <= i2 < r.n() && 0 <= a < b < r.len_at(i2) implies lex_lt(
                    #[trigger] r.key_at(i2, a),
                    #[trigger] r.key_at(i2, b),
                ) by {
                    assert(sorted_strict(entry_keys(r.inputs_view()[i2])));
                    assert(entry_keys(r.inputs_view()[i2])[a] == r.key_at(i2, a));
                    assert(entry_keys(r.inputs_view()[i2])[b] == r.key_at(i2, b));
                }
            }
        }
        r
    }
}

/// Drains a derived stream and hands back the emitted keys: this is the
/// algebra's summary statement, that the stream yields exactly the keys it
/// still owed, each once, in strictly ascending order.
pub fn merge_collect_keys(st: &mut MergeStream) -> (r: Vec<Vec<u8>>)
    requires
        old(st).wf(),
    ensures
        final(st).wf(),
        sorted_strict(crate::order::keys_view(r@)),
        forall|k: Seq<u8>|
            crate::order::keys_view(r@).contains(k) <==> #[trigger] old(st).owes(k),
{
    let mut out: Vec<Vec<u8>> = Vec::new();
    loop
        invariant
            st.wf(),
            st.op_spec() == old(st).op_spec(),
            st.inputs_view() == old(st).inputs_view(),
            st.emitted() == old(st).emitted() + crate::order::keys_view(out@),
            forall|k: Seq<u8>|
                #[trigger] old(st).owes(k) <==> (crate::order::keys_view(out@).contains(k)
                    || st.owes(k)),
        decreases st.remaining(),
    {
        let ghost pre_out = crate::order::keys_view(out@);
        let ghost mid = *st;
        match st.next() {
            Some(item) => {
                let (k, _vals) = item;
                out.push(k);
                proof {
                    assert(crate::order::keys_view(out@) =~= pre_out.push(k@));
                    assert(st.emitted() == mid.emitted().push(k@));
                    assert(st.emitted() =~= old(st).emitted() + crate::order::keys_view(out@));
                    let outv = crate::order::keys_view(out@);
                    assert(outv[outv.len() - 1] == k@);
                    assert(outv.contains(k@));
                    assert forall|j: Seq<u8>| #[trigger] old(st).owes(j) implies (outv.contains(j)
                        || st.owes(j)) by {
                        if !pre_out.contains(j) && j != k@ {
                            assert(mid.owes(j));
                            assert(lex_lt(k@, j));
                            assert(st.emitted().last() == k@);
                        }
                        if pre_out.contains(j) {
                            let e = choose|e: int| 0 <= e < pre_out.len() && pre_out[e] == j;
                            assert(outv[e] == j);
                        }
                    }
                    assert forall|j: Seq<u8>| outv.contains(j) || st.owes(j)
                        implies #[trigger] old(st).owes(j) by {
                        if outv.contains(j) {
                            let e = choose|e: int| 0 <= e < outv.len() && outv[e] == j;
                            if e < outv.len() - 1 {
                                assert(pre_out[e] == j);
                                assert(pre_out.contains(j));
                            } else {
                                assert(j == k@);
                                assert(mid.owes(k@));
                            }
                        }
                        if st.owes(j) {
                            assert(st.emitted().last() == k@);
                            assert(lex_lt(k@, j));
                            assert(mid.owes(j)) by {
                                if mid.emitted().len() > 0 {
                                    assert(lex_lt(mid.emitted().last(), k@));
                                    lemma_lex_trans(mid.emitted().last(), k@, j);
                                }
                            }
                        }
                    }
                }
            },
            None => {
                proof {
                    assert forall|k: Seq<u8>| crate::order::keys_view(out@).contains(k)
                        <==> #[trigger] old(st).owes(k) by {}
                    let ks = st.emitted();
                    assert(sorted_strict(ks));
                    assert forall|i: int, j: int|
                        0 <= i < j < crate::order::keys_view(out@).len() implies lex_lt(
                        #[trigger] crate::order::keys_view(out@)[i],
                        #[trigger] crate::order::keys_view(out@)[j],
                    ) by {
                        let base = old(st).emitted().len() as int;
                        assert(ks[base + i] == crate::order::keys_view(out@)[i]);
                        assert(ks[base + j] == crate::order::keys_view(out@)[j]);
                    }
                }
                return out;
            },
        }
    }
}

} // verus!
