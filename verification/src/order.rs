//! Byte-lexicographic order on keys.
//!
//! Keys of a structure are byte strings, compared the way the index engine
//! compares them: shorter prefixes sort first, otherwise the first differing
//! byte decides.

use vstd::prelude::*;

verus! {

/// `a` comes strictly before `b` in byte-lexicographic order.
pub open spec fn lex_lt(a: Seq<u8>, b: Seq<u8>) -> bool
    decreases a.len(),
{
    if b.len() == 0 {
        false
    } else if a.len() == 0 {
        true
    } else if a[0] != b[0] {
        a[0] < b[0]
    } else {
        lex_lt(a.drop_first(), b.drop_first())
    }
}

/// `a` comes before `b`, or equals it.
pub open spec fn lex_le(a: Seq<u8>, b: Seq<u8>) -> bool {
    lex_lt(a, b) || a == b
}

/// A sequence of keys is strictly increasing; this is the invariant every
/// structure's key sequence satisfies (it also implies the keys are unique).
pub open spec fn sorted_strict(ks: Seq<Seq<u8>>) -> bool {
    forall|i: int, j: int| 0 <= i < j < ks.len() ==> lex_lt(ks[i], ks[j])
}

/// The view of a vector of keys as a sequence of byte sequences.
pub open spec fn keys_view(v: Seq<Vec<u8>>) -> Seq<Seq<u8>> {
    v.map_values(|x: Vec<u8>| x@)
}

/// Exactly one of `lex_lt(a, b)`, `a == b`, `lex_lt(b, a)` holds.
pub proof fn lemma_lex_trichotomy(a: Seq<u8>, b: Seq<u8>)
    ensures
        lex_lt(a, b) || a == b || lex_lt(b, a),
        lex_lt(a, b) ==> a != b && !lex_lt(b, a),
        a == b ==> !lex_lt(a, b) && !lex_lt(b, a),
    decreases a.len(),
{
    if a.len() == 0 || b.len() == 0 {
        if a.len() == 0 && b.len() == 0 {
            assert(a =~= b);
        }
    } else if a[0] == b[0] {
        lemma_lex_trichotomy(a.drop_first(), b.drop_first());
        if a.drop_first() == b.drop_first() {
            assert forall|i: int| 0 <= i < a.len() implies a[i] == b[i] by {
                if i > 0 {
                    assert(a.drop_first()[i - 1] == b.drop_first()[i - 1]);
                }
            }
            assert(a =~= b);
        }
        if a == b {
            assert(a.drop_first() =~= b.drop_first());
        }
    }
}

/// Strict byte-lexicographic order is transitive.
pub proof fn lemma_lex_trans(a: Seq<u8>, b: Seq<u8>, c: Seq<u8>)
    requires
        lex_lt(a, b),
        lex_lt(b, c),
    ensures
        lex_lt(a, c),
    decreases a.len(),
{
    if a.len() == 0 {
    } else if a[0] == c[0] {
        if a[0] == b[0] {
            lemma_lex_trans(a.drop_first(), b.drop_first(), c.drop_first());
        }
    }
}

/// Dropping an equal prefix of length `k` from both keys does not change
/// their relative order.
pub proof fn lemma_lex_skip(a: Seq<u8>, b: Seq<u8>, k: int)
    requires
        0 <= k <= a.len(),
        k <= b.len(),
        forall|j: int| 0 <= j < k ==> a[j] == b[j],
    ensures
        lex_lt(a, b) <==> lex_lt(a.skip(k), b.skip(k)),
    decreases k,
{
    if k > 0 {
        assert(a.drop_first().skip(k - 1) =~= a.skip(k));
        assert(b.drop_first().skip(k - 1) =~= b.skip(k));
        lemma_lex_skip(a.drop_first(), b.drop_first(), k - 1);
    } else {
        assert(a.skip(0) =~= a);
        assert(b.skip(0) =~= b);
    }
}

/// One end of a range query over keys: open, inclusive at a key, or
/// exclusive at a key. A later bound-setting call replaces the earlier one.
#[derive(Debug)]
pub enum RangeBound {
    Unbounded,
    Included(Vec<u8>),
    Excluded(Vec<u8>),
}

/// `k` lies above the lower bound `b`.
pub open spec fn above_lower(b: RangeBound, k: Seq<u8>) -> bool {
    match b {
        RangeBound::Unbounded => true,
        RangeBound::Included(v) => lex_le(v@, k),
        RangeBound::Excluded(v) => lex_lt(v@, k),
    }
}

/// `k` lies below the upper bound `b`.
pub open spec fn below_upper(b: RangeBound, k: Seq<u8>) -> bool {
    match b {
        RangeBound::Unbounded => true,
        RangeBound::Included(v) => lex_le(k, v@),
        RangeBound::Excluded(v) => lex_lt(k, v@),
    }
}

/// `k` lies within the two bounds.
pub open spec fn in_range(lower: RangeBound, upper: RangeBound, k: Seq<u8>) -> bool {
    above_lower(lower, k) && below_upper(upper, k)
}

/// The view of a vector of key-value entries.
pub open spec fn entries_view(v: Seq<(Vec<u8>, u64)>) -> Seq<(Seq<u8>, u64)> {
    v.map_values(|p: (Vec<u8>, u64)| (p.0@, p.1))
}

/// The keys of a sequence of entries, in order.
pub open spec fn entry_keys(es: Seq<(Seq<u8>, u64)>) -> Seq<Seq<u8>> {
    es.map_values(|p: (Seq<u8>, u64)| p.0)
}

/// The value stored under `k`, if any; entries are keyed uniquely, so the
/// first match is the only one.
pub open spec fn entries_get(es: Seq<(Seq<u8>, u64)>, k: Seq<u8>) -> Option<u64>
    decreases es.len(),
{
    if es.len() == 0 {
        None
    } else if es.first().0 == k {
        Some(es.first().1)
    } else {
        entries_get(es.drop_first(), k)
    }
}

/// `entries_get` finds a value exactly when some entry holds the key.
pub proof fn lemma_entries_get_some(es: Seq<(Seq<u8>, u64)>, k: Seq<u8>)
    ensures
        entries_get(es, k) is Some <==> entry_keys(es).contains(k),
        entries_get(es, k) matches Some(v) ==> exists|i: int|
            0 <= i < es.len() && es[i] == (k, v),
    decreases es.len(),
{
    if es.len() > 0 {
        lemma_entries_get_some(es.drop_first(), k);
        if es.first().0 == k {
            assert(entry_keys(es)[0] == k);
        } else {
            assert(entry_keys(es.drop_first()) =~= entry_keys(es).drop_first());
            if entry_keys(es).contains(k) {
                let i = choose|i: int| 0 <= i < entry_keys(es).len() && entry_keys(es)[i] == k;
                assert(entry_keys(es).drop_first()[i - 1] == k);
            }
            match entries_get(es.drop_first(), k) {
                Some(v) => {
                    let i = choose|i: int|
                        0 <= i < es.drop_first().len() && es.drop_first()[i] == (k, v);
                    assert(es[i + 1] == (k, v));
                },
                None => {},
            }
        }
    }
}

/// Result of comparing two keys.
#[derive(Clone, Copy, Debug, PartialEq, Eq, Structural)]
pub enum KeyOrder {
    Less,
    Equal,
    Greater,
}

/// Compares two keys in byte-lexicographic order.
pub fn lex_cmp(a: &Vec<u8>, b: &Vec<u8>) -> (r: KeyOrder)
    ensures
        r == KeyOrder::Less <==> lex_lt(a@, b@),
        r == KeyOrder::Equal <==> a@ == b@,
        r == KeyOrder::Greater <==> lex_lt(b@, a@),
{
    proof {
        lemma_lex_trichotomy(a@, b@);
    }
    let mut i: usize = 0;
    loop
        invariant
            i <= a.len(),
            i <= b.len(),
            forall|j: int| 0 <= j < i ==> a@[j] == b@[j],
        ensures
            (lex_lt(a@, b@) || a@ == b@ || lex_lt(b@, a@)),
        decreases a.len() - i,
    {
        proof {
            lemma_lex_skip(a@, b@, i as int);
            lemma_lex_skip(b@, a@, i as int);
        }
        if i == a.len() && i == b.len() {
            assert(a@ =~= b@);
            return KeyOrder::Equal;
        }
        if i == a.len() {
            assert(lex_lt(a@.skip(i as int), b@.skip(i as int)));
            return KeyOrder::Less;
        }
        if i == b.len() {
            assert(lex_lt(b@.skip(i as int), a@.skip(i as int)));
            return KeyOrder::Greater;
        }
        if a[i] < b[i] {
            assert(lex_lt(a@.skip(i as int), b@.skip(i as int)));
            return KeyOrder::Less;
        }
        if a[i] > b[i] {
            assert(lex_lt(b@.skip(i as int), a@.skip(i as int)));
            return KeyOrder::Greater;
        }
        i = i + 1;
    }
}

/// A strictly sorted key sequence contains no key twice.
pub proof fn lemma_sorted_unique(ks: Seq<Seq<u8>>, i: int, j: int)
    requires
        sorted_strict(ks),
        0 <= i < ks.len(),
        0 <= j < ks.len(),
        ks[i] == ks[j],
    ensures
        i == j,
{
    if i != j {
        if i < j {
            lemma_lex_trichotomy(ks[i], ks[j]);
        } else {
            lemma_lex_trichotomy(ks[j], ks[i]);
        }
    }
}

/// Two keys a gap apart in an adjacently increasing sequence are ordered.
proof fn lemma_chain(ks: Seq<Seq<u8>>, i: int, j: int)
    requires
        forall|l: int| 0 <= l < ks.len() - 1 ==> lex_lt(#[trigger] ks[l], ks[l + 1]),
        0 <= i < j < ks.len(),
    ensures
        lex_lt(ks[i], ks[j]),
    decreases j - i,
{
    if j > i + 1 {
        lemma_chain(ks, i, j - 1);
        lemma_lex_trans(ks[i], ks[j - 1], ks[j]);
    }
}

/// A sequence whose every key is strictly below its successor is strictly
/// sorted as a whole.
pub proof fn lemma_adjacent_sorted(ks: Seq<Seq<u8>>)
    requires
        forall|l: int| 0 <= l < ks.len() - 1 ==> lex_lt(#[trigger] ks[l], ks[l + 1]),
    ensures
        sorted_strict(ks),
{
    assert forall|i: int, j: int| 0 <= i < j < ks.len() implies lex_lt(ks[i], ks[j]) by {
        lemma_chain(ks, i, j);
    }
}

/// Decides whether a key vector is strictly increasing; the openers use it
/// to validate a deserialized structure's invariant at run time instead of
/// taking it on trust.
pub fn keys_sorted(ks: &Vec<Vec<u8>>) -> (r: bool)
    ensures
        r == sorted_strict(keys_view(ks@)),
{
    let n = ks.len();
    if n < 2 {
        return true;
    }
    let mut i: usize = 1;
    while i < n
        invariant
            1 <= i <= n,
            n == ks@.len(),
            forall|l: int| 0 <= l < i - 1 ==> lex_lt(
                #[trigger] keys_view(ks@)[l],
                keys_view(ks@)[l + 1],
            ),
        decreases n - i,
    {
        let c = lex_cmp(&ks[i - 1], &ks[i]);
        if !(c == KeyOrder::Less) {
            proof {
                assert(!lex_lt(keys_view(ks@)[i - 1], keys_view(ks@)[i as int]));
                assert(!sorted_strict(keys_view(ks@))) by {
                    if sorted_strict(keys_view(ks@)) {
                        assert(lex_lt(keys_view(ks@)[i - 1], keys_view(ks@)[i as int]));
                    }
                }
            }
            return false;
        }
        i = i + 1;
    }
    proof {
        lemma_adjacent_sorted(keys_view(ks@));
    }
    true
}

} // verus!
