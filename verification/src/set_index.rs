//! The key-only structure: builders, queries, streams, range narrowing and
//! automaton searches.
//!
//! A [`SetIndex`] is immutable and exclusively owned; its keys are unique and
//! strictly increasing in byte-lexicographic order. A [`MemSetBuilder`] is
//! consumed exactly once by its finish operation, which yields the queryable
//! structure; ownership makes a builder used after finishing, or a structure
//! used after release, impossible rather than undefined.

use vstd::prelude::*;

use crate::algebra::{MergeOp, MergeStream, OpBuilder, merge_collect_keys};
use crate::backend;
use crate::backend::{LevAutomaton, RegexAutomaton, set_bytes_wf, set_keys_of_bytes};
use crate::order::{
    RangeBound, entries_view, entry_keys, in_range, keys_sorted, keys_view, lex_le, lex_lt,
    sorted_strict,
};
use crate::util::{Context, ErrorKind, OpError};

verus! {

/// An immutable, sorted key index.
pub struct SetIndex {
    inner: fst::Set,
}

impl SetIndex {
    /// The keys this structure holds, in stream order.
    pub closed spec fn keys(&self) -> Seq<Seq<u8>> {
        backend::set_keys(self.inner)
    }

    /// The keys as a mathematical set.
    pub open spec fn key_set(&self) -> Set<Seq<u8>> {
        self.keys().to_set()
    }

    /// The structure's invariant: its keys are strictly increasing (hence
    /// unique) and its stored length field counts them exactly. Every
    /// constructor establishes it — the finishes by construction, the opener
    /// by checking both halves at run time.
    pub closed spec fn wf(&self) -> bool {
        backend::set_consistent(self.inner)
    }

    /// The invariant implies the key order every caller reasons with.
    pub proof fn lemma_wf_sorted(&self)
        requires
            self.wf(),
        ensures
            sorted_strict(self.keys()),
    {
    }
}

/// A mutable accumulator for a set, writing to a growable in-memory buffer;
/// it accepts keys in byte-lexicographic order and is consumed exactly once
/// by its finish operation.
pub struct MemSetBuilder {
    inner: fst::set::SetBuilder<Vec<u8>>,
}

impl MemSetBuilder {
    /// The keys accepted so far, in insertion order, repeats of the last key
    /// collapsed.
    pub closed spec fn keys(&self) -> Seq<Seq<u8>> {
        backend::set_builder_keys(self.inner)
    }

    /// Whether an insert of `key` would be accepted: the builder is empty or
    /// `key` is not strictly below the last accepted key.
    pub open spec fn accepts(&self, key: Seq<u8>) -> bool {
        self.keys().len() == 0 || lex_le(self.keys().last(), key)
    }

    /// Whether an insert of `key` would extend the key sequence: accepted
    /// and not a repeat of the last key.
    pub open spec fn extends(&self, key: Seq<u8>) -> bool {
        self.keys().len() == 0 || lex_lt(self.keys().last(), key)
    }
}

/// Creates an empty in-memory set builder.
pub fn fst_memsetbuilder_new() -> (b: MemSetBuilder)
    ensures
        b.keys() == Seq::<Seq<u8>>::empty(),
{
    MemSetBuilder { inner: backend::set_builder_memory() }
}

/// Inserts a key into a set builder. Keys must arrive in byte-lexicographic
/// order: a key strictly below the last accepted one is rejected, recorded on
/// the context, and leaves the builder unchanged; a repeat of the last key is
/// accepted and collapsed. Returns whether the insert was accepted.
pub fn fst_memsetbuilder_insert(ctx: &mut Context, b: &mut MemSetBuilder, key: &Vec<u8>) -> (r:
    bool)
    ensures
        r == old(b).accepts(key@),
        old(b).extends(key@) ==> final(b).keys() == old(b).keys().push(key@),
        !old(b).extends(key@) ==> final(b).keys() == old(b).keys(),
        r ==> final(ctx).is_clear(),
        !r ==> final(ctx).reports(ErrorKind::ConstructionError),
{
    ctx.clear();
    match backend::set_builder_insert(&mut b.inner, key) {
        Ok(()) => true,
        Err(e) => {
            let (debug, display, description) = backend::fst_error_texts(&e);
            ctx.record(OpError { kind: ErrorKind::ConstructionError, debug, display, description });
            false
        },
    }
}

/// Consumes a set builder and yields the finished, queryable structure
/// holding exactly the accepted keys. Building in memory cannot fail, so the
/// structure is always produced and the context is left clear.
pub fn fst_memsetbuilder_finish(ctx: &mut Context, b: MemSetBuilder) -> (r: Option<SetIndex>)
    ensures
        r is Some,
        r matches Some(s) ==> s.keys() == b.keys() && s.wf(),
        final(ctx).is_clear(),
{
    ctx.clear();
    match backend::set_builder_into_bytes(b.inner) {
        Ok(bytes) => match backend::set_from_bytes(bytes) {
            Ok(s) => Some(SetIndex { inner: s }),
            Err(e) => {
                let (debug, display, description) = backend::fst_error_texts(&e);
                ctx.record(
                    OpError { kind: ErrorKind::ConstructionError, debug, display, description },
                );
                None
            },
        },
        Err(e) => {
            let (debug, display, description) = backend::fst_error_texts(&e);
            ctx.record(OpError { kind: ErrorKind::ConstructionError, debug, display, description });
            None
        },
    }
}

/// Opens a structure from its serialized bytes (the durable artifact a
/// finished builder wrote). Builder-written bytes always open, to exactly
/// the keys they encode. Because the engine's own acceptance test is
/// shallow, a deserialized structure is additionally validated here — its
/// keys must stream back in strict order and its stored length field must
/// count them exactly — so every structure handed out satisfies the
/// invariant. Bytes the engine rejects, and accepted bytes that fail the
/// validation, record a construction error instead. One risk remains open:
/// on corrupt bytes that pass the engine's acceptance test, the engine's
/// own traversal during validation may panic.
pub fn fst_set_open(ctx: &mut Context, data: Vec<u8>) -> (r: Option<SetIndex>)
    ensures
        set_bytes_wf(data@) ==> r is Some,
        r matches Some(s) ==> s.wf() && final(ctx).is_clear() && (set_bytes_wf(data@) ==> s.keys()
            == set_keys_of_bytes(data@)),
        r is None ==> final(ctx).reports(ErrorKind::ConstructionError),
{
    ctx.clear();
    match backend::set_from_bytes(data) {
        Ok(s) => {
            let keys = backend::set_key_vec(&s);
            let stored = backend::set_len(&s);
            if keys_sorted(&keys) && stored == keys.len() {
                Some(SetIndex { inner: s })
            } else {
                ctx.record(
                    OpError {
                        kind: ErrorKind::ConstructionError,
                        debug: "index keys out of order or miscounted".to_owned(),
                        display: "index keys out of order or miscounted".to_owned(),
                        description: "index keys out of order or miscounted".to_owned(),
                    },
                );
                None
            }
        },
        Err(e) => {
            let (debug, display, description) = backend::fst_error_texts(&e);
            ctx.record(OpError { kind: ErrorKind::ConstructionError, debug, display, description });
            None
        },
    }
}

/// Tests the membership of a single key. Never fails, so it takes no
/// context.
pub fn fst_set_contains(s: &SetIndex, key: &Vec<u8>) -> (r: bool)
    requires
        s.wf(),
    ensures
        r == s.keys().contains(key@),
{
    backend::set_contains(&s.inner, key)
}

/// The number of keys in the structure.
pub fn fst_set_len(s: &SetIndex) -> (r: usize)
    requires
        s.wf(),
    ensures
        r == s.keys().len(),
{
    backend::set_len(&s.inner)
}

/// Whether the two structures share no key; read-only on both operands.
pub fn fst_set_isdisjoint(s: &SetIndex, other: &SetIndex) -> (r: bool)
    requires
        s.wf(),
        other.wf(),
    ensures
        r == s.key_set().disjoint(other.key_set()),
{
    backend::set_is_disjoint(&s.inner, &other.inner)
}

/// Whether every key of `s` is a key of `other`.
pub fn fst_set_issubset(s: &SetIndex, other: &SetIndex) -> (r: bool)
    requires
        s.wf(),
        other.wf(),
    ensures
        r == s.key_set().subset_of(other.key_set()),
{
    backend::set_is_subset(&s.inner, &other.inner)
}

/// Whether every key of `other` is a key of `s`.
pub fn fst_set_issuperset(s: &SetIndex, other: &SetIndex) -> (r: bool)
    requires
        s.wf(),
        other.wf(),
    ensures
        r == other.key_set().subset_of(s.key_set()),
{
    backend::set_is_superset(&s.inner, &other.inner)
}

/// A single-direction, single-pass cursor over a sorted sequence of keys,
/// advanced one item at a time; it never rewinds, and once exhausted it
/// stays exhausted.
pub struct SetStream {
    keys: Vec<Vec<u8>>,
    pos: usize,
}

impl SetStream {
    /// The cursor position never runs past the end.
    pub closed spec fn wf(&self) -> bool {
        self.pos <= self.keys.len()
    }

    /// The items the stream has yet to yield, in order.
    pub closed spec fn rest(&self) -> Seq<Seq<u8>> {
        keys_view(self.keys@).skip(self.pos as int)
    }
}

/// Builds a stream over every key of the structure, in ascending order
/// (every constructor establishes `wf`, so the rest is strictly sorted).
pub fn fst_set_stream(s: &SetIndex) -> (r: SetStream)
    ensures
        r.wf(),
        r.rest() == s.keys(),
        s.wf() ==> sorted_strict(r.rest()),
{
    let keys = backend::set_key_vec(&s.inner);
    let r = SetStream { keys, pos: 0 };
    proof {
        assert(r.rest() =~= keys_view(r.keys@));
    }
    r
}

/// Advances a key stream: yields the next key in ascending order, or the
/// end-of-stream sentinel exactly once the items run out, after which every
/// further call yields the sentinel again without side effects.
pub fn fst_set_stream_next(st: &mut SetStream) -> (r: Option<Vec<u8>>)
    requires
        old(st).wf(),
    ensures
        final(st).wf(),
        r matches Some(k) ==> old(st).rest().len() > 0 && k@ == old(st).rest().first()
            && final(st).rest() == old(st).rest().drop_first(),
        r is None ==> old(st).rest().len() == 0 && *final(st) == *old(st),
{
    if st.pos < st.keys.len() {
        let k = vstd::slice::slice_to_vec(st.keys[st.pos].as_slice());
        let ghost prev = st.pos as int;
        st.pos = st.pos + 1;
        proof {
            assert(k@ == keys_view(old(st).keys@)[prev]);
            assert(st.rest() =~= old(st).rest().drop_first());
        }
        Some(k)
    } else {
        None
    }
}

/// Drains a key stream: repeated advances yield exactly the remaining
/// keys, in order, until the stream is exhausted. Applied to a full stream
/// over a finished structure, this is the builder round trip: the keys the
/// builder accepted come back, in insertion order, their count equal to the
/// structure's length.
pub fn fst_set_stream_collect(st: &mut SetStream) -> (r: Vec<Vec<u8>>)
    requires
        old(st).wf(),
    ensures
        final(st).wf(),
        keys_view(r@) == old(st).rest(),
        final(st).rest() == Seq::<Seq<u8>>::empty(),
{
    let mut out: Vec<Vec<u8>> = Vec::new();
    loop
        invariant
            st.wf(),
            keys_view(out@) + st.rest() == old(st).rest(),
        decreases st.rest().len(),
    {
        let ghost pre = keys_view(out@);
        match fst_set_stream_next(st) {
            Some(k) => {
                out.push(k);
                proof {
                    assert(keys_view(out@) =~= pre.push(k@));
                    assert(keys_view(out@) + st.rest() =~= old(st).rest());
                }
            },
            None => {
                proof {
                    assert(keys_view(out@) =~= old(st).rest());
                    assert(st.rest() =~= Seq::<Seq<u8>>::empty());
                }
                return out;
            },
        }
    }
}

/// A range query under construction: it narrows a stream over `set` to the
/// keys above `lower` and below `upper`. Each bound-setting call consumes
/// the builder and returns the narrowed one, and a later bound replaces an
/// earlier one on the same side.
pub struct SetStreamBuilder<'a> {
    pub set: &'a SetIndex,
    pub lower: RangeBound,
    pub upper: RangeBound,
}

impl<'a> SetStreamBuilder<'a> {
    /// The keys the finished stream will yield.
    pub open spec fn selected(&self) -> Seq<Seq<u8>> {
        self.set.keys().filter((|k: Seq<u8>| in_range(self.lower, self.upper, k)))
    }
}

/// Starts a range query over the whole structure, both bounds open.
pub fn fst_set_streambuilder_new<'a>(s: &'a SetIndex) -> (r: SetStreamBuilder<'a>)
    ensures
        *r.set == *s,
        r.lower is Unbounded,
        r.upper is Unbounded,
{
    SetStreamBuilder { set: s, lower: RangeBound::Unbounded, upper: RangeBound::Unbounded }
}

/// Sets an inclusive lower bound, replacing any earlier lower bound.
pub fn fst_set_streambuilder_add_ge<'a>(sb: SetStreamBuilder<'a>, bound: Vec<u8>) -> (r:
    SetStreamBuilder<'a>)
    ensures
        *r.set == *sb.set,
        r.lower == RangeBound::Included(bound),
        r.upper == sb.upper,
{
    SetStreamBuilder { set: sb.set, lower: RangeBound::Included(bound), upper: sb.upper }
}

/// Sets an exclusive lower bound, replacing any earlier lower bound.
pub fn fst_set_streambuilder_add_gt<'a>(sb: SetStreamBuilder<'a>, bound: Vec<u8>) -> (r:
    SetStreamBuilder<'a>)
    ensures
        *r.set == *sb.set,
        r.lower == RangeBound::Excluded(bound),
        r.upper == sb.upper,
{
    SetStreamBuilder { set: sb.set, lower: RangeBound::Excluded(bound), upper: sb.upper }
}

/// Sets an inclusive upper bound, replacing any earlier upper bound.
pub fn fst_set_streambuilder_add_le<'a>(sb: SetStreamBuilder<'a>, bound: Vec<u8>) -> (r:
    SetStreamBuilder<'a>)
    ensures
        *r.set == *sb.set,
        r.lower == sb.lower,
        r.upper == RangeBound::Included(bound),
{
    SetStreamBuilder { set: sb.set, lower: sb.lower, upper: RangeBound::Included(bound) }
}

/// Sets an exclusive upper bound, replacing any earlier upper bound.
pub fn fst_set_streambuilder_add_lt<'a>(sb: SetStreamBuilder<'a>, bound: Vec<u8>) -> (r:
    SetStreamBuilder<'a>)
    ensures
        *r.set == *sb.set,
        r.lower == sb.lower,
        r.upper == RangeBound::Excluded(bound),
{
    SetStreamBuilder { set: sb.set, lower: sb.lower, upper: RangeBound::Excluded(bound) }
}

/// Consumes the range builder into a stream over exactly the keys within
/// its bounds, in ascending order: the same keys a full stream would yield,
/// filtered to the range.
pub fn fst_set_streambuilder_finish(sb: SetStreamBuilder<'_>) -> (r: SetStream)
    requires
        sb.set.wf(),
    ensures
        r.wf(),
        r.rest() == sb.selected(),
        sorted_strict(r.rest()),
{
    let keys = backend::set_range_vec(&sb.set.inner, &sb.lower, &sb.upper);
    let r = SetStream { keys, pos: 0 };
    proof {
        assert(r.rest() =~= keys_view(r.keys@));
    }
    r
}

/// Runs a bounded-edit-distance search: a stream over exactly the keys
/// within the automaton's maximum distance of its query, in ascending order.
pub fn fst_set_levsearch(s: &SetIndex, aut: &LevAutomaton) -> (r: SetStream)
    requires
        s.wf(),
    ensures
        r.wf(),
        r.rest() == s.keys().filter(
            (|k: Seq<u8>| backend::lev_matches(aut.query_view(), aut.dist_spec(), k)),
        ),
        sorted_strict(r.rest()),
{
    let keys = backend::set_search_lev(&s.inner, aut);
    let r = SetStream { keys, pos: 0 };
    proof {
        assert(r.rest() =~= keys_view(r.keys@));
    }
    r
}

/// Runs a pattern search: a stream over exactly the keys fully matching the
/// automaton's pattern, in ascending order.
pub fn fst_set_regexsearch(s: &SetIndex, aut: &RegexAutomaton) -> (r: SetStream)
    requires
        s.wf(),
    ensures
        r.wf(),
        r.rest() == s.keys().filter((|k: Seq<u8>| backend::regex_matches(aut.pattern_view(), k))),
        sorted_strict(r.rest()),
{
    let keys = backend::set_search_regex(&s.inner, aut);
    let r = SetStream { keys, pos: 0 };
    proof {
        assert(r.rest() =~= keys_view(r.keys@));
    }
    r
}

/// Builds a key stream over an already sorted key vector; key streams over
/// maps reuse it.
pub(crate) fn set_stream_from_keys(keys: Vec<Vec<u8>>) -> (r: SetStream)
    ensures
        r.wf(),
        r.rest() == keys_view(keys@),
{
    let r = SetStream { keys, pos: 0 };
    proof {
        assert(r.rest() =~= keys_view(r.keys@));
    }
    r
}

/// Pairs each key with a zero value, so a key-only input can enter the
/// merge algebra's entry-shaped inputs.
fn keys_to_entries(keys: Vec<Vec<u8>>) -> (r: Vec<(Vec<u8>, u64)>)
    ensures
        entry_keys(entries_view(r@)) =~= keys_view(keys@),
{
    let n = keys.len();
    let mut r: Vec<(Vec<u8>, u64)> = Vec::new();
    let mut i: usize = 0;
    while i < n
        invariant
            i <= n,
            n == keys@.len(),
            r@.len() == i,
            forall|l: int| 0 <= l < i ==> entry_keys(entries_view(r@))[l] == keys_view(keys@)[l],
        decreases n - i,
    {
        let ghost pre = r@;
        let k = vstd::slice::slice_to_vec(keys[i].as_slice());
        r.push((k, 0));
        proof {
            assert(entry_keys(entries_view(r@))[i as int] == keys_view(keys@)[i as int]);
            assert(forall|l: int|
                0 <= l < i ==> #[trigger] entry_keys(entries_view(r@))[l] == entry_keys(
                    entries_view(pre),
                )[l]);
        }
        i = i + 1;
    }
    proof {
        assert(entry_keys(entries_view(r@)) =~= keys_view(keys@));
    }
    r
}

/// Starts a set operation with this structure's keys as its first input.
pub fn fst_set_make_opbuilder(s: &SetIndex) -> (r: OpBuilder)
    requires
        s.wf(),
    ensures
        r.wf(),
        r.input_keys() =~= seq![s.keys()],
{
    let entries = keys_to_entries(backend::set_key_vec(&s.inner));
    let r = OpBuilder::new_with(entries);
    proof {
        assert(r.input_keys() =~= seq![s.keys()]);
    }
    r
}

/// Adds a structure's keys as one more input of the operation; the
/// structure itself is only borrowed.
pub fn fst_set_opbuilder_push(ob: &mut OpBuilder, s: &SetIndex)
    requires
        s.wf(),
    ensures
        final(ob).input_keys() =~= old(ob).input_keys().push(s.keys()),
        old(ob).wf() ==> final(ob).wf(),
{
    let entries = keys_to_entries(backend::set_key_vec(&s.inner));
    ob.push_entries(entries);
    proof {
        assert(final(ob).input_keys() =~= old(ob).input_keys().push(s.keys()));
    }
}

/// Adds a range query's keys as one more input, consuming the range
/// builder.
pub fn fst_set_opbuilder_push_streambuilder(ob: &mut OpBuilder, sb: SetStreamBuilder<'_>)
    requires
        sb.set.wf(),
    ensures
        final(ob).input_keys() =~= old(ob).input_keys().push(sb.selected()),
        old(ob).wf() ==> final(ob).wf(),
{
    let entries = keys_to_entries(backend::set_range_vec(&sb.set.inner, &sb.lower, &sb.upper));
    ob.push_entries(entries);
    proof {
        assert(final(ob).input_keys() =~= old(ob).input_keys().push(sb.selected()));
    }
}

/// Adds a derived stream's remaining output as one more input, consuming
/// the stream (ownership of a derived input transfers).
pub fn fst_set_opbuilder_push_union(ob: &mut OpBuilder, u: MergeStream)
    requires
        u.wf(),
    ensures
        final(ob).input_keys().len() == old(ob).input_keys().len() + 1,
        final(ob).input_keys().drop_last() =~= old(ob).input_keys(),
        sorted_strict(final(ob).input_keys().last()),
        forall|k: Seq<u8>| final(ob).input_keys().last().contains(k) <==> #[trigger] u.owes(k),
        old(ob).wf() ==> final(ob).wf(),
{
    let mut u = u;
    let keys = merge_collect_keys(&mut u);
    let entries = keys_to_entries(keys);
    ob.push_entries(entries);
    proof {
        assert(final(ob).input_keys().last() =~= entry_keys(entries_view(entries@)));
        assert(final(ob).input_keys().drop_last() =~= old(ob).input_keys());
    }
}

/// Starts a set operation from a range query's keys.
pub fn fst_set_make_opbuilder_streambuilder(sb: SetStreamBuilder<'_>) -> (r: OpBuilder)
    requires
        sb.set.wf(),
    ensures
        r.wf(),
        r.input_keys() =~= seq![sb.selected()],
{
    let entries = keys_to_entries(backend::set_range_vec(&sb.set.inner, &sb.lower, &sb.upper));
    let r = OpBuilder::new_with(entries);
    proof {
        assert(r.input_keys() =~= seq![sb.selected()]);
    }
    r
}

/// Starts a set operation from a derived stream's remaining output,
/// consuming the stream.
pub fn fst_set_make_opbuilder_union(u: MergeStream) -> (r: OpBuilder)
    requires
        u.wf(),
    ensures
        r.wf(),
        r.input_keys().len() == 1,
        sorted_strict(r.input_keys().last()),
        forall|k: Seq<u8>| r.input_keys().last().contains(k) <==> #[trigger] u.owes(k),
{
    let mut u = u;
    let keys = merge_collect_keys(&mut u);
    let entries = keys_to_entries(keys);
    let r = OpBuilder::new_with(entries);
    proof {
        assert(r.input_keys().last() =~= entry_keys(entries_view(entries@)));
    }
    r
}

/// Consumes the operation builder into its union: the derived stream owing
/// exactly the keys present in at least one input.
pub fn fst_set_opbuilder_union(ob: OpBuilder) -> (r: MergeStream)
    requires
        ob.wf(),
    ensures
        r.wf(),
        r.op_spec() == MergeOp::Union,
        r.inputs_view() == ob.inputs_view(),
        r.emitted() == Seq::<Seq<u8>>::empty(),
{
    ob.finish(MergeOp::Union)
}

/// Consumes the operation builder into its intersection: the derived stream
/// owing exactly the keys present in every input.
pub fn fst_set_opbuilder_intersection(ob: OpBuilder) -> (r: MergeStream)
    requires
        ob.wf(),
    ensures
        r.wf(),
        r.op_spec() == MergeOp::Intersection,
        r.inputs_view() == ob.inputs_view(),
        r.emitted() == Seq::<Seq<u8>>::empty(),
{
    ob.finish(MergeOp::Intersection)
}

/// Consumes the operation builder into its difference: the derived stream
/// owing exactly the first input's keys that no other input holds.
pub fn fst_set_opbuilder_difference(ob: OpBuilder) -> (r: MergeStream)
    requires
        ob.wf(),
    ensures
        r.wf(),
        r.op_spec() == MergeOp::Difference,
        r.inputs_view() == ob.inputs_view(),
        r.emitted() == Seq::<Seq<u8>>::empty(),
{
    ob.finish(MergeOp::Difference)
}

/// Consumes the operation builder into its symmetric difference: the
/// derived stream owing exactly the keys present in an odd number of
/// inputs.
pub fn fst_set_opbuilder_symmetricdifference(ob: OpBuilder) -> (r: MergeStream)
    requires
        ob.wf(),
    ensures
        r.wf(),
        r.op_spec() == MergeOp::SymmetricDifference,
        r.inputs_view() == ob.inputs_view(),
        r.emitted() == Seq::<Seq<u8>>::empty(),
{
    ob.finish(MergeOp::SymmetricDifference)
}

/// Advances a derived set stream: the next emitted key is the least key the
/// stream still owes, and once the sentinel appears it stays, with nothing
/// more emitted.
pub fn fst_set_opstream_next(st: &mut MergeStream) -> (r: Option<Vec<u8>>)
    requires
        old(st).wf(),
    ensures
        final(st).wf(),
        final(st).op_spec() == old(st).op_spec(),
        final(st).inputs_view() == old(st).inputs_view(),
        r matches Some(k) ==> old(st).owes(k@) && final(st).emitted() == old(st).emitted().push(
            k@,
        ) && (forall|j: Seq<u8>| #[trigger] old(st).owes(j) && j != k@ ==> lex_lt(k@, j)),
        r is None ==> final(st).emitted() == old(st).emitted() && (forall|j: Seq<u8>|
            !(#[trigger] old(st).owes(j))),
{
    match st.next() {
        Some(item) => {
            let (k, _vals) = item;
            Some(k)
        },
        None => None,
    }
}

} // verus!
