//! The key-to-value structure: builders, lookups, entry and value streams,
//! range narrowing, automaton searches and the map side of the merge
//! algebra.
//!
//! A [`MapIndex`] is an immutable [`SetIndex`]-like structure that stores an
//! unsigned 64-bit value with each key. Because `0` is a valid stored
//! value, the value-only cursor signals exhaustion through the error
//! channel instead of a sentinel value.
//!
//! [`SetIndex`]: crate::set_index::SetIndex

use vstd::prelude::*;

use crate::algebra::{IndexedValue, MergeOp, MergeStream, OpBuilder, owners};
use crate::backend;
use crate::backend::{LevAutomaton, RegexAutomaton, map_bytes_wf, map_entries_of_bytes};
use crate::order::{
    RangeBound, entries_get, entries_view, entry_keys, in_range, keys_sorted, keys_view, lex_lt,
    sorted_strict,
};
use crate::set_index::{SetStream, set_stream_from_keys};
use crate::util::{Context, ErrorKind, OpError};

verus! {

/// The values of a sequence of entries, in entry order.
pub open spec fn entry_values(es: Seq<(Seq<u8>, u64)>) -> Seq<u64> {
    es.map_values(|p: (Seq<u8>, u64)| p.1)
}

/// An immutable, sorted key-to-value index.
pub struct MapIndex {
    inner: fst::Map,
}

impl MapIndex {
    /// The entries this structure holds, in stream order.
    pub closed spec fn entries(&self) -> Seq<(Seq<u8>, u64)> {
        backend::map_entries(self.inner)
    }

    /// The keys, in stream order.
    pub open spec fn keys(&self) -> Seq<Seq<u8>> {
        entry_keys(self.entries())
    }

    /// The structure's invariant: its keys are strictly increasing (hence
    /// unique) and its stored length field counts them exactly. Every
    /// constructor establishes it — the finish by construction, the opener
    /// by checking both halves at run time.
    pub closed spec fn wf(&self) -> bool {
        backend::map_consistent(self.inner)
    }

    /// The invariant implies the key order every caller reasons with.
    pub proof fn lemma_wf_sorted(&self)
        requires
            self.wf(),
        ensures
            sorted_strict(self.keys()),
    {
    }
}

/// A mutable accumulator for a map, writing to a growable in-memory buffer;
/// it accepts strictly increasing keys and is consumed exactly once by its
/// finish operation.
pub struct MemMapBuilder {
    inner: fst::map::MapBuilder<Vec<u8>>,
}

impl MemMapBuilder {
    /// The entries accepted so far, in insertion order.
    pub closed spec fn entries(&self) -> Seq<(Seq<u8>, u64)> {
        backend::map_builder_entries(self.inner)
    }

    /// Whether an insert under `key` would be accepted: the builder is
    /// empty or `key` is strictly above the last accepted key.
    pub open spec fn accepts(&self, key: Seq<u8>) -> bool {
        self.entries().len() == 0 || lex_lt(self.entries().last().0, key)
    }
}

/// Creates an empty in-memory map builder.
pub fn fst_memmapbuilder_new() -> (b: MemMapBuilder)
    ensures
        b.entries() == Seq::<(Seq<u8>, u64)>::empty(),
{
    MemMapBuilder { inner: backend::map_builder_memory() }
}

/// Inserts a key-value pair into a map builder. Keys must arrive strictly
/// increasing: a key at or below the last accepted one is rejected,
/// recorded on the context, and leaves the builder unchanged. Returns
/// whether the insert was accepted.
pub fn fst_memmapbuilder_insert(
    ctx: &mut Context,
    b: &mut MemMapBuilder,
    key: &Vec<u8>,
    val: u64,
) -> (r: bool)
    ensures
        r == old(b).accepts(key@),
        r ==> final(b).entries() == old(b).entries().push((key@, val)),
        !r ==> final(b).entries() == old(b).entries(),
        r ==> final(ctx).is_clear(),
        !r ==> final(ctx).reports(ErrorKind::ConstructionError),
{
    ctx.clear();
    match backend::map_builder_insert(&mut b.inner, key, val) {
        Ok(()) => true,
        Err(e) => {
            let (debug, display, description) = backend::fst_error_texts(&e);
            ctx.record(OpError { kind: ErrorKind::ConstructionError, debug, display, description });
            false
        },
    }
}

/// Consumes a map builder and yields the finished, queryable structure
/// holding exactly the accepted entries. Building in memory cannot fail, so
/// the structure is always produced and the context is left clear.
pub fn fst_memmapbuilder_finish(ctx: &mut Context, b: MemMapBuilder) -> (r: Option<MapIndex>)
    ensures
        r is Some,
        r matches Some(m) ==> m.entries() == b.entries() && m.wf(),
        final(ctx).is_clear(),
{
    ctx.clear();
    match backend::map_builder_into_bytes(b.inner) {
        Ok(bytes) => match backend::map_from_bytes(bytes) {
            Ok(m) => Some(MapIndex { inner: m }),
            Err(e) => {
                let (debug, display, description) = backend::fst_error_texts(&e);
                ctx.record(
                    OpError { kind: ErrorKind::ConstructionError, debug, display, description },
                );
                None
            },
        },
        Err(e) => {
            let (debug, display, description) = backend::fst_error_texts(&e);
            ctx.record(OpError { kind: ErrorKind::ConstructionError, debug, display, description });
            None
        },
    }
}

/// Opens a map from its serialized bytes (the durable artifact a finished
/// builder wrote). Builder-written bytes always open, to exactly the
/// entries they encode. Because the engine's own acceptance test is
/// shallow, a deserialized map is additionally validated here — its keys
/// must stream back in strict order and its stored length field must count
/// the entries exactly — so every map handed out satisfies the invariant.
/// Bytes the engine rejects, and accepted bytes that fail the validation,
/// record a construction error instead. One risk remains open: on corrupt
/// bytes that pass the engine's acceptance test, the engine's own traversal
/// during validation may panic.
pub fn fst_map_open(ctx: &mut Context, data: Vec<u8>) -> (r: Option<MapIndex>)
    ensures
        map_bytes_wf(data@) ==> r is Some,
        r matches Some(m) ==> m.wf() && final(ctx).is_clear() && (map_bytes_wf(data@)
            ==> m.entries() == map_entries_of_bytes(data@)),
        r is None ==> final(ctx).reports(ErrorKind::ConstructionError),
{
    ctx.clear();
    match backend::map_from_bytes(data) {
        Ok(m) => {
            let entries = backend::map_entry_vec(&m);
            let keys = entries_to_keys(&entries);
            let stored = backend::map_len(&m);
            if keys_sorted(&keys) && stored == entries.len() {
                Some(MapIndex { inner: m })
            } else {
                ctx.record(
                    OpError {
                        kind: ErrorKind::ConstructionError,
                        debug: "index keys out of order or miscounted".to_owned(),
                        display: "index keys out of order or miscounted".to_owned(),
                        description: "index keys out of order or miscounted".to_owned(),
                    },
                );
                None
            }
        },
        Err(e) => {
            let (debug, display, description) = backend::fst_error_texts(&e);
            ctx.record(OpError { kind: ErrorKind::ConstructionError, debug, display, description });
            None
        },
    }
}

/// The number of entries in the map.
pub fn fst_map_len(m: &MapIndex) -> (r: usize)
    requires
        m.wf(),
    ensures
        r == m.entries().len(),
{
    backend::map_len(&m.inner)
}

/// Tests the membership of a single key. Never fails, so it takes no
/// context.
pub fn fst_map_contains(m: &MapIndex, key: &Vec<u8>) -> (r: bool)
    requires
        m.wf(),
    ensures
        r == m.keys().contains(key@),
{
    backend::map_contains(&m.inner, key)
}

/// Looks a key up. On a present key the stored value is returned and the
/// context is left clear; on an absent key a key error is recorded and the
/// returned value is zero, a sentinel the caller must disambiguate through
/// the context's flag. The map itself is never changed by a lookup.
pub fn fst_map_get(ctx: &mut Context, m: &MapIndex, key: &Vec<u8>) -> (r: u64)
    requires
        m.wf(),
    ensures
        entries_get(m.entries(), key@) matches Some(v) ==> r == v && final(ctx).is_clear(),
        entries_get(m.entries(), key@) is None ==> r == 0 && final(ctx).reports(
            ErrorKind::KeyError,
        ) && final(ctx).error_debug@.len() > 0 && final(ctx).error_display@.len() > 0
            && final(ctx).error_description@.len() > 0,
{
    ctx.clear();
    match backend::map_get(&m.inner, key) {
        Some(v) => v,
        None => {
            proof {
                reveal_strlit("key not in map");
            }
            ctx.record(
                OpError {
                    kind: ErrorKind::KeyError,
                    debug: "key not in map".to_owned(),
                    display: "key not in map".to_owned(),
                    description: "key not in map".to_owned(),
                },
            );
            0
        },
    }
}

/// A key-value pair materialized by one advance of a map stream; the
/// caller owns it as a unit.
pub struct MapItem {
    pub key: Vec<u8>,
    pub value: u64,
}

/// A single-direction, single-pass cursor over sorted key-value entries.
pub struct MapStream {
    entries: Vec<(Vec<u8>, u64)>,
    pos: usize,
}

impl MapStream {
    /// The cursor position never runs past the end.
    pub closed spec fn wf(&self) -> bool {
        self.pos <= self.entries.len()
    }

    /// The entries the stream has yet to yield, in order.
    pub closed spec fn rest(&self) -> Seq<(Seq<u8>, u64)> {
        entries_view(self.entries@).skip(self.pos as int)
    }
}

/// Builds a stream over every entry of the map, keys ascending.
pub fn fst_map_stream(m: &MapIndex) -> (r: MapStream)
    ensures
        r.wf(),
        r.rest() == m.entries(),
        m.wf() ==> sorted_strict(entry_keys(r.rest())),
{
    let entries = backend::map_entry_vec(&m.inner);
    let r = MapStream { entries, pos: 0 };
    proof {
        assert(r.rest() =~= entries_view(r.entries@));
    }
    r
}

/// Advances an entry stream: yields the next key-value pair in ascending
/// key order, or the end-of-stream sentinel once the entries run out, after
/// which every further call yields the sentinel again without side effects.
pub fn fst_mapstream_next(st: &mut MapStream) -> (r: Option<MapItem>)
    requires
        old(st).wf(),
    ensures
        final(st).wf(),
        r matches Some(it) ==> old(st).rest().len() > 0 && (it.key@, it.value) == old(
            st,
        ).rest().first() && final(st).rest() == old(st).rest().drop_first(),
        r is None ==> old(st).rest().len() == 0 && *final(st) == *old(st),
{
    if st.pos < st.entries.len() {
        let k = vstd::slice::slice_to_vec(st.entries[st.pos].0.as_slice());
        let v = st.entries[st.pos].1;
        let ghost prev = st.pos as int;
        st.pos = st.pos + 1;
        proof {
            assert((k@, v) == entries_view(old(st).entries@)[prev]);
            assert(st.rest() =~= old(st).rest().drop_first());
        }
        Some(MapItem { key: k, value: v })
    } else {
        None
    }
}

/// Projects a sorted entry vector onto its keys.
fn entries_to_keys(entries: &Vec<(Vec<u8>, u64)>) -> (r: Vec<Vec<u8>>)
    ensures
        keys_view(r@) =~= entry_keys(entries_view(entries@)),
{
    let n = entries.len();
    let mut r: Vec<Vec<u8>> = Vec::new();
    let mut i: usize = 0;
    while i < n
        invariant
            i <= n,
            n == entries@.len(),
            r@.len() == i,
            forall|l: int| 0 <= l < i ==> keys_view(r@)[l] == entry_keys(entries_view(entries@))[l],
        decreases n - i,
    {
        let ghost pre = r@;
        let k = vstd::slice::slice_to_vec(entries[i].0.as_slice());
        r.push(k);
        proof {
            assert(keys_view(r@)[i as int] == entry_keys(entries_view(entries@))[i as int]);
            assert(forall|l: int|
                0 <= l < i ==> #[trigger] keys_view(r@)[l] == keys_view(pre)[l]);
        }
        i = i + 1;
    }
    r
}

/// Builds a key-only stream over the map's keys, ascending.
pub fn fst_map_keys(m: &MapIndex) -> (r: SetStream)
    ensures
        r.wf(),
        r.rest() == m.keys(),
{
    let entries = backend::map_entry_vec(&m.inner);
    let keys = entries_to_keys(&entries);
    let r = set_stream_from_keys(keys);
    proof {
        assert(r.rest() =~= m.keys());
    }
    r
}

/// A value-only cursor over a map's entries, in key order. Because zero is
/// a valid stored value, exhaustion is reported through the error channel
/// rather than by a sentinel value.
pub struct MapValues {
    values: Vec<u64>,
    pos: usize,
}

impl MapValues {
    /// The cursor position never runs past the end.
    pub closed spec fn wf(&self) -> bool {
        self.pos <= self.values.len()
    }

    /// The values the cursor has yet to yield, in key order.
    pub closed spec fn rest(&self) -> Seq<u64> {
        self.values@.skip(self.pos as int)
    }
}

/// Builds a value-only cursor over the map, in key order.
pub fn fst_map_values(m: &MapIndex) -> (r: MapValues)
    ensures
        r.wf(),
        r.rest() == entry_values(m.entries()),
{
    let entries = backend::map_entry_vec(&m.inner);
    let n = entries.len();
    let mut values: Vec<u64> = Vec::new();
    let mut i: usize = 0;
    while i < n
        invariant
            i <= n,
            n == entries@.len(),
            values@.len() == i,
            forall|l: int| 0 <= l < i ==> values@[l] == entry_values(entries_view(entries@))[l],
        decreases n - i,
    {
        values.push(entries[i].1);
        i = i + 1;
    }
    let r = MapValues { values, pos: 0 };
    proof {
        assert(r.rest() =~= r.values@);
        assert(r.values@ =~= entry_values(m.entries()));
    }
    r
}

/// Advances a value-only cursor. While values remain, the next one is
/// returned (zero included) and the context is left clear; once the values
/// run out, every further call records the exhaustion signal on the context
/// and returns zero, leaving the cursor unchanged.
pub fn fst_mapvalues_next(ctx: &mut Context, vs: &mut MapValues) -> (r: u64)
    requires
        old(vs).wf(),
    ensures
        final(vs).wf(),
        old(vs).rest().len() > 0 ==> r == old(vs).rest().first() && final(vs).rest() == old(
            vs,
        ).rest().drop_first() && final(ctx).is_clear(),
        old(vs).rest().len() == 0 ==> r == 0 && *final(vs) == *old(vs) && final(ctx).reports(
            ErrorKind::ExhaustionSignal,
        ) && final(ctx).error_debug@.len() > 0 && final(ctx).error_display@.len() > 0
            && final(ctx).error_description@.len() > 0,
{
    ctx.clear();
    if vs.pos < vs.values.len() {
        let v = vs.values[vs.pos];
        vs.pos = vs.pos + 1;
        proof {
            assert(vs.rest() =~= old(vs).rest().drop_first());
        }
        v
    } else {
        proof {
            reveal_strlit("no more values");
        }
        ctx.record(
            OpError {
                kind: ErrorKind::ExhaustionSignal,
                debug: "no more values".to_owned(),
                display: "no more values".to_owned(),
                description: "no more values".to_owned(),
            },
        );
        0
    }
}

/// Runs a bounded-edit-distance search over the map: a stream of exactly
/// the entries whose key is within the automaton's maximum distance of its
/// query, in ascending key order.
pub fn fst_map_levsearch(m: &MapIndex, aut: &LevAutomaton) -> (r: MapStream)
    requires
        m.wf(),
    ensures
        r.wf(),
        r.rest() == m.entries().filter(
            (|e: (Seq<u8>, u64)| backend::lev_matches(aut.query_view(), aut.dist_spec(), e.0)),
        ),
        sorted_strict(entry_keys(r.rest())),
{
    let entries = backend::map_search_lev(&m.inner, aut);
    let r = MapStream { entries, pos: 0 };
    proof {
        assert(r.rest() =~= entries_view(r.entries@));
    }
    r
}

/// Runs a pattern search over the map: a stream of exactly the entries
/// whose key fully matches the automaton's pattern, in ascending key order.
pub fn fst_map_regexsearch(m: &MapIndex, aut: &RegexAutomaton) -> (r: MapStream)
    requires
        m.wf(),
    ensures
        r.wf(),
        r.rest() == m.entries().filter(
            (|e: (Seq<u8>, u64)| backend::regex_matches(aut.pattern_view(), e.0)),
        ),
        sorted_strict(entry_keys(r.rest())),
{
    let entries = backend::map_search_regex(&m.inner, aut);
    let r = MapStream { entries, pos: 0 };
    proof {
        assert(r.rest() =~= entries_view(r.entries@));
    }
    r
}

/// A range query under construction over a map, narrowing a stream to the
/// entries whose key lies within the bounds. Each bound-setting call
/// consumes the builder and returns the narrowed one.
pub struct MapStreamBuilder<'a> {
    pub map: &'a MapIndex,
    pub lower: RangeBound,
    pub upper: RangeBound,
}

impl<'a> MapStreamBuilder<'a> {
    /// The entries the finished stream will yield.
    pub open spec fn selected(&self) -> Seq<(Seq<u8>, u64)> {
        self.map.entries().filter((|e: (Seq<u8>, u64)| in_range(self.lower, self.upper, e.0)))
    }
}

/// Starts a range query over the whole map, both bounds open.
pub fn fst_map_streambuilder_new<'a>(m: &'a MapIndex) -> (r: MapStreamBuilder<'a>)
    ensures
        *r.map == *m,
        r.lower is Unbounded,
        r.upper is Unbounded,
{
    MapStreamBuilder { map: m, lower: RangeBound::Unbounded, upper: RangeBound::Unbounded }
}

/// Sets an inclusive lower bound, replacing any earlier lower bound.
pub fn fst_map_streambuilder_add_ge<'a>(sb: MapStreamBuilder<'a>, bound: Vec<u8>) -> (r:
    MapStreamBuilder<'a>)
    ensures
        *r.map == *sb.map,
        r.lower == RangeBound::Included(bound),
        r.upper == sb.upper,
{
    MapStreamBuilder { map: sb.map, lower: RangeBound::Included(bound), upper: sb.upper }
}

/// Sets an exclusive upper bound, replacing any earlier upper bound.
pub fn fst_map_streambuilder_add_lt<'a>(sb: MapStreamBuilder<'a>, bound: Vec<u8>) -> (r:
    MapStreamBuilder<'a>)
    ensures
        *r.map == *sb.map,
        r.lower == sb.lower,
        r.upper == RangeBound::Excluded(bound),
{
    MapStreamBuilder { map: sb.map, lower: sb.lower, upper: RangeBound::Excluded(bound) }
}

/// Consumes the range builder into a stream over exactly the entries whose
/// key lies within its bounds, ascending: the same entries a full stream
/// would yield, filtered to the range.
pub fn fst_map_streambuilder_finish(sb: MapStreamBuilder<'_>) -> (r: MapStream)
    requires
        sb.map.wf(),
    ensures
        r.wf(),
        r.rest() == sb.selected(),
        sorted_strict(entry_keys(r.rest())),
{
    let entries = backend::map_range_vec(&sb.map.inner, &sb.lower, &sb.upper);
    let r = MapStream { entries, pos: 0 };
    proof {
        assert(r.rest() =~= entries_view(r.entries@));
    }
    r
}

/// Starts a map operation with this map's entries as its first input.
pub fn fst_map_make_opbuilder(m: &MapIndex) -> (r: OpBuilder)
    requires
        m.wf(),
    ensures
        r.wf(),
        r.inputs_view() =~= seq![m.entries()],
{
    let entries = backend::map_entry_vec(&m.inner);
    let r = OpBuilder::new_with(entries);
    proof {
        assert(r.inputs_view() =~= seq![m.entries()]);
    }
    r
}

/// Adds a map's entries as one more input of the operation; the map itself
/// is only borrowed.
pub fn fst_map_opbuilder_push(ob: &mut OpBuilder, m: &MapIndex)
    requires
        m.wf(),
    ensures
        final(ob).inputs_view() == old(ob).inputs_view().push(m.entries()),
        old(ob).wf() ==> final(ob).wf(),
{
    let entries = backend::map_entry_vec(&m.inner);
    ob.push_entries(entries);
}

/// Consumes the operation builder into its union over the map inputs.
pub fn fst_map_opbuilder_union(ob: OpBuilder) -> (r: MergeStream)
    requires
        ob.wf(),
    ensures
        r.wf(),
        r.op_spec() == MergeOp::Union,
        r.inputs_view() == ob.inputs_view(),
        r.emitted() == Seq::<Seq<u8>>::empty(),
{
    ob.finish(MergeOp::Union)
}

/// Consumes the operation builder into its intersection over the map
/// inputs.
pub fn fst_map_opbuilder_intersection(ob: OpBuilder) -> (r: MergeStream)
    requires
        ob.wf(),
    ensures
        r.wf(),
        r.op_spec() == MergeOp::Intersection,
        r.inputs_view() == ob.inputs_view(),
        r.emitted() == Seq::<Seq<u8>>::empty(),
{
    ob.finish(MergeOp::Intersection)
}

/// Consumes the operation builder into its difference (the first input
/// minus the rest) over the map inputs.
pub fn fst_map_opbuilder_difference(ob: OpBuilder) -> (r: MergeStream)
    requires
        ob.wf(),
    ensures
        r.wf(),
        r.op_spec() == MergeOp::Difference,
        r.inputs_view() == ob.inputs_view(),
        r.emitted() == Seq::<Seq<u8>>::empty(),
{
    ob.finish(MergeOp::Difference)
}

/// Consumes the operation builder into its symmetric difference over the
/// map inputs.
pub fn fst_map_opbuilder_symmetricdifference(ob: OpBuilder) -> (r: MergeStream)
    requires
        ob.wf(),
    ensures
        r.wf(),
        r.op_spec() == MergeOp::SymmetricDifference,
        r.inputs_view() == ob.inputs_view(),
        r.emitted() == Seq::<Seq<u8>>::empty(),
{
    ob.finish(MergeOp::SymmetricDifference)
}

/// An emitted key of a derived map stream together with every occurrence it
/// had among the inputs: one (input index, stored value) pair per input
/// that contains the key, in ascending input order.
pub struct MapOpItem {
    pub key: Vec<u8>,
    pub values: Vec<IndexedValue>,
}

/// Advances a derived map stream: the next emitted key is the least key the
/// stream still owes, carrying its occurrences among the inputs; once the
/// sentinel appears it stays, with nothing more emitted.
pub fn fst_map_opstream_next(st: &mut MergeStream) -> (r: Option<MapOpItem>)
    requires
        old(st).wf(),
    ensures
        final(st).wf(),
        final(st).op_spec() == old(st).op_spec(),
        final(st).inputs_view() == old(st).inputs_view(),
        r matches Some(it) ==> old(st).owes(it.key@) && final(st).emitted() == old(
            st,
        ).emitted().push(it.key@) && (forall|j: Seq<u8>|
            #[trigger] old(st).owes(j) && j != it.key@ ==> lex_lt(it.key@, j))
            && it.values@.map_values(|iv: IndexedValue| (iv.index as int, iv.value)) == owners(
            old(st).inputs_view(),
            it.key@,
        ),
        r is None ==> final(st).emitted() == old(st).emitted() && (forall|j: Seq<u8>|
            !(#[trigger] old(st).owes(j))),
{
    match st.next() {
        Some(item) => {
            let (key, values) = item;
            Some(MapOpItem { key, values })
        },
        None => None,
    }
}

} // verus!
