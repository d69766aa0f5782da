//! Trusted boundary to the outside index engine.
//!
//! Everything in this module is believed, not proved: the type declarations
//! make the engine's types known to the verifier, the `uninterp` functions
//! name what the engine computes, and each `external_body` wrapper makes one
//! outside call and states, over those names, what the engine's source and
//! documentation promise of it. Nothing else in the crate is trusted.
//!
//! One residual risk is stated rather than specified away: the engine's
//! deserialization acceptance test is shallow, and on corrupt bytes that
//! happen to pass it the engine itself may traverse out of bounds and
//! panic. The library's openers validate at run time, before handing a
//! structure out, that the keys stream back in strict order and that the
//! stored length field counts them exactly (the query wrappers promise
//! their results only for such consistent structures); that catches
//! disorder and altered metadata, but cannot catch a panic inside the
//! engine's own traversal.

use fst::IntoStreamer;
use vstd::prelude::*;

use crate::order::{
    RangeBound, entries_view, entry_keys, in_range, keys_view, lex_le, lex_lt, sorted_strict,
};

verus! {

#[verifier::external_type_specification]
#[verifier::external_body]
pub struct ExFstSet(fst::Set);

#[verifier::external_type_specification]
#[verifier::external_body]
pub struct ExFstMap(fst::Map);

#[verifier::external_type_specification]
#[verifier::external_body]
#[verifier::reject_recursive_types(W)]
pub struct ExFstSetBuilder<W>(fst::set::SetBuilder<W>);

#[verifier::external_type_specification]
#[verifier::external_body]
#[verifier::reject_recursive_types(W)]
pub struct ExFstMapBuilder<W>(fst::map::MapBuilder<W>);

#[verifier::external_type_specification]
#[verifier::external_body]
pub struct ExFstError(fst::Error);

#[verifier::external_type_specification]
#[verifier::external_body]
pub struct ExLevenshtein(fst_levenshtein::Levenshtein);

#[verifier::external_type_specification]
#[verifier::external_body]
pub struct ExLevenshteinError(fst_levenshtein::Error);

#[verifier::external_type_specification]
#[verifier::external_body]
pub struct ExRegex(fst_regex::Regex);

#[verifier::external_type_specification]
#[verifier::external_body]
pub struct ExRegexError(fst_regex::Error);

/// The keys a finished set structure holds, in stream order.
pub uninterp spec fn set_keys(s: fst::Set) -> Seq<Seq<u8>>;

/// The key-value entries a finished map structure holds, in stream order.
pub uninterp spec fn map_entries(m: fst::Map) -> Seq<(Seq<u8>, u64)>;

/// The key count a set structure's metadata stores. The engine's length and
/// subset/superset queries read this field; they never count the keys, so
/// on a structure whose metadata was altered it can disagree with
/// `set_keys(s).len()`.
pub uninterp spec fn set_stored_len(s: fst::Set) -> nat;

/// The entry count a map structure's metadata stores, as `set_stored_len`.
pub uninterp spec fn map_stored_len(m: fst::Map) -> nat;

/// The keys inserted so far into an in-memory set builder, duplicates
/// collapsed.
pub uninterp spec fn set_builder_keys(b: fst::set::SetBuilder<Vec<u8>>) -> Seq<Seq<u8>>;

/// The entries inserted so far into an in-memory map builder.
pub uninterp spec fn map_builder_entries(b: fst::map::MapBuilder<Vec<u8>>) -> Seq<(Seq<u8>, u64)>;

/// The keys a serialized set holds, as a function of its bytes.
pub uninterp spec fn set_keys_of_bytes(bytes: Seq<u8>) -> Seq<Seq<u8>>;

/// The entries a serialized map holds, as a function of its bytes.
pub uninterp spec fn map_entries_of_bytes(bytes: Seq<u8>) -> Seq<(Seq<u8>, u64)>;

/// Whether these bytes are what a finished set builder wrote. The engine's
/// own acceptance test on deserialization is shallower (a length, version
/// and root-address check), so acceptance alone does not imply this.
pub uninterp spec fn set_bytes_wf(bytes: Seq<u8>) -> bool;

/// Whether these bytes are what a finished map builder wrote; as with
/// `set_bytes_wf`, the engine's acceptance test is shallower.
pub uninterp spec fn map_bytes_wf(bytes: Seq<u8>) -> bool;

/// Whether the engine can build the bounded-edit-distance automaton for
/// `(query, max_dist)`: construction fails only past a hard-coded state
/// limit, and is a function of these two arguments alone.
pub uninterp spec fn lev_builds(query: Seq<char>, max_dist: u32) -> bool;

/// Whether the engine can build the pattern automaton for `pattern`:
/// construction fails on a malformed pattern or one whose automaton would
/// grow past hard-coded limits, and is a function of the pattern alone.
pub uninterp spec fn regex_builds(pattern: Seq<char>) -> bool;

/// The structure is internally consistent: its keys stream back strictly
/// increasing and its stored length field counts them exactly. Every
/// structure a finished builder wrote is consistent, and the openers check
/// both halves at run time before handing a structure out, so the query
/// wrappers below promise their exact results only under this predicate.
pub open spec fn set_consistent(s: fst::Set) -> bool {
    sorted_strict(set_keys(s)) && set_stored_len(s) == set_keys(s).len()
}

/// The map analogue of `set_consistent`.
pub open spec fn map_consistent(m: fst::Map) -> bool {
    sorted_strict(entry_keys(map_entries(m))) && map_stored_len(m) == map_entries(m).len()
}

/// Whether a key is within the given edit distance of the query; what the
/// Levenshtein automaton built from `(query, max_dist)` accepts.
pub uninterp spec fn lev_matches(query: Seq<char>, max_dist: u32, key: Seq<u8>) -> bool;

/// Whether a key fully matches the pattern; what the regex automaton built
/// from `pattern` accepts.
pub uninterp spec fn regex_matches(pattern: Seq<char>, key: Seq<u8>) -> bool;

/// Relies on fst::set::SetBuilder::memory: a fresh in-memory builder holds
/// no keys.
#[verifier::external_body]
pub(crate) fn set_builder_memory() -> (r: fst::set::SetBuilder<Vec<u8>>)
    ensures
        set_builder_keys(r) == Seq::<Seq<u8>>::empty(),
{
    fst::set::SetBuilder::memory()
}

/// Relies on fst::set::SetBuilder::insert: it errs exactly on a key strictly
/// below the last one inserted, appends a strictly greater key, collapses a
/// repeat of the last key, and cannot fail on the in-memory writer.
#[verifier::external_body]
pub(crate) fn set_builder_insert(b: &mut fst::set::SetBuilder<Vec<u8>>, key: &Vec<u8>) -> (r: Result<
    (),
    fst::Error,
>)
    ensures
        r is Ok <==> (set_builder_keys(*old(b)).len() == 0 || lex_le(
            set_builder_keys(*old(b)).last(),
            key@,
        )),
        (set_builder_keys(*old(b)).len() == 0 || lex_lt(set_builder_keys(*old(b)).last(), key@))
            ==> set_builder_keys(*final(b)) == set_builder_keys(*old(b)).push(key@),
        !(set_builder_keys(*old(b)).len() == 0 || lex_lt(set_builder_keys(*old(b)).last(), key@))
            ==> set_builder_keys(*final(b)) == set_builder_keys(*old(b)),
{
    b.insert(key.as_slice())
}

/// Relies on fst::set::SetBuilder::into_inner: flushing the in-memory writer
/// cannot fail, and the bytes written decode to exactly the keys inserted,
/// in order (builder output is valid input to fst::Set::from_bytes).
#[verifier::external_body]
pub(crate) fn set_builder_into_bytes(b: fst::set::SetBuilder<Vec<u8>>) -> (r: Result<Vec<u8>, fst::Error>)
    ensures
        r is Ok,
        r matches Ok(bytes) ==> set_bytes_wf(bytes@) && set_keys_of_bytes(bytes@)
            == set_builder_keys(b),
{
    b.into_inner()
}

/// Relies on fst::Set::from_bytes: builder-written bytes are accepted and
/// decode to exactly the keys the builder put in, strictly increasing.
/// Nothing is promised of other accepted inputs: the engine's acceptance
/// test is a shallow length/version/root check, and on bytes that pass it
/// without being builder output the resulting structure may behave out of
/// spec (the engine's own source admits disorder or panics there), so the
/// library's openers re-validate key order at run time before handing a
/// structure out.
#[verifier::external_body]
pub(crate) fn set_from_bytes(bytes: Vec<u8>) -> (r: Result<fst::Set, fst::Error>)
    ensures
        set_bytes_wf(bytes@) ==> r is Ok,
        r matches Ok(s) ==> (set_bytes_wf(bytes@) ==> set_keys(s) == set_keys_of_bytes(bytes@)
            && set_consistent(s)),
{
    fst::Set::from_bytes(bytes)
}

/// Relies on fst::Set::stream and fst::set::Stream::into_bytes: the full
/// stream yields the set's keys — the sequence `set_keys` names. Their
/// strict order is not taken on trust here: it holds of every structure a
/// builder wrote, and the openers check it at run time for deserialized
/// ones.
#[verifier::external_body]
pub(crate) fn set_key_vec(s: &fst::Set) -> (r: Vec<Vec<u8>>)
    ensures
        keys_view(r@) == set_keys(*s),
{
    s.stream().into_bytes()
}

/// Relies on fst::Set::contains: membership of a single key, exact on a
/// consistent structure (the only kind the library hands out).
#[verifier::external_body]
pub(crate) fn set_contains(s: &fst::Set, key: &Vec<u8>) -> (r: bool)
    ensures
        set_consistent(*s) ==> r == set_keys(*s).contains(key@),
{
    s.contains(key.as_slice())
}

/// Relies on fst::Set::len: it returns the key count stored in the
/// structure's metadata — the engine reads the field, it does not count.
#[verifier::external_body]
pub(crate) fn set_len(s: &fst::Set) -> (r: usize)
    ensures
        r == set_stored_len(*s),
{
    s.len()
}

/// Relies on fst::Set::is_disjoint (an emptiness test on the intersection
/// stream), exact on consistent structures.
#[verifier::external_body]
pub(crate) fn set_is_disjoint(a: &fst::Set, b: &fst::Set) -> (r: bool)
    ensures
        set_consistent(*a) && set_consistent(*b) ==> r == set_keys(*a).to_set().disjoint(
            set_keys(*b).to_set(),
        ),
{
    a.is_disjoint(b)
}

/// Relies on fst::Set::is_subset, which compares the intersection stream's
/// count against `a`'s stored length field; exact therefore only on
/// consistent structures.
#[verifier::external_body]
pub(crate) fn set_is_subset(a: &fst::Set, b: &fst::Set) -> (r: bool)
    ensures
        set_consistent(*a) && set_consistent(*b) ==> r == set_keys(*a).to_set().subset_of(
            set_keys(*b).to_set(),
        ),
{
    a.is_subset(b)
}

/// Relies on fst::Set::is_superset, which compares the union stream's count
/// against `a`'s stored length field; exact therefore only on consistent
/// structures.
#[verifier::external_body]
pub(crate) fn set_is_superset(a: &fst::Set, b: &fst::Set) -> (r: bool)
    ensures
        set_consistent(*a) && set_consistent(*b) ==> r == set_keys(*b).to_set().subset_of(
            set_keys(*a).to_set(),
        ),
{
    a.is_superset(b)
}

/// Relies on fst::Set::range with ge/gt/le/lt and Stream::into_bytes: on a
/// consistent structure the range stream yields exactly the keys within the
/// bounds, in order.
#[verifier::external_body]
pub(crate) fn set_range_vec(s: &fst::Set, lower: &RangeBound, upper: &RangeBound) -> (r: Vec<
    Vec<u8>,
>)
    ensures
        set_consistent(*s) ==> keys_view(r@) == set_keys(*s).filter(
            (|k: Seq<u8>| in_range(*lower, *upper, k)),
        ) && sorted_strict(keys_view(r@)),
{
    let mut sb = s.range();
    sb = match lower {
        RangeBound::Unbounded => sb,
        RangeBound::Included(v) => sb.ge(v),
        RangeBound::Excluded(v) => sb.gt(v),
    };
    sb = match upper {
        RangeBound::Unbounded => sb,
        RangeBound::Included(v) => sb.le(v),
        RangeBound::Excluded(v) => sb.lt(v),
    };
    sb.into_stream().into_bytes()
}

/// A bounded-edit-distance acceptor, built once from a query and a maximum
/// distance and shared read-only by searches. The inner automaton always
/// corresponds to the recorded query and distance.
pub struct LevAutomaton {
    inner: fst_levenshtein::Levenshtein,
    query: String,
    max_dist: u32,
}

impl LevAutomaton {
    /// The query the automaton was built from.
    pub closed spec fn query_view(&self) -> Seq<char> {
        self.query@
    }

    /// The maximum edit distance the automaton accepts.
    pub closed spec fn dist_spec(&self) -> u32 {
        self.max_dist
    }
}

/// Relies on fst_levenshtein::Levenshtein::new: it builds an acceptor for the
/// keys within the given edit distance of the query, succeeding exactly when
/// the automaton stays within its hard-coded state limit — a function of the
/// query and distance alone, which `lev_builds` names.
#[verifier::external_body]
pub(crate) fn lev_new(query: &str, max_dist: u32) -> (r: Result<LevAutomaton, fst_levenshtein::Error>)
    ensures
        r is Ok <==> lev_builds(query@, max_dist),
        r matches Ok(a) ==> a.query_view() == query@ && a.dist_spec() == max_dist,
{
    match fst_levenshtein::Levenshtein::new(query, max_dist) {
        Ok(inner) => Ok(LevAutomaton { inner, query: query.to_owned(), max_dist }),
        Err(e) => Err(e),
    }
}

/// A pattern acceptor, built once from a regular expression and shared
/// read-only by searches. The inner automaton always corresponds to the
/// recorded pattern.
pub struct RegexAutomaton {
    inner: fst_regex::Regex,
    pattern: String,
}

impl RegexAutomaton {
    /// The pattern the automaton was built from.
    pub closed spec fn pattern_view(&self) -> Seq<char> {
        self.pattern@
    }
}

/// Relies on fst_regex::Regex::new: it builds an acceptor for the keys fully
/// matching the pattern, succeeding exactly when the pattern is well formed
/// and its automaton stays within the hard-coded limits — a function of the
/// pattern alone, which `regex_builds` names.
#[verifier::external_body]
pub(crate) fn regex_new(pattern: &str) -> (r: Result<RegexAutomaton, fst_regex::Error>)
    ensures
        r is Ok <==> regex_builds(pattern@),
        r matches Ok(a) ==> a.pattern_view() == pattern@,
{
    match fst_regex::Regex::new(pattern) {
        Ok(inner) => Ok(RegexAutomaton { inner, pattern: pattern.to_owned() }),
        Err(e) => Err(e),
    }
}

/// Relies on fst::Set::search with a Levenshtein automaton: on a consistent
/// structure the search stream yields exactly the keys the automaton
/// accepts, in order.
#[verifier::external_body]
pub(crate) fn set_search_lev(s: &fst::Set, a: &LevAutomaton) -> (r: Vec<Vec<u8>>)
    ensures
        set_consistent(*s) ==> keys_view(r@) == set_keys(*s).filter(
            (|k: Seq<u8>| lev_matches(a.query_view(), a.dist_spec(), k)),
        ) && sorted_strict(keys_view(r@)),
{
    s.search(&a.inner).into_stream().into_bytes()
}

/// Relies on fst::Set::search with a regex automaton: on a consistent
/// structure the search stream yields exactly the keys the automaton
/// accepts, in order.
#[verifier::external_body]
pub(crate) fn set_search_regex(s: &fst::Set, a: &RegexAutomaton) -> (r: Vec<Vec<u8>>)
    ensures
        set_consistent(*s) ==> keys_view(r@) == set_keys(*s).filter(
            (|k: Seq<u8>| regex_matches(a.pattern_view(), k)),
        ) && sorted_strict(keys_view(r@)),
{
    s.search(&a.inner).into_stream().into_bytes()
}

/// Relies on fst::map::MapBuilder::memory: a fresh in-memory builder holds
/// no entries.
#[verifier::external_body]
pub(crate) fn map_builder_memory() -> (r: fst::map::MapBuilder<Vec<u8>>)
    ensures
        map_builder_entries(r) == Seq::<(Seq<u8>, u64)>::empty(),
{
    fst::map::MapBuilder::memory()
}

/// Relies on fst::map::MapBuilder::insert: it errs exactly on a key not
/// strictly above the last one inserted, appends otherwise, and cannot fail
/// on the in-memory writer.
#[verifier::external_body]
pub(crate) fn map_builder_insert(
    b: &mut fst::map::MapBuilder<Vec<u8>>,
    key: &Vec<u8>,
    val: u64,
) -> (r: Result<(), fst::Error>)
    ensures
        r is Ok <==> (map_builder_entries(*old(b)).len() == 0 || lex_lt(
            map_builder_entries(*old(b)).last().0,
            key@,
        )),
        r is Ok ==> map_builder_entries(*final(b)) == map_builder_entries(*old(b)).push(
            (key@, val),
        ),
        r is Err ==> map_builder_entries(*final(b)) == map_builder_entries(*old(b)),
{
    b.insert(key.as_slice(), val)
}

/// Relies on fst::map::MapBuilder::into_inner: flushing the in-memory writer
/// cannot fail, and the bytes written decode to exactly the entries inserted,
/// in order (builder output is valid input to fst::Map::from_bytes).
#[verifier::external_body]
pub(crate) fn map_builder_into_bytes(b: fst::map::MapBuilder<Vec<u8>>) -> (r: Result<
    Vec<u8>,
    fst::Error,
>)
    ensures
        r is Ok,
        r matches Ok(bytes) ==> map_bytes_wf(bytes@) && map_entries_of_bytes(bytes@)
            == map_builder_entries(b),
{
    b.into_inner()
}

/// Relies on fst::Map::from_bytes: builder-written bytes are accepted and
/// decode to exactly the entries the builder put in, keys strictly
/// increasing. As with `set_from_bytes`, nothing is promised of other
/// accepted inputs, and the map opener re-validates key order at run time.
#[verifier::external_body]
pub(crate) fn map_from_bytes(bytes: Vec<u8>) -> (r: Result<fst::Map, fst::Error>)
    ensures
        map_bytes_wf(bytes@) ==> r is Ok,
        r matches Ok(m) ==> (map_bytes_wf(bytes@) ==> map_entries(m) == map_entries_of_bytes(
            bytes@,
        ) && map_consistent(m)),
{
    fst::Map::from_bytes(bytes)
}

/// Relies on fst::Map::stream and fst::map::Stream::into_byte_vec: the full
/// stream yields the map's entries — the sequence `map_entries` names.
/// Their key order is not taken on trust here, for the same reason as in
/// `set_key_vec`.
#[verifier::external_body]
pub(crate) fn map_entry_vec(m: &fst::Map) -> (r: Vec<(Vec<u8>, u64)>)
    ensures
        entries_view(r@) == map_entries(*m),
{
    m.stream().into_byte_vec()
}

/// Relies on fst::Map::contains_key: membership of a single key, exact on a
/// consistent map (the only kind the library hands out).
#[verifier::external_body]
pub(crate) fn map_contains(m: &fst::Map, key: &Vec<u8>) -> (r: bool)
    ensures
        map_consistent(*m) ==> r == entry_keys(map_entries(*m)).contains(key@),
{
    m.contains_key(key.as_slice())
}

/// Relies on fst::Map::get: the value stored under the key, if any; exact
/// on a consistent map.
#[verifier::external_body]
pub(crate) fn map_get(m: &fst::Map, key: &Vec<u8>) -> (r: Option<u64>)
    ensures
        map_consistent(*m) ==> r == crate::order::entries_get(map_entries(*m), key@),
{
    m.get(key.as_slice())
}

/// Relies on fst::Map::len: it returns the entry count stored in the map's
/// metadata — the engine reads the field, it does not count.
#[verifier::external_body]
pub(crate) fn map_len(m: &fst::Map) -> (r: usize)
    ensures
        r == map_stored_len(*m),
{
    m.len()
}

/// Relies on fst::Map::range with ge/gt/le/lt and Stream::into_byte_vec: on
/// a consistent map the range stream yields exactly the entries whose key
/// is within the bounds, in order.
#[verifier::external_body]
pub(crate) fn map_range_vec(m: &fst::Map, lower: &RangeBound, upper: &RangeBound) -> (r: Vec<
    (Vec<u8>, u64),
>)
    ensures
        map_consistent(*m) ==> entries_view(r@) == map_entries(*m).filter(
            (|e: (Seq<u8>, u64)| in_range(*lower, *upper, e.0)),
        ) && sorted_strict(entry_keys(entries_view(r@))),
{
    let mut sb = m.range();
    sb = match lower {
        RangeBound::Unbounded => sb,
        RangeBound::Included(v) => sb.ge(v),
        RangeBound::Excluded(v) => sb.gt(v),
    };
    sb = match upper {
        RangeBound::Unbounded => sb,
        RangeBound::Included(v) => sb.le(v),
        RangeBound::Excluded(v) => sb.lt(v),
    };
    sb.into_stream().into_byte_vec()
}

/// Relies on fst::Map::search with a Levenshtein automaton: on a consistent
/// map the search stream yields exactly the entries whose key the automaton
/// accepts, in order.
#[verifier::external_body]
pub(crate) fn map_search_lev(m: &fst::Map, a: &LevAutomaton) -> (r: Vec<(Vec<u8>, u64)>)
    ensures
        map_consistent(*m) ==> entries_view(r@) == map_entries(*m).filter(
            (|e: (Seq<u8>, u64)| lev_matches(a.query_view(), a.dist_spec(), e.0)),
        ) && sorted_strict(entry_keys(entries_view(r@))),
{
    m.search(&a.inner).into_stream().into_byte_vec()
}

/// Relies on fst::Map::search with a regex automaton: on a consistent map
/// the search stream yields exactly the entries whose key the automaton
/// accepts, in order.
#[verifier::external_body]
pub(crate) fn map_search_regex(m: &fst::Map, a: &RegexAutomaton) -> (r: Vec<(Vec<u8>, u64)>)
    ensures
        map_consistent(*m) ==> entries_view(r@) == map_entries(*m).filter(
            (|e: (Seq<u8>, u64)| regex_matches(a.pattern_view(), e.0)),
        ) && sorted_strict(entry_keys(entries_view(r@))),
{
    m.search(&a.inner).into_stream().into_byte_vec()
}

/// Relies on the Debug, Display and Error impls of fst::Error for the
/// boundary's three diagnostic strings (debug form, display form,
/// description).
#[verifier::external_body]
pub(crate) fn fst_error_texts(e: &fst::Error) -> (String, String, String) {
    (format!("{:?}", e), format!("{}", e), std::error::Error::description(e).to_owned())
}

/// Relies on the Debug, Display and Error impls of fst_levenshtein::Error
/// for the boundary's three diagnostic strings.
#[verifier::external_body]
pub(crate) fn lev_error_texts(e: &fst_levenshtein::Error) -> (String, String, String) {
    (format!("{:?}", e), format!("{}", e), std::error::Error::description(e).to_owned())
}

/// Relies on the Debug, Display and Error impls of fst_regex::Error for the
/// boundary's three diagnostic strings.
#[verifier::external_body]
pub(crate) fn regex_error_texts(e: &fst_regex::Error) -> (String, String, String) {
    (format!("{:?}", e), format!("{}", e), std::error::Error::description(e).to_owned())
}

} // verus!
