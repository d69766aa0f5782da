//! The out-of-band error channel, and the heap-handle helper.
//!
//! Fallible operations report exactly one outcome per call through a
//! caller-owned [`Context`]: the flag and fields are cleared when the call
//! starts and populated on failure, so the caller checks the flag right
//! after each fallible call instead of catching anything.

use vstd::prelude::*;

use crate::backend;
use crate::backend::{LevAutomaton, RegexAutomaton};

verus! {

/// The kind of failure a fallible operation reports.
#[derive(Clone, Copy, Debug, PartialEq, Eq, Structural)]
pub enum ErrorKind {
    /// A malformed automaton pattern, an out-of-order or duplicate builder
    /// insert, or truncated or corrupt index bytes.
    ConstructionError,
    /// A failure of the underlying writer or reader.
    IoError,
    /// Input text that is not valid in the expected encoding.
    EncodingError,
    /// A map lookup on an absent key.
    KeyError,
    /// A value-only cursor with no more items, distinguished from a stored
    /// zero value.
    ExhaustionSignal,
}

impl ErrorKind {
    /// The name reported on the error channel for this kind.
    pub open spec fn name_spec(self) -> Seq<char> {
        match self {
            ErrorKind::ConstructionError => "ConstructionError"@,
            ErrorKind::IoError => "IOError"@,
            ErrorKind::EncodingError => "EncodingError"@,
            ErrorKind::KeyError => "KeyError"@,
            ErrorKind::ExhaustionSignal => "StopIteration"@,
        }
    }

    /// The kind's name as owned text.
    pub fn name(&self) -> (r: String)
        ensures
            r@ == self.name_spec(),
    {
        match self {
            ErrorKind::ConstructionError => "ConstructionError".to_owned(),
            ErrorKind::IoError => "IOError".to_owned(),
            ErrorKind::EncodingError => "EncodingError".to_owned(),
            ErrorKind::KeyError => "KeyError".to_owned(),
            ErrorKind::ExhaustionSignal => "StopIteration".to_owned(),
        }
    }
}

/// A failed operation's full report: its kind and the three diagnostic
/// strings the boundary exposes (debug form, display form, description).
pub struct OpError {
    pub kind: ErrorKind,
    pub debug: String,
    pub display: String,
    pub description: String,
}

/// The per-call error record a caller owns and reuses across calls.
pub struct Context {
    pub has_error: bool,
    pub error_kind: Option<ErrorKind>,
    pub error_type: String,
    pub error_debug: String,
    pub error_display: String,
    pub error_description: String,
}

impl Context {
    /// No error is recorded and every field is empty.
    pub open spec fn is_clear(self) -> bool {
        &&& !self.has_error
        &&& self.error_kind is None
        &&& self.error_type@ == Seq::<char>::empty()
        &&& self.error_debug@ == Seq::<char>::empty()
        &&& self.error_display@ == Seq::<char>::empty()
        &&& self.error_description@ == Seq::<char>::empty()
    }

    /// The context reports a failure of kind `k`.
    pub open spec fn reports(self, k: ErrorKind) -> bool {
        &&& self.has_error
        &&& self.error_kind == Some(k)
        &&& self.error_type@ == k.name_spec()
    }

    /// Drops any recorded error; the previous error's strings are released
    /// here, before they could be overwritten.
    pub fn clear(&mut self)
        ensures
            final(self).is_clear(),
    {
        self.has_error = false;
        self.error_kind = None;
        self.error_type = String::new();
        self.error_debug = String::new();
        self.error_display = String::new();
        self.error_description = String::new();
    }

    /// Records a failed operation's outcome.
    pub fn record(&mut self, e: OpError)
        ensures
            final(self).reports(e.kind),
            final(self).error_debug == e.debug,
            final(self).error_display == e.display,
            final(self).error_description == e.description,
    {
        self.has_error = true;
        self.error_kind = Some(e.kind);
        self.error_type = e.kind.name();
        self.error_debug = e.debug;
        self.error_display = e.display;
        self.error_description = e.description;
    }
}

/// Creates a fresh, clear error context.
pub fn fst_context_new() -> (c: Context)
    ensures
        c.is_clear(),
{
    Context {
        has_error: false,
        error_kind: None,
        error_type: String::new(),
        error_debug: String::new(),
        error_display: String::new(),
        error_description: String::new(),
    }
}

/// Moves a value to the heap and hands back its unique owning handle; the
/// handle is released by dropping it, exactly once, by ownership.
pub fn to_raw_ptr<T>(v: T) -> (r: Box<T>)
    ensures
        *r == v,
{
    Box::new(v)
}

/// Builds a bounded-edit-distance automaton for the query, succeeding
/// exactly when the engine can build one for `(key, max_dist)`. On success
/// the automaton accepts exactly the keys within `max_dist` edit operations
/// of `key`; past the engine's state limit, a construction error is
/// recorded instead.
pub fn fst_levenshtein_new(ctx: &mut Context, key: &str, max_dist: u32) -> (r: Option<
    LevAutomaton,
>)
    ensures
        r is Some <==> backend::lev_builds(key@, max_dist),
        r matches Some(a) ==> a.query_view() == key@ && a.dist_spec() == max_dist
            && final(ctx).is_clear(),
        r is None ==> final(ctx).reports(ErrorKind::ConstructionError),
{
    ctx.clear();
    match backend::lev_new(key, max_dist) {
        Ok(a) => Some(a),
        Err(e) => {
            let (debug, display, description) = backend::lev_error_texts(&e);
            ctx.record(OpError { kind: ErrorKind::ConstructionError, debug, display, description });
            None
        },
    }
}

/// Builds a pattern automaton for the regular expression, succeeding
/// exactly when the engine can build one for `pattern`. On success the
/// automaton accepts exactly the keys fully matching `pattern`; a malformed
/// pattern, or one whose automaton would grow past the engine's limits,
/// records a construction error instead.
pub fn fst_regex_new(ctx: &mut Context, pattern: &str) -> (r: Option<RegexAutomaton>)
    ensures
        r is Some <==> backend::regex_builds(pattern@),
        r matches Some(a) ==> a.pattern_view() == pattern@ && final(ctx).is_clear(),
        r is None ==> final(ctx).reports(ErrorKind::ConstructionError),
{
    ctx.clear();
    match backend::regex_new(pattern) {
        Ok(a) => Some(a),
        Err(e) => {
            let (debug, display, description) = backend::regex_error_texts(&e);
            ctx.record(OpError { kind: ErrorKind::ConstructionError, debug, display, description });
            None
        },
    }
}

} // verus!
