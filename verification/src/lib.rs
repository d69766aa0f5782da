//! A handle-based protocol over an externally built, immutable, sorted key
//! index (the `fst` crate), with a key-only set variant and a key-to-`u64`
//! map variant.
//!
//! The index engine itself (encoding, automata, compression) is an outside
//! collaborator and is reached only through a small trusted boundary in
//! [`backend`]. Everything layered on top of it is verified here: the
//! builder-to-structure lifecycle, the pull-based stream protocol with
//! idempotent exhaustion, the N-way merge algebra (union, intersection,
//! difference, symmetric difference), range narrowing, and the out-of-band
//! error context that replaces panics for callers that cannot catch them.
//!
//! Ownership carries the handle discipline: builders and operation builders
//! are consumed exactly once by their finish operation, structures are
//! borrowed by queries and streams, and every handle is released exactly
//! once, by dropping it. A use after release is a type error here, not an
//! undefined run.

pub mod algebra;
pub mod backend;
pub mod laws;
pub mod map_index;
pub mod order;
pub mod set_index;
pub mod util;
