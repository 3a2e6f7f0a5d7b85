//! Merging several page-oriented documents, each a self-contained object
//! graph keyed by composite numeric identifiers, into one coherent document:
//! collision-free identifier remapping, recursive rewriting of embedded
//! cross-references, and reconstruction of a single flat page index.
//!
//! Parsing raw bytes into a graph and serializing a graph back to bytes are
//! boundary collaborators of the surrounding host; this crate works on
//! already-materialized graphs.

pub mod assoc;
pub mod error;
pub mod graph;
pub mod guard;
pub mod laws;
pub mod merge;
pub mod names;
pub mod object;
pub mod pages;
pub mod remap;
