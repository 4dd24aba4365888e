//! One-directional, content-addressed diff of two directory trees.
//!
//! The library holds the decision logic of the diff: relative-path
//! arithmetic, streaming content fingerprints, per-entry classification,
//! and the bookkeeping of the batched open queue. The surrounding binary
//! performs the traversal and the kernel I/O and drives these decisions.

use vstd::prelude::*;

pub mod batch;
pub mod dircache;
pub mod hash;
pub mod plan;
pub mod relpath;

verus! {

/// The default sizing of the read buffer used while fingerprinting, in
/// bytes.
pub const BUF_LEN: usize = 8192;

/// The default sizing of the kernel ring: the fixed number of submission
/// entries it holds.
pub const RING_ENTRIES: usize = 1024;

} // verus!
