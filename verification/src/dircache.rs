//! The parent-directory cache.
//!
//! While the walk stays inside one directory, the two open parent handles
//! — one per tree — are reused for every candidate's relative open. This
//! module holds the decision: it tracks the current parent path and
//! reports when the walk has moved to a different parent, which is exactly
//! when the caller must open a fresh handle pair and drop the old one.

use vstd::prelude::*;

use crate::relpath::{bytes_eq, copy_bytes};

verus! {

/// The view of an optional borrowed path.
pub open spec fn opt_path_view(p: Option<&Vec<u8>>) -> Option<Seq<u8>> {
    match p {
        None => None,
        Some(v) => Some(v@),
    }
}

/// Tracks the parent directory of the most recently visited entry.
pub struct ParentCache {
    current: Option<Vec<u8>>,
}

impl ParentCache {
    /// The cached parent path, if any entry has been seen yet.
    pub closed spec fn cached(self) -> Option<Seq<u8>> {
        match self.current {
            None => None,
            Some(v) => Some(v@),
        }
    }

    /// A fresh cache, holding no parent.
    pub fn new() -> (r: ParentCache)
        ensures
            r.cached() is None,
    {
        ParentCache { current: None }
    }

    /// Records the parent of the entry being visited. Returns whether it
    /// differs from the cached one — exactly then must the caller reopen
    /// the parent handle pair.
    pub fn advance(&mut self, parent: Option<&Vec<u8>>) -> (changed: bool)
        ensures
            changed == (old(self).cached() != opt_path_view(parent)),
            final (self).cached() == opt_path_view(parent),
    {
        let changed = match (&self.current, parent) {
            (None, None) => false,
            (Some(c), Some(p)) => !bytes_eq(c, p),
            _ => true,
        };
        if changed {
            self.current = match parent {
                None => None,
                Some(p) => Some(copy_bytes(p)),
            };
        }
        changed
    }
}

} // verus!
