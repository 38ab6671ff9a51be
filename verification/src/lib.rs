//! A read-only hierarchical filesystem over an in-memory record set.
//!
//! A record set (one name plus six fixed attribute fields per record) is
//! turned once, at startup, into an immutable tree: the root directory,
//! one directory per record, and one file per attribute.  The operation
//! handlers answer the seven requests of a remote-filesystem session
//! (attach, walk, getattr, readdir, open, read, clunk) against that tree,
//! keeping only per-handle session state.  Transport, framing and the
//! relational data source live outside this crate.

use vstd::prelude::*;

pub mod text;
pub mod tree;
pub mod resolve;
pub mod ops;
pub mod laws;

verus! {

/// The two error kinds the operation handlers can report.
#[derive(Clone, Copy, Debug, PartialEq, Eq, Structural)]
pub enum FsError {
    /// The first segment of a walk failed to resolve.
    NotFound,
    /// A handle's recorded path no longer resolves against the tree.
    Invalid,
}

} // verus!
