//! An issue-tracking engine whose records live as files in a
//! project-local metadata directory, identified and cross-referenced by
//! stable hashes, queryable through a multi-field filter, and deletable
//! only in dependency-safe order.
//!
//! The engine is the verified core: the issue record model and its
//! identity scheme, the storage layer's decisions (repository discovery,
//! initialization, per-issue persistence, existence checks, safe removal),
//! the in-memory handler that loads and saves the full issue set and
//! evaluates filters, and the dependency-graph traversal that orders
//! cascading deletion.  A thin unverified shell supplies the command line,
//! the rendering and the actual file reads and writes around it.

pub mod fields;
pub mod filter;
pub mod handler;
pub mod hex;
pub mod ids;
pub mod issue;
pub mod record;
pub mod storage;

use vstd::prelude::*;

verus! {

/// The failures that the engine's operations can report.
#[derive(Debug, PartialEq, Eq)]
pub enum Error {
    /// A repository root, an issue hash or a parent hash was not found.
    NotFound,
    /// A repository was already initialized at the given path.
    AlreadyExists,
    /// Malformed text: a hash, an enum tag, a record or a regular
    /// expression that does not parse. Carries the offending text.
    ParseError(String),
    /// A progress value above one hundred.
    OutOfRange,
}

} // verus!
