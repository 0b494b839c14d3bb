//! Errors the log can report.
//!
//! Queries never fail on account of their arguments: an offset past the end of
//! a sequence, a limit above the page size and a key that was never observed
//! are answered with an empty or shortened result. What is left are the two
//! conditions below.

use vstd::prelude::*;

verus! {

/// A failure reported by the log.
#[derive(Debug, Clone, Copy, PartialEq, Eq, Structural)]
pub enum EngineError {
    /// A position does not resolve to a record of the store.
    IndexCorruption,
    /// A snapshot cannot be applied: it names a position that its own log
    /// does not hold, or a key without any position.
    RestoreFailure,
}

} // verus!
