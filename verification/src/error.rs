use vstd::prelude::*;

verus! {

/// The two recoverable error kinds of the library.
///
/// Both are returned as values, never raised as unrecoverable faults, so a
/// caller can skip, log or continue on a per-item basis.
#[derive(Clone, Copy, Debug, PartialEq, Eq, Structural)]
pub enum QuadError {
    /// Raised only at region construction, when width or height is negative.
    InvalidGeometry,
    /// Raised when an item cannot be placed: it falls outside the bounds it
    /// is being inserted into.
    OutOfBounds,
}

} // verus!
