//! The error that an insertion at an invalid index returns.
use vstd::prelude::*;

verus! {

/// An insertion index past the end of the container: `index > len`.
#[derive(Debug, Clone, Copy, PartialEq, Eq, Structural)]
pub struct IndexOutOfRange {
    /// The index that was asked for.
    pub index: usize,
    /// The container's length at the time.
    pub len: usize,
}

} // verus!
