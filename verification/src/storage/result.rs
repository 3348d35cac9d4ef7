//! The outcome of a conditional write.

use vstd::prelude::*;

verus! {

/// Whether a conditional write was made, with what it reports either way.
#[derive(Debug, Clone, Copy, PartialEq, Eq)]
pub enum WriteOutcome<T> {
    Applied(T),
    Rejected(T),
}

} // verus!
