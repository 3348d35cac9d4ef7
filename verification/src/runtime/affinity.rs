//! Which core a worker is pinned to.

use vstd::prelude::*;

use crate::runtime::error::RuntimeError;

verus! {

/// The position, among the `count` cores found, of the core for worker
/// `core_id`: workers wrap around the cores. With no core found, pinning
/// fails.
pub fn core_index(core_id: usize, count: usize) -> (r: Result<usize, RuntimeError>)
    ensures
        count == 0 ==> r == Err::<usize, RuntimeError>(RuntimeError::ThreadPinFailed { id: core_id, core: core_id }),
        count > 0 ==> r == Ok::<usize, RuntimeError>(core_id % count),
{
    if count == 0 {
        Err(RuntimeError::ThreadPinFailed { id: core_id, core: core_id })
    } else {
        Ok(core_id % count)
    }
}

} // verus!
