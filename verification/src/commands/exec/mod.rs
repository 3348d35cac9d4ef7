//! The handlers of the commands, each run on the shard that owns its keys.
//! Each states, over the keyspace and the arguments, the reply it gives and
//! the keyspace it leaves.

use vstd::prelude::*;

use crate::protocol::reply::{ErrorView, ReplyView, storage_error_view};
use crate::storage::StorageError;

pub mod key;
pub mod server;
pub mod string;

verus! {

/// The arguments by their bytes.
pub open spec fn arg_views(args: Seq<Vec<u8>>) -> Seq<Seq<u8>> {
    args.map_values(|a: Vec<u8>| a@)
}

pub open spec fn wrong_arity() -> ReplyView {
    ReplyView::Error(ErrorView::WrongArity)
}

/// The reply for a refused storage operation.
pub open spec fn storage_failure(e: StorageError) -> ReplyView {
    ReplyView::Error(storage_error_view(e))
}

} // verus!
