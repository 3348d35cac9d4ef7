//! One shard's execution engine, and the routing of commands between shards.

pub mod coordinator;
pub mod kv;
pub mod laws;
pub mod shard;
pub mod value;
