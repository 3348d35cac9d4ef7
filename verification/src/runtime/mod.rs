//! The runtime's decisions: where a command of the single-key table runs,
//! which shard owns a key, which core a worker takes, and the errors of
//! starting workers.

pub mod affinity;
pub mod dispatch;
pub mod error;
pub mod resolver;
