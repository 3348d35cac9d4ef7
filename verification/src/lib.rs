//! A shard-per-core key-value store speaking RESP2: the protocol codec, the
//! storage engine, the command handlers and the routing decisions.

pub mod commands;
pub mod engine;
pub mod execution;
pub mod network;
pub mod protocol;
pub mod runtime;
pub mod storage;
pub mod util;
