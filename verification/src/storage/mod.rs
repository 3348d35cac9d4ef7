//! The keyspace of one shard: records with optional expiry, and the string
//! and key operations on them.

pub mod error;
pub mod kv;
pub mod laws;
pub mod ops;
pub mod record;
pub mod result;
pub mod storage;
pub mod strings;
pub mod value;

pub use error::{StorageError, StorageResult};
pub use ops::key::KeyOps;
pub use ops::string::StringOps;
pub use record::Record;
pub use result::WriteOutcome;
pub use storage::StorageEngine;
pub use value::Value;
