//! An earlier set of handlers, which decide SET's conditions in the storage
//! engine (`str_set`) and read TTL from the stored expiry alone.

pub mod keyspace;
pub mod string;
