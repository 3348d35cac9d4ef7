//! An earlier execution path: a smaller command table, looked up by name
//! length first, and PING, SET and GET on the plain key-value store.

pub mod commands;
pub mod registry;
