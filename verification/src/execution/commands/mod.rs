//! The commands of the plain key-value store.

pub mod server;
pub mod string;
