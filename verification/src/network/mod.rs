//! The network layer's decisions: connection buffers, what a client does
//! with the bytes it read, and the errors of both.

pub mod client;
pub mod connection;
pub mod error;
