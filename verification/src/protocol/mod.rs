//! The wire protocol: commands, replies, errors and the RESP2 codec.

pub mod codec;
pub mod command;
pub mod error;
pub mod reply;
pub mod resp2;

pub use error::{ProtocolError, Result};
