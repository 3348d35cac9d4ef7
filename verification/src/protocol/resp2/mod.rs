//! RESP2 framing: decoding commands from bytes and encoding replies to bytes.

pub mod decoder;
pub mod encoder;
pub mod laws;

pub use encoder::encode;
