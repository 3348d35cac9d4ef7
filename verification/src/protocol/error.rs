//! Errors in the framing of the byte stream.

use vstd::prelude::*;

verus! {

/// Why the byte stream could not be decoded.
#[derive(Debug)]
pub enum ProtocolError {
    InvalidFrame { position: usize, reason: String },
    ConstraintViolation(String),
}

/// The abstract value of a `ProtocolError`.
pub enum ProtocolErrorView {
    InvalidFrame { position: nat, reason: Seq<char> },
    ConstraintViolation(Seq<char>),
}

impl View for ProtocolError {
    type V = ProtocolErrorView;

    open spec fn view(&self) -> ProtocolErrorView {
        match self {
            ProtocolError::InvalidFrame { position, reason } => ProtocolErrorView::InvalidFrame {
                position: *position as nat,
                reason: reason@,
            },
            ProtocolError::ConstraintViolation(m) => ProtocolErrorView::ConstraintViolation(m@),
        }
    }
}

pub type Result<T> = core::result::Result<T, ProtocolError>;

} // verus!
