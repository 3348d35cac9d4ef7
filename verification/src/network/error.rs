//! Why a connection failed.

use vstd::prelude::*;

use vstd::string::StringExecFns;

verus! {

/// The I/O error type of the standard library.
#[verifier::external_type_specification]
#[verifier::external_body]
pub struct ExIoError(std::io::Error);

/// `io::Error`'s `Display` text. It comes from the operating system's
/// description of the error, which differs between machines, so nothing is
/// promised of it.
#[verifier::external_body]
fn io_error_text(e: &std::io::Error) -> (r: String) {
    e.to_string()
}

#[derive(Debug)]
pub enum NetworkError {
    ConnectionReset,
    ConnectionClosed,
    ConnectionTimeout,
    Io(std::io::Error),
    BufferOverflow,
    TooManyConnections,
    Internal(String),
}

/// The message of a network error; for an I/O error, the part before the
/// system's own description.
pub open spec fn network_error_text(e: NetworkError) -> Seq<char> {
    match e {
        NetworkError::ConnectionReset => "connection reset by peer"@,
        NetworkError::ConnectionClosed => "connection closed"@,
        NetworkError::ConnectionTimeout => "connection timeout"@,
        NetworkError::Io(_) => "io error: "@,
        NetworkError::BufferOverflow => "buffer overflow"@,
        NetworkError::TooManyConnections => "too many connections"@,
        NetworkError::Internal(m) => "internal network error: "@ + m@,
    }
}

impl NetworkError {
    /// The error's message. For an I/O error it is `io error: ` followed by
    /// the system's description, which is not stated.
    pub fn message(&self) -> (r: String)
        ensures
            self is Io ==> r@.subrange(0, network_error_text(*self).len() as int) == network_error_text(*self),
            !(self is Io) ==> r@ == network_error_text(*self),
    {
        match self {
            NetworkError::ConnectionReset => String::from_str("connection reset by peer"),
            NetworkError::ConnectionClosed => String::from_str("connection closed"),
            NetworkError::ConnectionTimeout => String::from_str("connection timeout"),
            NetworkError::Io(e) => {
                let mut out = String::from_str("io error: ");
                let ghost head = out@;
                out.append(io_error_text(e).as_str());
                assert(out@.subrange(0, head.len() as int) =~= head);
                out
            },
            NetworkError::BufferOverflow => String::from_str("buffer overflow"),
            NetworkError::TooManyConnections => String::from_str("too many connections"),
            NetworkError::Internal(m) => {
                let mut out = String::from_str("internal network error: ");
                out.append(m.as_str());
                out
            },
        }
    }
}

impl From<std::io::Error> for NetworkError {
    fn from(e: std::io::Error) -> (r: NetworkError) {
        NetworkError::Io(e)
    }
}

impl vstd::std_specs::convert::FromSpecImpl<std::io::Error> for NetworkError {
    open spec fn obeys_from_spec() -> bool {
        true
    }

    open spec fn from_spec(e: std::io::Error) -> NetworkError {
        NetworkError::Io(e)
    }
}

pub type Result<T> = std::result::Result<T, NetworkError>;

} // verus!
