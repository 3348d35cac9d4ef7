//! The buffers of a client connection and the decisions made around its
//! reads and writes; the socket itself is the caller's.

use vstd::prelude::*;

use crate::network::error::NetworkError;

verus! {

/// Room made in the read buffer before each read.
pub const MIN_READ_BUFFER: usize = 65536;

/// The capacity the write buffer starts with.
pub const MIN_WRITE_BUFFER: usize = 65536;

/// Most bytes the read buffer may hold.
pub const MAX_READ_BUFFER: usize = 67108864;

/// Most bytes the write buffer may hold.
pub const MAX_WRITE_BUFFER: usize = 67108864;

/// The kinds of I/O failure that the connection tells apart.
#[derive(Debug, Clone, Copy, PartialEq, Eq, Structural)]
pub enum IoFailure {
    ConnectionReset,
    TimedOut,
    WriteZero,
    Other,
}

/// `io::Error::kind`, told apart as far as the connection needs.
#[verifier::external_body]
fn io_failure_of(e: &std::io::Error) -> (r: IoFailure) {
    match e.kind() {
        std::io::ErrorKind::ConnectionReset => IoFailure::ConnectionReset,
        std::io::ErrorKind::TimedOut => IoFailure::TimedOut,
        std::io::ErrorKind::WriteZero => IoFailure::WriteZero,
        _ => IoFailure::Other,
    }
}

/// The error a read that failed with `kind` reports: a reset or a timeout
/// by name, any other failure as it came.
pub fn read_failure(kind: IoFailure, e: std::io::Error) -> (r: NetworkError)
    ensures
        kind is ConnectionReset ==> r is ConnectionReset,
        kind is TimedOut ==> r is ConnectionTimeout,
        !(kind is ConnectionReset || kind is TimedOut) ==> r == NetworkError::Io(e),
{
    match kind {
        IoFailure::ConnectionReset => NetworkError::ConnectionReset,
        IoFailure::TimedOut => NetworkError::ConnectionTimeout,
        _ => NetworkError::Io(e),
    }
}

/// The error a write that failed with `kind` reports: a write of zero bytes
/// means the peer has gone; any other failure as it came.
pub fn write_failure(kind: IoFailure, e: std::io::Error) -> (r: NetworkError)
    ensures
        kind is WriteZero ==> r is ConnectionClosed,
        !(kind is WriteZero) ==> r == NetworkError::Io(e),
{
    match kind {
        IoFailure::WriteZero => NetworkError::ConnectionClosed,
        _ => NetworkError::Io(e),
    }
}

/// The error for a failed read, by the kind of `e`.
pub fn read_error(e: std::io::Error) -> (r: NetworkError)
    ensures
        r is ConnectionReset || r is ConnectionTimeout || r == NetworkError::Io(e),
{
    let kind = io_failure_of(&e);
    read_failure(kind, e)
}

/// The error for a failed write, by the kind of `e`.
pub fn write_error(e: std::io::Error) -> (r: NetworkError)
    ensures
        r is ConnectionClosed || r == NetworkError::Io(e),
{
    let kind = io_failure_of(&e);
    write_failure(kind, e)
}

/// What a read of `n` bytes means: zero bytes is a closed connection.
pub fn read_outcome(n: usize) -> (r: Result<usize, NetworkError>)
    ensures
        n == 0 ==> (r matches Err(e) && e is ConnectionClosed),
        n > 0 ==> r == Ok::<usize, NetworkError>(n),
{
    if n == 0 {
        Err(NetworkError::ConnectionClosed)
    } else {
        Ok(n)
    }
}

/// The read and write buffers of a connection.
pub struct Buffers {
    rbuf: Vec<u8>,
    wbuf: Vec<u8>,
}

impl Buffers {
    /// The bytes read and not yet decoded.
    pub closed spec fn read_bytes(&self) -> Seq<u8> {
        self.rbuf@
    }

    /// The bytes encoded and not yet written.
    pub closed spec fn write_bytes(&self) -> Seq<u8> {
        self.wbuf@
    }

    pub fn new() -> (r: Self)
        ensures
            r.read_bytes() == Seq::<u8>::empty(),
            r.write_bytes() == Seq::<u8>::empty(),
    {
        Buffers { rbuf: Vec::with_capacity(MIN_READ_BUFFER), wbuf: Vec::with_capacity(MIN_WRITE_BUFFER) }
    }

    /// Whether another read may run: it needs room for `MIN_READ_BUFFER`
    /// more bytes under `MAX_READ_BUFFER`.
    pub fn read_room(&self) -> (r: Result<(), NetworkError>)
        ensures
            self.read_bytes().len() + MIN_READ_BUFFER > MAX_READ_BUFFER <==> r is Err,
            r matches Err(e) ==> e is BufferOverflow,
    {
        if self.rbuf.len() > MAX_READ_BUFFER - MIN_READ_BUFFER {
            Err(NetworkError::BufferOverflow)
        } else {
            Ok(())
        }
    }

    /// Queues `data` for writing, unless the write buffer would pass
    /// `MAX_WRITE_BUFFER`.
    pub fn write_buf(&mut self, data: &[u8]) -> (r: Result<(), NetworkError>)
        ensures
            old(self).write_bytes().len() + data@.len() > MAX_WRITE_BUFFER <==> r is Err,
            r matches Err(e) ==> (e is BufferOverflow && final(self).write_bytes() == old(self).write_bytes()),
            r is Ok ==> final(self).write_bytes() == old(self).write_bytes() + data@,
            final(self).read_bytes() == old(self).read_bytes(),
    {
        if self.wbuf.len() > MAX_WRITE_BUFFER || data.len() > MAX_WRITE_BUFFER - self.wbuf.len() {
            return Err(NetworkError::BufferOverflow);
        }
        crate::util::append_bytes(&mut self.wbuf, data);
        Ok(())
    }

    /// Forgets the written bytes, once the socket has taken them all.
    pub fn written(&mut self)
        ensures
            final(self).write_bytes() == Seq::<u8>::empty(),
            final(self).read_bytes() == old(self).read_bytes(),
    {
        self.wbuf.clear();
    }

    pub fn wbuf_mut(&mut self) -> (r: &mut Vec<u8>)
        ensures
            (*r)@ == old(self).write_bytes(),
            final(self).write_bytes() == (*final(r))@,
            final(self).read_bytes() == old(self).read_bytes(),
    {
        &mut self.wbuf
    }

    pub fn rbuf_mut(&mut self) -> (r: &mut Vec<u8>)
        ensures
            (*r)@ == old(self).read_bytes(),
            final(self).read_bytes() == (*final(r))@,
            final(self).write_bytes() == old(self).write_bytes(),
    {
        &mut self.rbuf
    }
}

} // verus!
