//! What a client connection does with the bytes it has read: decode the
//! next command, or answer a malformed stream with a syntax error and stop.

use vstd::prelude::*;

use crate::network::connection::Buffers;
use crate::protocol::codec::ProtocolCodec;
use crate::protocol::command::Command;
use crate::protocol::error::ProtocolError;
use crate::protocol::reply::{CommandError, ErrorView, Reply, ReplyView};
use crate::protocol::resp2::decoder::decode_outcome;
use crate::protocol::resp2::encoder::encode_spec;

verus! {

/// The next thing a connection does.
pub enum ClientStep {
    /// Run this command and queue its reply.
    Execute(Command),
    /// Read more bytes first.
    NeedMore,
    /// The stream is malformed: a syntax error is queued; close after
    /// writing it.
    Fail(ProtocolError),
}

/// The decoder's answer that a step stands for.
pub open spec fn decoded(s: ClientStep) -> crate::protocol::Result<Option<Command>> {
    match s {
        ClientStep::Execute(c) => Ok(Some(c)),
        ClientStep::NeedMore => Ok(None),
        ClientStep::Fail(e) => Err(e),
    }
}

/// Decodes the next command from the read buffer. A decoding error queues a
/// syntax-error reply in the write buffer.
pub fn next_step(codec: &mut ProtocolCodec, bufs: &mut Buffers) -> (r: ClientStep)
    requires
        old(codec).wf(),
    ensures
        final(codec).wf(),
        old(codec).raw_remaining() is Some ==> (r is NeedMore && final(bufs).read_bytes() == old(bufs).read_bytes()),
        old(codec).raw_remaining() is None ==> decode_outcome(
            old(codec).pending() + old(bufs).read_bytes(),
            old(codec).array_mode(),
            decoded(r),
            final(codec).pending(),
            final(bufs).read_bytes(),
            final(codec).array_mode(),
            final(codec).is_idle(),
        ),
        r is Fail ==> final(bufs).write_bytes() == old(bufs).write_bytes() + encode_spec(
            ReplyView::Error(ErrorView::Syntax),
        ),
        !(r is Fail) ==> final(bufs).write_bytes() == old(bufs).write_bytes(),
{
    match codec.decode(bufs.rbuf_mut()) {
        Ok(Some(cmd)) => ClientStep::Execute(cmd),
        Ok(None) => ClientStep::NeedMore,
        Err(e) => {
            codec.encode(bufs.wbuf_mut(), Reply::Error(CommandError::Syntax));
            ClientStep::Fail(e)
        },
    }
}

} // verus!
