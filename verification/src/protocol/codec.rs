//! The protocol codec: decoder state across reads, and reply encoding.

use vstd::prelude::*;

use crate::protocol::command::{Args, Command};
use crate::protocol::error::Result;
use crate::protocol::reply::Reply;
use crate::protocol::resp2;
use crate::protocol::resp2::decoder::{decode_outcome, is_array_state, state_matches};
use crate::protocol::resp2::encoder::encode_spec;

verus! {

/// The wire protocols that the codec speaks.
pub enum Protocol {
    RESP2,
}

/// A command whose array header has been read and whose arguments are being
/// collected.
pub struct Frame {
    pub expected_args: usize,
    pub current_index: usize,
    pub args: Args,
}

/// Decoder state. `Frame` lives inside the states that need it, so a state
/// mid-command always has its frame.
///
/// `ReadingRawBytes` exists for replication: a payload that arrives inline on
/// the connection and must not be read as RESP. The connection layer switches
/// into it with `begin_raw_passthrough`, drains it with `read_raw`, and the
/// codec returns to `Idle` on its own once nothing remains.
pub enum DecoderState {
    Idle,
    ReadingArrayLength,
    ReadingBulkLength { frame: Frame },
    ReadingBulkData { frame: Frame, remaining: usize },
    ReadingRawBytes { remaining: usize },
}

/// Decodes commands from a byte stream that arrives in pieces, and encodes
/// replies.
pub struct ProtocolCodec {
    protocol: Protocol,
    state: DecoderState,
    /// The bytes of the command in progress already taken from the buffer.
    taken: Ghost<Seq<u8>>,
}

impl ProtocolCodec {
    /// The state agrees with the bytes taken.
    pub closed spec fn wf(&self) -> bool {
        &&& state_matches(self.state, self.taken@)
        &&& self.state is ReadingRawBytes ==> self.taken@.len() == 0
    }

    /// The bytes of the command in progress that the codec has already taken
    /// from the buffer.
    pub closed spec fn pending(&self) -> Seq<u8> {
        self.taken@
    }

    /// The codec has committed to reading a command in the array form.
    pub closed spec fn array_mode(&self) -> bool {
        is_array_state(self.state) && !(self.state is ReadingRawBytes)
    }

    /// The codec waits for the start of a command.
    pub closed spec fn is_idle(&self) -> bool {
        self.state is Idle
    }

    /// How many raw bytes are still to be passed through, in raw mode.
    pub closed spec fn raw_remaining(&self) -> Option<nat> {
        match self.state {
            DecoderState::ReadingRawBytes { remaining } => Some(remaining as nat),
            _ => None,
        }
    }

    pub fn new() -> (r: Self)
        ensures
            r.wf(),
            r.is_idle(),
            !r.array_mode(),
            r.pending() == Seq::<u8>::empty(),
            r.raw_remaining() is None,
    {
        ProtocolCodec { protocol: Protocol::RESP2, state: DecoderState::Idle, taken: Ghost(Seq::empty()) }
    }

    /// Decodes the next complete command, if any. Returns `Ok(None)` when more
    /// bytes are needed; it answers for the bytes taken before followed by
    /// `buf` exactly as the grammar (`parse_frame`) answers for that whole
    /// stream, so it is safe to call again as more bytes arrive, wherever the
    /// network split the stream. On an error it says what stays taken, what
    /// stays in `buf` and whether the codec is idle again (`decode_outcome`).
    /// In raw passthrough it returns `Ok(None)` and touches nothing.
    pub fn decode(&mut self, buf: &mut Vec<u8>) -> (r: Result<Option<Command>>)
        requires
            old(self).wf(),
        ensures
            final(self).wf(),
            old(self).raw_remaining() is Some ==> (r matches Ok(None) && final(buf)@ == old(buf)@
                && final(self).raw_remaining() == old(self).raw_remaining()),
            old(self).raw_remaining() is None ==> final(self).raw_remaining() is None
                && decode_outcome(
                old(self).pending() + old(buf)@,
                old(self).array_mode(),
                r,
                final(self).pending(),
                final(buf)@,
                final(self).array_mode(),
                final(self).is_idle(),
            ),
    {
        if let DecoderState::ReadingRawBytes { .. } = self.state {
            return Ok(None);
        }
        match self.protocol {
            Protocol::RESP2 => {
                let (r, Ghost(taken)) = resp2::decoder::decode(buf, &mut self.state, self.taken);
                self.taken = Ghost(taken);
                r
            },
        }
    }

    /// Appends the encoding of `reply` to `buf`.
    pub fn encode(&self, buf: &mut Vec<u8>, reply: Reply)
        ensures
            final(buf)@ == old(buf)@ + encode_spec(reply@),
    {
        match self.protocol {
            Protocol::RESP2 => resp2::encode(&reply, buf),
        }
    }

    /// Switches to raw passthrough of the next `len` bytes.
    pub fn begin_raw_passthrough(&mut self, len: usize)
        requires
            old(self).wf(),
            old(self).is_idle(),
        ensures
            final(self).wf(),
            final(self).raw_remaining() == Some(len as nat),
            final(self).pending() == Seq::<u8>::empty(),
            !final(self).array_mode(),
    {
        self.state = DecoderState::ReadingRawBytes { remaining: len };
        self.taken = Ghost(Seq::empty());
    }

    /// In raw passthrough, takes up to the remaining number of bytes from the
    /// front of `buf`; returns to `Idle` once nothing remains. `None` when not
    /// in raw passthrough, or when there is nothing to take.
    pub fn read_raw(&mut self, buf: &mut Vec<u8>) -> (r: Option<Vec<u8>>)
        requires
            old(self).wf(),
        ensures
            final(self).wf(),
            match old(self).raw_remaining() {
                None => r is None && final(buf)@ == old(buf)@ && final(self).raw_remaining() is None
                    && final(self).pending() == old(self).pending() && final(self).is_idle()
                    == old(self).is_idle() && final(self).array_mode() == old(self).array_mode(),
                Some(rem) => final(self).pending() == Seq::<u8>::empty() && !final(self).array_mode()
                    && if old(buf)@.len() == 0 || rem == 0 {
                    &&& r is None
                    &&& final(buf)@ == old(buf)@
                    &&& rem == 0 ==> final(self).is_idle() && final(self).raw_remaining() is None
                    &&& rem > 0 ==> final(self).raw_remaining() == Some(rem)
                } else {
                    let take = if old(buf)@.len() < rem {
                        old(buf)@.len() as int
                    } else {
                        rem as int
                    };
                    &&& (r matches Some(chunk) && chunk@ == old(buf)@.take(take))
                    &&& final(buf)@ == old(buf)@.skip(take)
                    &&& rem - take == 0 ==> final(self).is_idle() && final(self).raw_remaining() is None
                    &&& rem - take > 0 ==> final(self).raw_remaining() == Some((rem - take) as nat)
                },
            },
    {
        let remaining = match self.state {
            DecoderState::ReadingRawBytes { remaining } => remaining,
            _ => return None,
        };
        if buf.len() == 0 || remaining == 0 {
            if remaining == 0 {
                self.state = DecoderState::Idle;
            }
            return None;
        }
        let take = if buf.len() < remaining {
            buf.len()
        } else {
            remaining
        };
        let chunk = resp2::decoder::take_front(buf, take);
        let left = remaining - take;
        if left == 0 {
            self.state = DecoderState::Idle;
        } else {
            self.state = DecoderState::ReadingRawBytes { remaining: left };
        }
        Some(chunk)
    }

    pub fn is_in_raw_passthrough(&self) -> (r: bool)
        ensures
            r == (self.raw_remaining() is Some),
    {
        if let DecoderState::ReadingRawBytes { .. } = self.state {
            true
        } else {
            false
        }
    }
}

} // verus!
