//! Replies that commands produce, and their abstract values.

use vstd::prelude::*;

use vstd::string::{StringExecFns, StringSliceAdditionalSpecFns};

use crate::storage::StorageError;
use crate::util::copy_bytes;

verus! {

/// An error reply.
#[derive(Debug, Clone)]
pub enum CommandError {
    UnknownCommand,
    WrongArity,
    WrongType,
    Syntax,
    OutOfRange,
    /// A shard did not answer, or answered with a reply of the wrong kind.
    Internal,
    Custom(Vec<u8>),
}

/// A reply to a command.
#[derive(Debug)]
pub enum Reply {
    OK,
    Pong,
    Null,
    NullArray,
    Simple(Vec<u8>),
    Bulk(Vec<u8>),
    Integer(i64),
    Array(Vec<Reply>),
    Error(CommandError),
}

/// The abstract value of a `CommandError`.
pub enum ErrorView {
    UnknownCommand,
    WrongArity,
    WrongType,
    Syntax,
    OutOfRange,
    Internal,
    Custom(Seq<u8>),
}

/// The abstract value of a `Reply`.
pub enum ReplyView {
    OK,
    Pong,
    Null,
    NullArray,
    Simple(Seq<u8>),
    Bulk(Seq<u8>),
    Integer(i64),
    Array(Seq<ReplyView>),
    Error(ErrorView),
}

impl View for CommandError {
    type V = ErrorView;

    open spec fn view(&self) -> ErrorView {
        match self {
            CommandError::UnknownCommand => ErrorView::UnknownCommand,
            CommandError::WrongArity => ErrorView::WrongArity,
            CommandError::WrongType => ErrorView::WrongType,
            CommandError::Syntax => ErrorView::Syntax,
            CommandError::OutOfRange => ErrorView::OutOfRange,
            CommandError::Internal => ErrorView::Internal,
            CommandError::Custom(m) => ErrorView::Custom(m@),
        }
    }
}

pub open spec fn reply_view(r: Reply) -> ReplyView
    decreases r,
{
    match r {
        Reply::OK => ReplyView::OK,
        Reply::Pong => ReplyView::Pong,
        Reply::Null => ReplyView::Null,
        Reply::NullArray => ReplyView::NullArray,
        Reply::Simple(s) => ReplyView::Simple(s@),
        Reply::Bulk(b) => ReplyView::Bulk(b@),
        Reply::Integer(n) => ReplyView::Integer(n),
        Reply::Array(items) => ReplyView::Array(
            Seq::new(
                items@.len(),
                |i: int|
                    if 0 <= i < items@.len() {
                        reply_view(items@[i])
                    } else {
                        ReplyView::Null
                    },
            ),
        ),
        Reply::Error(e) => ReplyView::Error(e@),
    }
}

impl View for Reply {
    type V = ReplyView;

    open spec fn view(&self) -> ReplyView {
        reply_view(*self)
    }
}

impl From<StorageError> for CommandError {
    fn from(err: StorageError) -> (r: CommandError) {
        match err {
            StorageError::WrongType => CommandError::WrongType,
            StorageError::OutOfRange => CommandError::OutOfRange,
        }
    }
}

impl vstd::std_specs::convert::FromSpecImpl<StorageError> for CommandError {
    open spec fn obeys_from_spec() -> bool {
        true
    }

    open spec fn from_spec(err: StorageError) -> CommandError {
        match err {
            StorageError::WrongType => CommandError::WrongType,
            StorageError::OutOfRange => CommandError::OutOfRange,
        }
    }
}

/// The error reply that a storage error becomes.
pub open spec fn storage_error_view(err: StorageError) -> ErrorView {
    match err {
        StorageError::WrongType => ErrorView::WrongType,
        StorageError::OutOfRange => ErrorView::OutOfRange,
    }
}

impl CommandError {
    /// The error reply for a storage error.
    pub fn from_storage(err: StorageError) -> (r: CommandError)
        ensures
            r@ == storage_error_view(err),
    {
        CommandError::from(err)
    }
}

impl Reply {
    pub fn simple(s: &str) -> (r: Reply)
        ensures
            r@ == ReplyView::Simple(s.spec_bytes()),
    {
        Reply::Simple(copy_bytes(s.as_bytes()))
    }

    pub fn bulk(data: &[u8]) -> (r: Reply)
        ensures
            r@ == ReplyView::Bulk(data@),
    {
        Reply::Bulk(copy_bytes(data))
    }

    /// An error reply with a message of its own.
    pub fn err(msg: &str) -> (r: Reply)
        ensures
            r@ == ReplyView::Error(ErrorView::Custom(msg.spec_bytes())),
    {
        Reply::Error(CommandError::Custom(copy_bytes(msg.as_bytes())))
    }

    pub fn unknown() -> (r: Reply)
        ensures
            r@ == ReplyView::Error(ErrorView::UnknownCommand),
    {
        Reply::Error(CommandError::UnknownCommand)
    }

    pub fn arity() -> (r: Reply)
        ensures
            r@ == ReplyView::Error(ErrorView::WrongArity),
    {
        Reply::Error(CommandError::WrongArity)
    }

    pub fn wrong_type() -> (r: Reply)
        ensures
            r@ == ReplyView::Error(ErrorView::WrongType),
    {
        Reply::Error(CommandError::WrongType)
    }

    pub fn syntax() -> (r: Reply)
        ensures
            r@ == ReplyView::Error(ErrorView::Syntax),
    {
        Reply::Error(CommandError::Syntax)
    }
}

/// The abstract values of a sequence of replies.
pub open spec fn replies_view(s: Seq<Reply>) -> Seq<ReplyView> {
    s.map_values(|r: Reply| r@)
}

/// The abstract value of an array reply is its items' abstract values.
pub proof fn lemma_array_view(items: Vec<Reply>)
    ensures
        reply_view(Reply::Array(items)) == ReplyView::Array(replies_view(items@)),
{
    let rv = reply_view(Reply::Array(items));
    match rv {
        ReplyView::Array(xs) => {
            assert forall|j: int| 0 <= j < xs.len() implies xs[j] == replies_view(items@)[j] by {
                assert(xs[j] == reply_view(items@[j]));
            }
            assert(xs =~= replies_view(items@));
        },
        _ => {
            assert(false);
        },
    }
}

impl CommandError {
    /// A copy of this error.
    pub fn duplicate(&self) -> (r: CommandError)
        ensures
            r@ == self@,
    {
        match self {
            CommandError::UnknownCommand => CommandError::UnknownCommand,
            CommandError::WrongArity => CommandError::WrongArity,
            CommandError::WrongType => CommandError::WrongType,
            CommandError::Syntax => CommandError::Syntax,
            CommandError::OutOfRange => CommandError::OutOfRange,
            CommandError::Internal => CommandError::Internal,
            CommandError::Custom(m) => CommandError::Custom(copy_bytes(m.as_slice())),
        }
    }
}

/// What `String::from_utf8_lossy` makes of some bytes.
pub uninterp spec fn lossy_utf8(b: Seq<u8>) -> Seq<char>;

/// `String::from_utf8_lossy(b).into_owned()`: the text of `b`, with each
/// invalid sequence replaced by U+FFFD; valid UTF-8 comes through as it
/// decodes.
#[verifier::external_body]
fn lossy_text(b: &[u8]) -> (r: String)
    ensures
        r@ == lossy_utf8(b@),
        vstd::utf8::valid_utf8(b@) ==> r@ == vstd::utf8::decode_utf8(b@),
{
    String::from_utf8_lossy(b).into_owned()
}

/// The text of an error reply.
pub open spec fn error_message(e: ErrorView) -> Seq<char> {
    match e {
        ErrorView::UnknownCommand => "ERR unknown command"@,
        ErrorView::WrongArity => "ERR wrong number of arguments"@,
        ErrorView::WrongType => "WRONGTYPE Operation against a key holding the wrong kind of value"@,
        ErrorView::Syntax => "ERR syntax error"@,
        ErrorView::OutOfRange => "ERR value out of range"@,
        ErrorView::Internal => "ERR internal error"@,
        ErrorView::Custom(m) => "ERR "@ + lossy_utf8(m),
    }
}

impl CommandError {
    /// The error's text, as a RESP2 error line carries it.
    pub fn message(&self) -> (r: String)
        ensures
            r@ == error_message(self@),
    {
        match self {
            CommandError::UnknownCommand => String::from_str("ERR unknown command"),
            CommandError::WrongArity => String::from_str("ERR wrong number of arguments"),
            CommandError::WrongType => String::from_str(
                "WRONGTYPE Operation against a key holding the wrong kind of value",
            ),
            CommandError::Syntax => String::from_str("ERR syntax error"),
            CommandError::OutOfRange => String::from_str("ERR value out of range"),
            CommandError::Internal => String::from_str("ERR internal error"),
            CommandError::Custom(m) => {
                let mut out = String::from_str("ERR ");
                out.append(lossy_text(m.as_slice()).as_str());
                out
            },
        }
    }
}

} // verus!
