//! The table of commands: for each name, its arity, its routing and how the
//! replies of several shards are merged.

use vstd::prelude::*;

verus! {

#[derive(Debug, Clone, Copy, PartialEq, Eq, Structural)]
pub enum CommandId {
    Ping,
    /// SET (the name `Set` is taken by the prover's set type).
    SetKey,
    Get,
    Append,
    Mset,
    Mget,
    Del,
    Ttl,
    Exists,
    Incr,
    Decr,
    Incrby,
    Decrby,
}

/// Where a command runs.
#[derive(Debug, Clone, Copy, PartialEq, Eq, Structural)]
pub enum ExecutionPolicy {
    /// On the shard that received it.
    Local,
    /// On the shard that owns its first argument.
    SingleKey,
    /// On every shard that owns one of its keys.
    MultiKey,
}

#[derive(Debug, Clone, Copy, PartialEq, Eq, Structural)]
pub enum ReplyKind {
    OK,
    Integer,
    BulkString,
    Array,
}

/// How the replies of several shards become one.
#[derive(Debug, Clone, Copy, PartialEq, Eq, Structural)]
pub enum ReplyMergePolicy {
    /// A single shard answers; nothing to merge.
    NoMerge,
    IntegerSum,
    AllOk,
    OrderedArray,
}

/// How a command's arguments are laid out.
#[derive(Debug, Clone, Copy, PartialEq, Eq, Structural)]
pub enum ArgumentKind {
    /// No key among the arguments.
    NoKey,
    SingleKey,
    Keys,
    KeyValuePairs,
    OrderedKeys,
}

/// What the table says of a command.
#[derive(Debug, Clone, Copy, PartialEq, Eq, Structural)]
pub struct CommandMeta {
    pub id: CommandId,
    /// The fewest arguments it takes.
    pub min: usize,
    /// The most arguments it takes, if there is a limit.
    pub max: Option<usize>,
    /// Whether it writes.
    pub write: bool,
    pub execution_policy: ExecutionPolicy,
    pub argument_kind: ArgumentKind,
    pub reply_kind: ReplyKind,
    pub reply_merge_policy: ReplyMergePolicy,
}

pub open spec fn meta(
    id: CommandId,
    min: usize,
    max: Option<usize>,
    write: bool,
    policy: ExecutionPolicy,
    argument_kind: ArgumentKind,
    reply_kind: ReplyKind,
    reply_merge_policy: ReplyMergePolicy,
) -> CommandMeta {
    CommandMeta {
        id,
        min,
        max,
        write,
        execution_policy: policy,
        argument_kind,
        reply_kind,
        reply_merge_policy,
    }
}

impl CommandMeta {
    pub fn new(
        id: CommandId,
        min: usize,
        max: Option<usize>,
        write: bool,
        policy: ExecutionPolicy,
        argument_kind: ArgumentKind,
        reply_kind: ReplyKind,
        reply_merge_policy: ReplyMergePolicy,
    ) -> (r: Self)
        ensures
            r == meta(id, min, max, write, policy, argument_kind, reply_kind, reply_merge_policy),
    {
        CommandMeta {
            id,
            min,
            max,
            write,
            execution_policy: policy,
            argument_kind,
            reply_kind,
            reply_merge_policy,
        }
    }
}

/// Whether two byte strings are equal.
pub fn bytes_eq(a: &[u8], b: &[u8]) -> (r: bool)
    ensures
        r == (a@ == b@),
{
    if a.len() != b.len() {
        return false;
    }
    let mut i: usize = 0;
    while i < a.len()
        invariant
            a@.len() == b@.len(),
            i <= a@.len(),
            forall|j: int| 0 <= j < i ==> a@[j] == b@[j],
        decreases a@.len() - i,
    {
        if a[i] != b[i] {
            return false;
        }
        i += 1;
    }
    assert(a@ =~= b@);
    true
}

/// The table entry for a command name, matched byte for byte.
pub open spec fn command_meta(name: Seq<u8>) -> Option<CommandMeta> {
    if name == seq![80u8, 73, 78, 71] {
        // PING
        Some(meta(CommandId::Ping, 0, Some(2), false, ExecutionPolicy::Local, ArgumentKind::NoKey, ReplyKind::OK, ReplyMergePolicy::NoMerge))
    } else if name == seq![71u8, 69, 84] {
        // GET
        Some(meta(CommandId::Get, 1, Some(1), false, ExecutionPolicy::SingleKey, ArgumentKind::SingleKey, ReplyKind::BulkString, ReplyMergePolicy::NoMerge))
    } else if name == seq![83u8, 69, 84] {
        // SET
        Some(meta(CommandId::SetKey, 2, Some(8), true, ExecutionPolicy::SingleKey, ArgumentKind::SingleKey, ReplyKind::OK, ReplyMergePolicy::NoMerge))
    } else if name == seq![65u8, 80, 80, 69, 78, 68] {
        // APPEND
        Some(meta(CommandId::Append, 2, Some(2), true, ExecutionPolicy::SingleKey, ArgumentKind::SingleKey, ReplyKind::Integer, ReplyMergePolicy::NoMerge))
    } else if name == seq![77u8, 83, 69, 84] {
        // MSET
        Some(meta(CommandId::Mset, 2, None, true, ExecutionPolicy::MultiKey, ArgumentKind::KeyValuePairs, ReplyKind::OK, ReplyMergePolicy::AllOk))
    } else if name == seq![77u8, 71, 69, 84] {
        // MGET
        Some(meta(CommandId::Mget, 1, None, false, ExecutionPolicy::MultiKey, ArgumentKind::OrderedKeys, ReplyKind::Array, ReplyMergePolicy::OrderedArray))
    } else if name == seq![73u8, 78, 67, 82] {
        // INCR
        Some(meta(CommandId::Incr, 1, Some(1), true, ExecutionPolicy::SingleKey, ArgumentKind::SingleKey, ReplyKind::Integer, ReplyMergePolicy::NoMerge))
    } else if name == seq![68u8, 69, 67, 82] {
        // DECR
        Some(meta(CommandId::Decr, 1, Some(1), true, ExecutionPolicy::SingleKey, ArgumentKind::SingleKey, ReplyKind::Integer, ReplyMergePolicy::NoMerge))
    } else if name == seq![73u8, 78, 67, 82, 66, 89] {
        // INCRBY
        Some(meta(CommandId::Incrby, 2, Some(2), true, ExecutionPolicy::SingleKey, ArgumentKind::SingleKey, ReplyKind::Integer, ReplyMergePolicy::NoMerge))
    } else if name == seq![68u8, 69, 67, 82, 66, 89] {
        // DECRBY
        Some(meta(CommandId::Decrby, 2, Some(2), true, ExecutionPolicy::SingleKey, ArgumentKind::SingleKey, ReplyKind::Integer, ReplyMergePolicy::NoMerge))
    } else if name == seq![68u8, 69, 76] {
        // DEL
        Some(meta(CommandId::Del, 1, None, true, ExecutionPolicy::MultiKey, ArgumentKind::Keys, ReplyKind::Integer, ReplyMergePolicy::IntegerSum))
    } else if name == seq![69u8, 88, 73, 83, 84, 83] {
        // EXISTS
        Some(meta(CommandId::Exists, 1, None, false, ExecutionPolicy::MultiKey, ArgumentKind::Keys, ReplyKind::Integer, ReplyMergePolicy::IntegerSum))
    } else if name == seq![84u8, 84, 76] {
        // TTL
        Some(meta(CommandId::Ttl, 1, Some(1), false, ExecutionPolicy::SingleKey, ArgumentKind::SingleKey, ReplyKind::Integer, ReplyMergePolicy::NoMerge))
    } else {
        None
    }
}

/// The table entry for `name`, if it names a command.
pub fn lookup(name: &[u8]) -> (r: Option<CommandMeta>)
    ensures
        r == command_meta(name@),
{
    // PING
    let word: [u8; 4] = [80, 73, 78, 71];
    if bytes_eq(name, &word) {
        return Some(CommandMeta::new(CommandId::Ping, 0, Some(2), false, ExecutionPolicy::Local, ArgumentKind::NoKey, ReplyKind::OK, ReplyMergePolicy::NoMerge));
    }
    // GET
    let word: [u8; 3] = [71, 69, 84];
    if bytes_eq(name, &word) {
        return Some(CommandMeta::new(CommandId::Get, 1, Some(1), false, ExecutionPolicy::SingleKey, ArgumentKind::SingleKey, ReplyKind::BulkString, ReplyMergePolicy::NoMerge));
    }
    // SET
    let word: [u8; 3] = [83, 69, 84];
    if bytes_eq(name, &word) {
        return Some(CommandMeta::new(CommandId::SetKey, 2, Some(8), true, ExecutionPolicy::SingleKey, ArgumentKind::SingleKey, ReplyKind::OK, ReplyMergePolicy::NoMerge));
    }
    // APPEND
    let word: [u8; 6] = [65, 80, 80, 69, 78, 68];
    if bytes_eq(name, &word) {
        return Some(CommandMeta::new(CommandId::Append, 2, Some(2), true, ExecutionPolicy::SingleKey, ArgumentKind::SingleKey, ReplyKind::Integer, ReplyMergePolicy::NoMerge));
    }
    // MSET
    let word: [u8; 4] = [77, 83, 69, 84];
    if bytes_eq(name, &word) {
        return Some(CommandMeta::new(CommandId::Mset, 2, None, true, ExecutionPolicy::MultiKey, ArgumentKind::KeyValuePairs, ReplyKind::OK, ReplyMergePolicy::AllOk));
    }
    // MGET
    let word: [u8; 4] = [77, 71, 69, 84];
    if bytes_eq(name, &word) {
        return Some(CommandMeta::new(CommandId::Mget, 1, None, false, ExecutionPolicy::MultiKey, ArgumentKind::OrderedKeys, ReplyKind::Array, ReplyMergePolicy::OrderedArray));
    }
    // INCR
    let word: [u8; 4] = [73, 78, 67, 82];
    if bytes_eq(name, &word) {
        return Some(CommandMeta::new(CommandId::Incr, 1, Some(1), true, ExecutionPolicy::SingleKey, ArgumentKind::SingleKey, ReplyKind::Integer, ReplyMergePolicy::NoMerge));
    }
    // DECR
    let word: [u8; 4] = [68, 69, 67, 82];
    if bytes_eq(name, &word) {
        return Some(CommandMeta::new(CommandId::Decr, 1, Some(1), true, ExecutionPolicy::SingleKey, ArgumentKind::SingleKey, ReplyKind::Integer, ReplyMergePolicy::NoMerge));
    }
    // INCRBY
    let word: [u8; 6] = [73, 78, 67, 82, 66, 89];
    if bytes_eq(name, &word) {
        return Some(CommandMeta::new(CommandId::Incrby, 2, Some(2), true, ExecutionPolicy::SingleKey, ArgumentKind::SingleKey, ReplyKind::Integer, ReplyMergePolicy::NoMerge));
    }
    // DECRBY
    let word: [u8; 6] = [68, 69, 67, 82, 66, 89];
    if bytes_eq(name, &word) {
        return Some(CommandMeta::new(CommandId::Decrby, 2, Some(2), true, ExecutionPolicy::SingleKey, ArgumentKind::SingleKey, ReplyKind::Integer, ReplyMergePolicy::NoMerge));
    }
    // DEL
    let word: [u8; 3] = [68, 69, 76];
    if bytes_eq(name, &word) {
        return Some(CommandMeta::new(CommandId::Del, 1, None, true, ExecutionPolicy::MultiKey, ArgumentKind::Keys, ReplyKind::Integer, ReplyMergePolicy::IntegerSum));
    }
    // EXISTS
    let word: [u8; 6] = [69, 88, 73, 83, 84, 83];
    if bytes_eq(name, &word) {
        return Some(CommandMeta::new(CommandId::Exists, 1, None, false, ExecutionPolicy::MultiKey, ArgumentKind::Keys, ReplyKind::Integer, ReplyMergePolicy::IntegerSum));
    }
    // TTL
    let word: [u8; 3] = [84, 84, 76];
    if bytes_eq(name, &word) {
        return Some(CommandMeta::new(CommandId::Ttl, 1, Some(1), false, ExecutionPolicy::SingleKey, ArgumentKind::SingleKey, ReplyKind::Integer, ReplyMergePolicy::NoMerge));
    }
    None
}

} // verus!
