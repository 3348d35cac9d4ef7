//! Where a command of the single-key table runs.

use vstd::prelude::*;

use crate::execution::registry::{CommandId, lookup, table_entry};
use crate::protocol::command::{Args, Command, arg_items, args_slice};
use crate::protocol::reply::{CommandError, ErrorView, Reply, ReplyView};
use crate::runtime::resolver::{Shard, ShardResolver, owner};

verus! {

/// Where a command runs.
#[derive(Debug, Clone, Copy, PartialEq, Eq, Structural)]
pub enum Routing {
    /// On the shard that received it.
    Local,
    /// On the shard that owns its first argument.
    FirstKey,
    /// On every shard.
    Broadcast,
}

/// Where each command runs: PING here, GET, SET and TTL on the owner of
/// their key, DEL everywhere (its keys may belong to several shards).
pub open spec fn routing_of(id: CommandId) -> Routing {
    match id {
        CommandId::Ping => Routing::Local,
        CommandId::Get => Routing::FirstKey,
        CommandId::SetKey => Routing::FirstKey,
        CommandId::Ttl => Routing::FirstKey,
        CommandId::Del => Routing::Broadcast,
    }
}

pub fn get_routing_strategy(id: CommandId) -> (r: Routing)
    ensures
        r == routing_of(id),
{
    match id {
        CommandId::Ping => Routing::Local,
        CommandId::Get => Routing::FirstKey,
        CommandId::SetKey => Routing::FirstKey,
        CommandId::Ttl => Routing::FirstKey,
        CommandId::Del => Routing::Broadcast,
    }
}

/// What the single-key dispatcher does with a command.
pub enum Dispatch<'a, T> {
    /// Answer with this reply at once.
    Answer(Reply),
    /// Run the command on this worker.
    Execute(CommandId, Args),
    /// Send the command to this peer, which runs it and answers.
    Forward(&'a T, CommandId, Args),
}

/// What dispatching `c` from the worker that `resolver` describes does: an
/// unknown name is answered with an error; PING runs here; a command routed
/// by its first key runs on the owner of that key; a broadcast command is not
/// run and is answered with OK.
pub open spec fn dispatch_spec<'a, T>(resolver: ShardResolver<T>, c: crate::protocol::command::CommandView, r: Dispatch<'a, T>) -> bool {
    match table_entry(c.name) {
        None => r matches Dispatch::Answer(rep) && rep@ == ReplyView::Error(ErrorView::UnknownCommand),
        Some(m) => match routing_of(m.id) {
            Routing::Local => r matches Dispatch::Execute(id, a) && id == m.id && arg_items(a) == c.args,
            Routing::FirstKey => {
                let w = owner(c.args[0], resolver.peers_spec().len() as usize);
                if w == resolver.id_spec() {
                    r matches Dispatch::Execute(id, a) && id == m.id && arg_items(a) == c.args
                } else {
                    r matches Dispatch::Forward(p, id, a) && *p == resolver.peers_spec()[w as int]
                        && id == m.id && arg_items(a) == c.args
                }
            },
            Routing::Broadcast => r matches Dispatch::Answer(rep) && rep@ == ReplyView::OK,
        },
    }
}

/// Decides where `cmd` runs. A command routed by its first key needs that key
/// and at least one shard.
pub fn dispatch_route<'a, T>(resolver: &'a ShardResolver<T>, cmd: Command) -> (r: Dispatch<'a, T>)
    requires
        table_entry(cmd@.name) matches Some(m) && routing_of(m.id) == Routing::FirstKey ==> cmd@.args.len()
            > 0 && resolver.peers_spec().len() > 0,
    ensures
        dispatch_spec(*resolver, cmd@, r),
{
    let ghost c = cmd@;
    let meta = match lookup(cmd.name.as_slice()) {
        Some(m) => m,
        None => return Dispatch::Answer(Reply::Error(CommandError::UnknownCommand)),
    };
    let id = meta.id;
    let args = cmd.args;
    match get_routing_strategy(id) {
        Routing::Local => Dispatch::Execute(id, args),
        Routing::FirstKey => {
            let keys = args_slice(&args);
            match resolver.resolve(keys[0].as_slice()) {
                Shard::Local => Dispatch::Execute(id, args),
                Shard::Peer(p) => Dispatch::Forward(p, id, args),
            }
        },
        Routing::Broadcast => Dispatch::Answer(Reply::OK),
    }
}

} // verus!
