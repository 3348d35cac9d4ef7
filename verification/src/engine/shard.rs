//! The engine of one shard: its storage and its clock.

use vstd::prelude::*;

use crate::commands::exec::arg_views;
use crate::commands::exec::key::{del_reply, exec_del, exec_exists, exec_ttl, exists_reply, ttl_reply};
use crate::commands::exec::server::{exec_ping, ping_reply};
use crate::commands::exec::string::{
    append_reply, exec_append, exec_get, exec_mget, exec_mset, exec_set, exec_str_decr,
    exec_str_decr_by, exec_str_incr, exec_str_incr_by, get_reply, incr_by_reply, incr_reply,
    mget_reply, mset_reply, set_reply,
};
use crate::commands::registry::{CommandId, CommandMeta};
use crate::protocol::command::{Args, arg_items, args_slice};
use crate::protocol::reply::{Reply, ReplyView};
use crate::storage::StorageEngine;
use crate::storage::record::RecordView;

verus! {

#[verifier::external_type_specification]
#[verifier::external_body]
pub struct ExSystemTime(std::time::SystemTime);

/// `SystemTime::now()`: what the system clock reads. The clock may read
/// anything, so nothing is promised of it.
#[verifier::external_body]
fn system_now() -> (r: std::time::SystemTime) {
    std::time::SystemTime::now()
}

/// `t.duration_since(UNIX_EPOCH)`: how long after the Unix epoch `t` lies,
/// `None` where std answers with an error (`t` before the epoch). Nothing is
/// promised of the duration, which comes from the clock.
#[verifier::external_body]
fn since_epoch(t: &std::time::SystemTime) -> (r: Option<std::time::Duration>) {
    match t.duration_since(std::time::UNIX_EPOCH) {
        Ok(d) => Some(d),
        Err(_) => None,
    }
}

/// `d.as_millis()`: the whole milliseconds in `d`. A `Duration` is opaque
/// here, so nothing is promised of the number.
#[verifier::external_body]
fn duration_millis(d: &std::time::Duration) -> (r: u128) {
    d.as_millis()
}

/// Milliseconds since the Unix epoch by the system clock, cut to 64 bits as
/// `as u64` cuts. A clock set before the epoch reads as 0, so that reading the
/// clock never panics.
fn clock_millis() -> (r: u64) {
    let now = system_now();
    match since_epoch(&now) {
        Some(d) => {
            let ms = duration_millis(&d);
            #[verifier::truncate]
            (ms as u64)
        },
        None => 0,
    }
}

/// What the command `id` with `args` replies at `now`, and the keyspace it
/// leaves.
pub open spec fn command_spec(
    id: CommandId,
    m: Map<Seq<u8>, RecordView>,
    args: Seq<Seq<u8>>,
    now: u64,
) -> (ReplyView, Map<Seq<u8>, RecordView>) {
    match id {
        CommandId::Ping => (ping_reply(args), m),
        CommandId::Get => get_reply(m, args, now),
        CommandId::SetKey => set_reply(m, args, now),
        CommandId::Append => append_reply(m, args, now),
        CommandId::Mset => mset_reply(m, args, now),
        CommandId::Mget => mget_reply(m, args, now),
        CommandId::Del => del_reply(m, args, now),
        CommandId::Ttl => ttl_reply(m, args, now),
        CommandId::Exists => exists_reply(m, args, now),
        CommandId::Incr => incr_reply(m, args, 1, now),
        CommandId::Decr => incr_reply(m, args, -1i64, now),
        CommandId::Incrby => incr_by_reply(m, args, 1, now),
        CommandId::Decrby => incr_by_reply(m, args, -1i64, now),
    }
}

/// The storage of a shard and the time at which its current command runs.
pub struct ShardEngine {
    storage: StorageEngine,
    current_time_ms: u64,
}

impl ShardEngine {
    /// The keyspace.
    pub closed spec fn store(&self) -> Map<Seq<u8>, RecordView> {
        self.storage@
    }

    /// The time of the current command, in milliseconds.
    pub closed spec fn time(&self) -> u64 {
        self.current_time_ms
    }

    pub fn new() -> (r: Self)
        ensures
            r.store() == Map::<Seq<u8>, RecordView>::empty(),
    {
        let storage = StorageEngine::new();
        let current_time_ms = clock_millis();
        ShardEngine { storage, current_time_ms }
    }

    /// A shard with the given storage and time.
    pub fn with_time(storage: StorageEngine, now: u64) -> (r: Self)
        ensures
            r.store() == storage@,
            r.time() == now,
    {
        ShardEngine { storage, current_time_ms: now }
    }

    /// The storage, to read or change.
    pub fn storage(&mut self) -> (r: &mut StorageEngine)
        ensures
            (*r)@ == old(self).store(),
            final(self).store() == (*final(r))@,
            final(self).time() == old(self).time(),
    {
        &mut self.storage
    }

    /// Reads the clock and makes it the time of the current command.
    pub fn update_time(&mut self) -> (r: u64)
        ensures
            final(self).store() == old(self).store(),
            final(self).time() == r,
    {
        let now = clock_millis();
        self.current_time_ms = now;
        self.current_time_ms
    }

    /// Makes `now` the time at which the next commands run, as `update_time`
    /// does with the clock's reading.
    pub fn set_time(&mut self, now: u64)
        ensures
            final(self).store() == old(self).store(),
            final(self).time() == now,
    {
        self.current_time_ms = now;
    }

    pub fn get_time(&self) -> (r: u64)
        ensures
            r == self.time(),
    {
        self.current_time_ms
    }

    /// Runs the command `id` with `args` at the shard's current time.
    pub fn run(&mut self, id: CommandId, args: &[Vec<u8>]) -> (r: Reply)
        ensures
            (r@, final(self).store()) == command_spec(id, old(self).store(), arg_views(args@), old(self).time()),
            final(self).time() == old(self).time(),
    {
        match id {
            CommandId::Ping => exec_ping(self, args),
            CommandId::Get => exec_get(self, args),
            CommandId::SetKey => exec_set(self, args),
            CommandId::Append => exec_append(self, args),
            CommandId::Mset => exec_mset(self, args),
            CommandId::Mget => exec_mget(self, args),
            CommandId::Del => exec_del(self, args),
            CommandId::Ttl => exec_ttl(self, args),
            CommandId::Exists => exec_exists(self, args),
            CommandId::Incr => exec_str_incr(self, args),
            CommandId::Decr => exec_str_decr(self, args),
            CommandId::Incrby => exec_str_incr_by(self, args),
            CommandId::Decrby => exec_str_decr_by(self, args),
        }
    }

    /// Reads the clock, then runs the command at that time.
    pub fn execute(&mut self, meta: &CommandMeta, args: Args) -> (r: Reply)
        ensures
            (r@, final(self).store()) == command_spec(meta.id, old(self).store(), arg_items(args), final(self).time()),
    {
        self.update_time();
        let list = args_slice(&args);
        assert(arg_views(list@) =~= arg_items(args));
        self.run(meta.id, list)
    }
}

} // verus!
