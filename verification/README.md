# voidscale

A shard-per-core key-value store that speaks RESP2. Each worker owns one
shard of the keyspace; commands for keys that another shard owns travel to
it over channels.

`src/` is the library, verified with Verus:

- `protocol/`: commands, replies and errors; the RESP2 decoder (stated as a
  grammar over the whole byte stream, so it answers the same however the
  network splits the stream) and encoder.
- `storage/`: the keyspace of one shard, records with expiry, and the key
  and string operations; laws relating them (a read gives back a write, an
  expired key reads as absent, ...).
- `commands/`: the command table, SET's options and the handlers, each
  stated as the reply it gives and the keyspace it leaves; command-level laws.
- `engine/`: the shard engine, and the coordinator's decisions: which shard
  owns a key (FNV-1a), how a multi-key command is split, how the replies are
  merged; laws that a command split among shards answers as one shard would.
- `network/`, `runtime/`, `execution/`: the decisions around connections,
  workers and an earlier single-key execution path.

`app/` is the server around it: threads pinned to cores, Tokio runtimes,
sockets and channels.
