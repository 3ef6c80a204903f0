# monaka_vfs

An in-memory filesystem shared by the clients of an RPC server, written in
Verus: each operation carries a contract over a mathematical model of the
filesystem, and Verus proves the code against it.

## Layout

- `src/` — the verified library
  - `types`, `storage`, `inode`, `handle`, `time`, `path`: descriptors,
    sparse block storage, inodes and path handling
  - `fs_spec`: the model (`FsView`) and one spec function per operation
  - `fs`: the filesystem; every operation is proved to act as its model
  - `snapshot`: the filesystem as plain data and back
  - `wire`, `codec`, `response_codec`, `vfs`, `protocol`: the RPC messages,
    their byte encoding and their framing on a stream, with round-trip
    proofs
  - `server`: request handling, descriptor and session bookkeeping
  - `session`: session ids (random UUIDs in simple form)
  - `adapter`, `hooks`, `vfs_state`, `vfs_adapter`: the filesystem as a
    guest sees it in process (guest descriptors, error codes, flags, stats,
    file streams)
  - `rpc_client`, `rpc_streams`: the guest side over RPC (what each reply
    gives, retries of busy opens, read-ahead and collected writes)
  - `sync`, `sync_manager`: the pieces of synchronisation with an object
    store that do not talk to it (queues, metadata cache, keys, plans)
  - `bench`: deterministic data for measurements
  - `laws`: properties that span operations, proved
- `tests/` — tests run against the compiled library
- `app/` — the TCP server program around the library, and the JSON form of
  a snapshot

The server reads and writes messages as a 4-byte big-endian length followed
by the message; `VFS_SNAPSHOT` may name a JSON snapshot to start from.
