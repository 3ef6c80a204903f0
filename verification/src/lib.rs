//! An in-memory filesystem with an RPC wire protocol, specified and proved with Verus.

pub mod types;
pub mod storage;
pub mod path;
pub mod inode;
pub mod handle;
pub mod time;
pub mod fs_spec;
pub mod fs;
pub mod snapshot;
pub mod wire;
pub mod protocol;
pub mod codec;
pub mod vfs;
pub mod response_codec;
pub mod server;
pub mod hooks;
pub mod adapter;
pub mod vfs_state;
pub mod vfs_adapter;
pub mod rpc_client;
pub mod rpc_streams;
pub mod session;
pub mod sync;
pub mod sync_manager;
pub mod bench;
pub mod laws;
pub mod io_laws;
pub mod wire_laws;
pub mod server_laws;
