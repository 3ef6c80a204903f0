//! The client side of the RPC filesystem: translating guest open flags and
//! errors, pacing retries of busy opens, and keeping the table of guest
//! descriptors with the output streams still writing through them.

use std::collections::{HashMap, HashSet};
use vstd::prelude::*;
use crate::protocol::ErrorCode;
use crate::types::{FsError, O_CREAT, O_RDONLY, O_RDWR, O_TRUNC, O_WRONLY};

verus! {

broadcast use vstd::std_specs::hash::group_hash_axioms;

// ---------------------------------------------------------------------------
// Guest error codes and flags
// ---------------------------------------------------------------------------

/// The guest filesystem error codes this layer produces.
#[derive(Debug, Clone, Copy, PartialEq, Eq, Structural)]
pub enum WasiErrorCode {
    Access,
    BadDescriptor,
    Busy,
    Exist,
    Invalid,
    Io,
    IsDirectory,
    NoEntry,
    NotDirectory,
    NotEmpty,
    NotRecoverable,
    Unsupported,
}

/// The guest error code of a filesystem error.
pub open spec fn fs_error_to_wasi(err: FsError) -> WasiErrorCode {
    match err {
        FsError::NotFound => WasiErrorCode::NoEntry,
        FsError::NotADirectory => WasiErrorCode::NotDirectory,
        FsError::IsADirectory => WasiErrorCode::IsDirectory,
        FsError::InvalidArgument => WasiErrorCode::Invalid,
        FsError::BadFileDescriptor => WasiErrorCode::BadDescriptor,
        FsError::PermissionDenied => WasiErrorCode::Access,
        FsError::AlreadyExists => WasiErrorCode::Exist,
        FsError::NotEmpty => WasiErrorCode::NotEmpty,
    }
}

/// The guest error code of a filesystem error.
pub fn to_error_code(err: FsError) -> (r: WasiErrorCode)
    ensures
        r == fs_error_to_wasi(err),
{
    match err {
        FsError::NotFound => WasiErrorCode::NoEntry,
        FsError::NotADirectory => WasiErrorCode::NotDirectory,
        FsError::IsADirectory => WasiErrorCode::IsDirectory,
        FsError::InvalidArgument => WasiErrorCode::Invalid,
        FsError::BadFileDescriptor => WasiErrorCode::BadDescriptor,
        FsError::PermissionDenied => WasiErrorCode::Access,
        FsError::AlreadyExists => WasiErrorCode::Exist,
        FsError::NotEmpty => WasiErrorCode::NotEmpty,
    }
}

/// The guest error code of a protocol error code: a lease held elsewhere is
/// `Busy`, a conflict is not recoverable, codes without a filesystem
/// meaning are I/O errors.
pub open spec fn rpc_error_wasi(code: ErrorCode) -> WasiErrorCode {
    match code {
        ErrorCode::NotFound => WasiErrorCode::NoEntry,
        ErrorCode::NotADirectory => WasiErrorCode::NotDirectory,
        ErrorCode::IsADirectory => WasiErrorCode::IsDirectory,
        ErrorCode::InvalidArgument => WasiErrorCode::Invalid,
        ErrorCode::BadFileDescriptor => WasiErrorCode::BadDescriptor,
        ErrorCode::PermissionDenied => WasiErrorCode::Access,
        ErrorCode::AlreadyExists => WasiErrorCode::Exist,
        ErrorCode::NotEmpty => WasiErrorCode::NotEmpty,
        ErrorCode::Busy => WasiErrorCode::Busy,
        ErrorCode::Conflict => WasiErrorCode::NotRecoverable,
        _ => WasiErrorCode::Io,
    }
}

/// The guest error code of a protocol error code.
pub fn rpc_error_to_wasi(code: ErrorCode) -> (r: WasiErrorCode)
    ensures
        r == rpc_error_wasi(code),
{
    match code {
        ErrorCode::NotFound => WasiErrorCode::NoEntry,
        ErrorCode::NotADirectory => WasiErrorCode::NotDirectory,
        ErrorCode::IsADirectory => WasiErrorCode::IsDirectory,
        ErrorCode::InvalidArgument => WasiErrorCode::Invalid,
        ErrorCode::BadFileDescriptor => WasiErrorCode::BadDescriptor,
        ErrorCode::PermissionDenied => WasiErrorCode::Access,
        ErrorCode::AlreadyExists => WasiErrorCode::Exist,
        ErrorCode::NotEmpty => WasiErrorCode::NotEmpty,
        ErrorCode::Busy => WasiErrorCode::Busy,
        ErrorCode::Conflict => WasiErrorCode::NotRecoverable,
        _ => WasiErrorCode::Io,
    }
}

/// The open flags of a guest open: read and write access become the access
/// mode, create and truncate their flags.
pub open spec fn guest_open_flags(read: bool, write: bool, create: bool, truncate: bool) -> u32 {
    let mode = if read && write {
        O_RDWR
    } else if write {
        O_WRONLY
    } else {
        O_RDONLY
    };
    let c = if create {
        O_CREAT
    } else {
        0
    };
    let t = if truncate {
        O_TRUNC
    } else {
        0
    };
    (mode + c + t) as u32
}

/// The open flags of a guest open.
pub fn convert_flags(read: bool, write: bool, create: bool, truncate: bool) -> (flags: u32)
    ensures
        flags == guest_open_flags(read, write, create, truncate),
{
    let mut flags: u32 = if read && write {
        O_RDWR
    } else if write {
        O_WRONLY
    } else {
        O_RDONLY
    };
    if create {
        flags = flags + O_CREAT;
    }
    if truncate {
        flags = flags + O_TRUNC;
    }
    flags
}

/// Kind of an entry as the guest sees it.
#[derive(Debug, Clone, Copy, PartialEq, Eq, Structural)]
pub enum DescriptorType {
    Directory,
    RegularFile,
}

/// What a guest learns from a stat: kind, link count, size and the times,
/// in seconds, where they are known.
#[derive(Debug, Clone, Copy, PartialEq, Eq, Structural)]
pub struct DescriptorStat {
    pub type_: DescriptorType,
    pub link_count: u64,
    pub size: u64,
    pub data_access_timestamp: Option<u64>,
    pub data_modification_timestamp: Option<u64>,
    pub status_change_timestamp: Option<u64>,
}

/// The stat of an entry known only by kind and size.
pub fn make_descriptor_stat(is_dir: bool, size: u64) -> (st: DescriptorStat)
    ensures
        st == (DescriptorStat {
            type_: if is_dir {
                DescriptorType::Directory
            } else {
                DescriptorType::RegularFile
            },
            link_count: 1,
            size,
            data_access_timestamp: None,
            data_modification_timestamp: None,
            status_change_timestamp: None,
        }),
{
    DescriptorStat {
        type_: if is_dir {
            DescriptorType::Directory
        } else {
            DescriptorType::RegularFile
        },
        link_count: 1,
        size,
        data_access_timestamp: None,
        data_modification_timestamp: None,
        status_change_timestamp: None,
    }
}

/// The stat of an entry from its filesystem metadata: access time is the
/// creation time, modification and status change the modification time.
pub fn make_descriptor_stat_with_times(type_: DescriptorType, metadata: &crate::inode::Metadata) -> (st:
    DescriptorStat)
    ensures
        st == (DescriptorStat {
            type_,
            link_count: 1,
            size: metadata.size,
            data_access_timestamp: Some(metadata.created),
            data_modification_timestamp: Some(metadata.modified),
            status_change_timestamp: Some(metadata.modified),
        }),
{
    DescriptorStat {
        type_,
        link_count: 1,
        size: metadata.size,
        data_access_timestamp: Some(metadata.created),
        data_modification_timestamp: Some(metadata.modified),
        status_change_timestamp: Some(metadata.modified),
    }
}

/// The stat a wasmtime host reports for filesystem metadata: the kind from
/// the metadata, access and modification at the modification time, status
/// change at the creation time.
pub fn convert_metadata_to_stat(meta: &crate::inode::Metadata) -> (st: DescriptorStat)
    ensures
        st == (DescriptorStat {
            type_: if meta.is_dir {
                DescriptorType::Directory
            } else {
                DescriptorType::RegularFile
            },
            link_count: 1,
            size: meta.size,
            data_access_timestamp: Some(meta.modified),
            data_modification_timestamp: Some(meta.modified),
            status_change_timestamp: Some(meta.created),
        }),
{
    DescriptorStat {
        type_: if meta.is_dir {
            DescriptorType::Directory
        } else {
            DescriptorType::RegularFile
        },
        link_count: 1,
        size: meta.size,
        data_access_timestamp: Some(meta.modified),
        data_modification_timestamp: Some(meta.modified),
        status_change_timestamp: Some(meta.created),
    }
}

// ---------------------------------------------------------------------------
// Retrying busy opens
// ---------------------------------------------------------------------------

/// Longest wait between two retries, in milliseconds.
pub const MAX_BACKOFF_MS: u64 = 500;

/// First wait, in milliseconds.
pub const FIRST_BACKOFF_MS: u64 = 20;

/// The waits still to come when `spent` of `budget` milliseconds were
/// waited and the next wait would be `step`: each the step, cut to what is
/// left of the budget, the step doubling up to the maximum.
pub open spec fn backoff_plan(budget: nat, spent: nat, step: nat) -> Seq<nat>
    decreases budget - spent,
{
    if spent >= budget || step == 0 {
        seq![]
    } else {
        let d = if step <= budget - spent {
            step
        } else {
            (budget - spent) as nat
        };
        let next = if step * 2 <= MAX_BACKOFF_MS {
            step * 2
        } else {
            MAX_BACKOFF_MS as nat
        };
        seq![d] + backoff_plan(budget, spent + d, next)
    }
}

/// The sum of a sequence of waits.
pub open spec fn total(s: Seq<nat>) -> nat
    decreases s.len(),
{
    if s.len() == 0 {
        0
    } else {
        s[0] + total(s.drop_first())
    }
}

/// The waits between retries of an open the server answered with `Busy`:
/// starting at 20 ms, doubling, at most 500 ms each, adding up to
/// `budget_ms`.
pub fn busy_backoff_schedule(budget_ms: u64) -> (out: Vec<u64>)
    ensures
        out@.map_values(|d: u64| d as nat) == backoff_plan(budget_ms as nat, 0, FIRST_BACKOFF_MS as nat),
{
    let mut out: Vec<u64> = Vec::new();
    let mut spent: u64 = 0;
    let mut step: u64 = FIRST_BACKOFF_MS;
    while spent < budget_ms
        invariant
            spent <= budget_ms,
            1 <= step <= MAX_BACKOFF_MS,
            backoff_plan(budget_ms as nat, 0, FIRST_BACKOFF_MS as nat) == out@.map_values(
                |d: u64| d as nat,
            ) + backoff_plan(budget_ms as nat, spent as nat, step as nat),
        decreases budget_ms - spent,
    {
        let d = if step <= budget_ms - spent {
            step
        } else {
            budget_ms - spent
        };
        let ghost before = out@;
        out.push(d);
        let next = if step * 2 <= MAX_BACKOFF_MS {
            step * 2
        } else {
            MAX_BACKOFF_MS
        };
        proof {
            assert(out@.map_values(|x: u64| x as nat) =~= before.map_values(|x: u64| x as nat).push(
                d as nat,
            ));
            assert(backoff_plan(budget_ms as nat, spent as nat, step as nat) == seq![d as nat]
                + backoff_plan(budget_ms as nat, (spent + d) as nat, next as nat));
            assert(before.map_values(|x: u64| x as nat) + (seq![d as nat] + backoff_plan(
                budget_ms as nat,
                (spent + d) as nat,
                next as nat,
            )) =~= out@.map_values(|x: u64| x as nat) + backoff_plan(
                budget_ms as nat,
                (spent + d) as nat,
                next as nat,
            ));
        }
        spent = spent + d;
        step = next;
    }
    assert(out@.map_values(|d: u64| d as nat) + backoff_plan(budget_ms as nat, spent as nat, step as nat)
        =~= out@.map_values(|d: u64| d as nat));
    out
}

/// The waits of a plan add up to what was left of the budget, none is
/// longer than the maximum nor than the step it started from, and the first
/// is the step when the budget allows it.
pub proof fn lemma_backoff_plan(budget: nat, spent: nat, step: nat)
    requires
        spent <= budget,
        1 <= step <= MAX_BACKOFF_MS,
    ensures
        total(backoff_plan(budget, spent, step)) == budget - spent,
        forall|i: int|
            0 <= i < backoff_plan(budget, spent, step).len() ==> 1 <= #[trigger] backoff_plan(
                budget,
                spent,
                step,
            )[i] <= MAX_BACKOFF_MS,
        spent + step <= budget ==> backoff_plan(budget, spent, step).len() > 0 && backoff_plan(
            budget,
            spent,
            step,
        )[0] == step,
        (backoff_plan(budget, spent, step).len() == 0) == (spent == budget),
    decreases budget - spent,
{
    if spent < budget {
        let d = if step <= budget - spent {
            step
        } else {
            (budget - spent) as nat
        };
        let next = if step * 2 <= MAX_BACKOFF_MS {
            step * 2
        } else {
            MAX_BACKOFF_MS as nat
        };
        lemma_backoff_plan(budget, spent + d, next);
        let p = backoff_plan(budget, spent, step);
        assert(p.drop_first() =~= backoff_plan(budget, spent + d, next));
        assert forall|i: int| 0 <= i < p.len() implies 1 <= #[trigger] p[i] <= MAX_BACKOFF_MS by {
            if i > 0 {
                assert(p[i] == backoff_plan(budget, spent + d, next)[i - 1]);
            }
        }
    }
}

// ---------------------------------------------------------------------------
// Guest descriptors
// ---------------------------------------------------------------------------

/// The table of guest descriptors as mathematical values.
pub struct RpcStateView {
    /// Server descriptor of each guest descriptor.
    pub to_fd: Map<u32, u32>,
    /// Guest descriptor of each server descriptor.
    pub to_desc: Map<u32, u32>,
    /// Open flags of each guest descriptor.
    pub flags: Map<u32, u32>,
    /// Output streams still open on each guest descriptor.
    pub live: Map<u32, usize>,
    /// Guest descriptors dropped while streams were still open on them.
    pub pending: Set<u32>,
    /// The next guest descriptor to hand out.
    pub next: u32,
}

/// The number of output streams open on `d`.
pub open spec fn live_count(s: RpcStateView, d: u32) -> usize {
    if s.live.contains_key(d) {
        s.live[d]
    } else {
        0
    }
}

/// The table after forgetting guest descriptor `d`.
pub open spec fn released(s: RpcStateView, d: u32) -> RpcStateView {
    RpcStateView {
        to_fd: s.to_fd.remove(d),
        to_desc: if s.to_fd.contains_key(d) {
            s.to_desc.remove(s.to_fd[d])
        } else {
            s.to_desc
        },
        flags: s.flags.remove(d),
        live: s.live.remove(d),
        pending: s.pending.remove(d),
        ..s
    }
}

/// The result of forgetting `d`: its server descriptor, if it had one.
pub open spec fn release_result(s: RpcStateView, d: u32) -> Option<u32> {
    if s.to_fd.contains_key(d) {
        Some(s.to_fd[d])
    } else {
        None
    }
}

/// The table and the server descriptor to close after an output stream
/// on `d` is gone: one stream fewer, and when `d` was dropped and this was
/// its last stream, `d` is forgotten and its descriptor closed.
pub open spec fn after_stream_closed(s: RpcStateView, d: u32) -> (RpcStateView, Option<u32>) {
    let n = live_count(s, d);
    let s1 = if n > 0 {
        RpcStateView { live: s.live.insert(d, (n - 1) as usize), ..s }
    } else {
        s
    };
    if live_count(s1, d) == 0 && s1.pending.contains(d) {
        (released(s1, d), release_result(s1, d))
    } else {
        (s1, None)
    }
}

/// The table and the server descriptor to close after guest descriptor
/// `d` is dropped: with streams still open on it the close waits for them,
/// otherwise `d` is forgotten and its descriptor closed.
pub open spec fn after_descriptor_dropped(s: RpcStateView, d: u32) -> (RpcStateView, Option<u32>) {
    if live_count(s, d) > 0 {
        (RpcStateView { pending: s.pending.insert(d), ..s }, None)
    } else {
        (released(s, d), release_result(s, d))
    }
}

/// The guest descriptors of an RPC client and the streams open on them.
pub struct RpcState {
    descriptor_to_fd: HashMap<u32, u32>,
    fd_to_descriptor: HashMap<u32, u32>,
    descriptor_flags: HashMap<u32, u32>,
    live_streams: HashMap<u32, usize>,
    close_pending: HashSet<u32>,
    next_descriptor: u32,
}

impl RpcState {
    /// The table as mathematical values.
    pub closed spec fn view(&self) -> RpcStateView {
        RpcStateView {
            to_fd: self.descriptor_to_fd@,
            to_desc: self.fd_to_descriptor@,
            flags: self.descriptor_flags@,
            live: self.live_streams@,
            pending: self.close_pending@,
            next: self.next_descriptor,
        }
    }

    /// A table holding the root directory as guest descriptor 0, server
    /// descriptor 0.
    pub fn new() -> (s: Self)
        ensures
            s.view().to_fd == map![0u32 => 0u32],
            s.view().to_desc == map![0u32 => 0u32],
            s.view().flags == Map::<u32, u32>::empty(),
            s.view().live == Map::<u32, usize>::empty(),
            s.view().pending == Set::<u32>::empty(),
            s.view().next == 1,
    {
        let mut s = RpcState {
            descriptor_to_fd: HashMap::new(),
            fd_to_descriptor: HashMap::new(),
            descriptor_flags: HashMap::new(),
            live_streams: HashMap::new(),
            close_pending: HashSet::new(),
            next_descriptor: 1,
        };
        s.descriptor_to_fd.insert(0, 0);
        s.fd_to_descriptor.insert(0, 0);
        proof {
            assert(s.view().to_fd =~= map![0u32 => 0u32]);
            assert(s.view().to_desc =~= map![0u32 => 0u32]);
        }
        s
    }

    /// Hand out the next guest descriptor for server descriptor `server_fd`
    /// opened with `flags`.
    pub fn allocate_descriptor(&mut self, server_fd: u32, flags: u32) -> (d: u32)
        requires
            old(self).view().next < u32::MAX,
        ensures
            d == old(self).view().next,
            final(self).view() == (RpcStateView {
                to_fd: old(self).view().to_fd.insert(d, server_fd),
                to_desc: old(self).view().to_desc.insert(server_fd, d),
                flags: old(self).view().flags.insert(d, flags),
                next: (d + 1) as u32,
                ..old(self).view()
            }),
    {
        let d = self.next_descriptor;
        self.next_descriptor = d + 1;
        self.descriptor_to_fd.insert(d, server_fd);
        self.fd_to_descriptor.insert(server_fd, d);
        self.descriptor_flags.insert(d, flags);
        d
    }

    /// Forget guest descriptor `d`; returns its server descriptor for the
    /// close call.
    pub fn release(&mut self, d: u32) -> (r: Option<u32>)
        ensures
            r == release_result(old(self).view(), d),
            final(self).view() == released(old(self).view(), d),
    {
        let ghost s0 = self.view();
        let fd = match self.descriptor_to_fd.remove(&d) {
            Some(fd) => fd,
            None => {
                self.descriptor_flags.remove(&d);
                self.live_streams.remove(&d);
                self.close_pending.remove(&d);
                proof {
                    assert(self.view().to_fd =~= s0.to_fd.remove(d));
                }
                return None;
            },
        };
        self.fd_to_descriptor.remove(&fd);
        self.descriptor_flags.remove(&d);
        self.live_streams.remove(&d);
        self.close_pending.remove(&d);
        Some(fd)
    }

    /// An output stream was opened on `d`.
    pub fn stream_opened(&mut self, d: u32)
        requires
            live_count(old(self).view(), d) < usize::MAX,
        ensures
            final(self).view() == (RpcStateView {
                live: old(self).view().live.insert(d, (live_count(old(self).view(), d) + 1) as usize),
                ..old(self).view()
            }),
    {
        let n = self.live_stream_count(d);
        self.live_streams.insert(d, n + 1);
    }

    /// The number of output streams open on `d`.
    pub fn live_stream_count(&self, d: u32) -> (n: usize)
        ensures
            n == live_count(self.view(), d),
    {
        match self.live_streams.get(&d) {
            Some(n) => *n,
            None => 0,
        }
    }

    /// An output stream on `d` finished flushing and is gone. Returns the
    /// server descriptor to close when `d` was already dropped and this was
    /// its last stream.
    pub fn stream_closed(&mut self, d: u32) -> (r: Option<u32>)
        ensures
            (final(self).view(), r) == after_stream_closed(old(self).view(), d),
    {
        let n = self.live_stream_count(d);
        if n > 0 {
            self.live_streams.insert(d, n - 1);
        }
        if self.live_stream_count(d) == 0 && self.close_pending.contains(&d) {
            return self.release(d);
        }
        None
    }

    /// Guest descriptor `d` was dropped. Returns the server descriptor to
    /// close now, or `None` when streams on it still have to flush; then
    /// the close waits for the last of them.
    pub fn descriptor_dropped(&mut self, d: u32) -> (r: Option<u32>)
        ensures
            (final(self).view(), r) == after_descriptor_dropped(old(self).view(), d),
    {
        if self.live_stream_count(d) > 0 {
            self.close_pending.insert(d);
            return None;
        }
        self.release(d)
    }

    /// The server descriptor of guest descriptor `d`.
    pub fn get_server_fd(&self, d: u32) -> (r: Result<u32, WasiErrorCode>)
        ensures
            r == match release_result(self.view(), d) {
                Some(fd) => Ok::<u32, WasiErrorCode>(fd),
                None => Err(WasiErrorCode::BadDescriptor),
            },
    {
        match self.descriptor_to_fd.get(&d) {
            Some(fd) => Ok(*fd),
            None => Err(WasiErrorCode::BadDescriptor),
        }
    }

    /// The open flags of guest descriptor `d`, when known.
    pub fn flags_of(&self, d: u32) -> (r: Option<u32>)
        ensures
            r == (if self.view().flags.contains_key(d) {
                Some(self.view().flags[d])
            } else {
                None
            }),
    {
        match self.descriptor_flags.get(&d) {
            Some(f) => Some(*f),
            None => None,
        }
    }
}

} // verus!
