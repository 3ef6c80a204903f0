//! The request-handling logic of the RPC server: one filesystem shared by
//! all clients, and the bookkeeping of which descriptor was opened where,
//! with which flags and by which session.

use std::collections::{HashMap, HashSet};
use vstd::prelude::*;
use crate::fs::Fs;
use crate::fs_spec::FsView;
use crate::time::{ticked_by, ticked_if, MonotonicCounter, TimeProvider};
use crate::types::{FsError, O_RDONLY};
use crate::protocol::{
    opt_string_view, negotiate_version, negotiated, ErrorCode, FileMetadata, Request, RequestV,
    Response, ResponseV, DirEntry, PROTOCOL_VERSION, dir_entries_view,
};
use crate::inode::{names_sorted, Metadata};
use crate::path::{first_non_slash, last_non_slash, str_chars, string_from_chars,
    trim_leading_slashes, trim_trailing_slashes};
use crate::fs::{listing_matches, listing_names};
use crate::types::InodeId;

verus! {

broadcast use vstd::std_specs::hash::group_hash_axioms;

/// Whether open flags ask for write access.
pub open spec fn write_access(flags: u32) -> bool {
    flags & 3 != O_RDONLY
}

/// Whether open flags ask for write access.
pub fn is_write_access(flags: u32) -> (r: bool)
    ensures
        r == write_access(flags),
{
    flags & 0x3 != O_RDONLY
}

/// The descriptors one session opened.
pub struct SessionFds {
    pub id: String,
    pub fds: Vec<u32>,
}

/// The sessions known in a list of session records.
pub open spec fn session_ids(v: Seq<SessionFds>) -> Set<Seq<char>> {
    Set::new(|k: Seq<char>| exists|i: int| 0 <= i < v.len() && (#[trigger] v[i]).id@ == k)
}

/// The (session, descriptor) pairs recorded in a list of session records.
pub open spec fn session_pairs(v: Seq<SessionFds>) -> Set<(Seq<char>, u32)> {
    Set::new(
        |p: (Seq<char>, u32)|
            exists|i: int| 0 <= i < v.len() && (#[trigger] v[i]).id@ == p.0 && v[i].fds@.contains(p.1),
    )
}

/// No session is recorded twice.
pub open spec fn sessions_distinct(v: Seq<SessionFds>) -> bool {
    forall|i: int, j: int| 0 <= i < v.len() && 0 <= j < v.len() && i != j ==> (#[trigger] v[i]).id@ != (#[trigger] v[j]).id@
}

/// The state of the server as mathematical values.
pub struct ServerView {
    /// The filesystem.
    pub fs: FsView,
    /// The path each descriptor was opened with, where it is known.
    pub paths: Map<u32, Seq<char>>,
    /// The open flags of each descriptor the server handed out.
    pub flags: Map<u32, u32>,
    /// The sessions that opened descriptors.
    pub sessions: Set<Seq<char>>,
    /// Which session opened which descriptor.
    pub session_fds: Set<(Seq<char>, u32)>,
    /// Descriptors already refreshed from remote storage.
    pub refreshed: Set<u32>,
}

/// The state with another filesystem.
pub open spec fn with_fs(s: ServerView, f: FsView) -> ServerView {
    ServerView { fs: f, ..s }
}

/// The state after recording that `fd` was opened with `flags`, at `path`
/// when it is known, by session `sid` when there is one.
pub open spec fn registered(
    s: ServerView,
    fd: u32,
    path: Option<Seq<char>>,
    flags: u32,
    sid: Option<Seq<char>>,
) -> ServerView {
    ServerView {
        paths: match path {
            Some(p) => s.paths.insert(fd, p),
            None => s.paths,
        },
        flags: s.flags.insert(fd, flags),
        sessions: match sid {
            Some(x) => s.sessions.insert(x),
            None => s.sessions,
        },
        session_fds: match sid {
            Some(x) => s.session_fds.insert((x, fd)),
            None => s.session_fds,
        },
        ..s
    }
}

/// The pairs that do not name descriptor `fd`.
pub open spec fn pairs_without(ps: Set<(Seq<char>, u32)>, fd: u32) -> Set<(Seq<char>, u32)> {
    ps.filter(|p: (Seq<char>, u32)| p.1 != fd)
}

/// The state after forgetting `fd` everywhere.
pub open spec fn unregistered(s: ServerView, fd: u32) -> ServerView {
    ServerView {
        paths: s.paths.remove(fd),
        flags: s.flags.remove(fd),
        refreshed: s.refreshed.remove(fd),
        session_fds: pairs_without(s.session_fds, fd),
        ..s
    }
}

/// Shared state of the server: the filesystem and the records of open
/// descriptors.
pub struct ServerContext {
    fs: Fs<MonotonicCounter>,
    fd_path_map: HashMap<u32, String>,
    fd_flags_map: HashMap<u32, u32>,
    session_fds: Vec<SessionFds>,
    s3_refreshed_fds: HashSet<u32>,
}

impl ServerContext {
    /// The counter the filesystem takes its timestamps from.
    pub closed spec fn clock(&self) -> MonotonicCounter {
        self.fs.clock()
    }

    /// The state as mathematical values.
    pub closed spec fn view(&self) -> ServerView {
        ServerView {
            fs: self.fs@,
            paths: self.fd_path_map@.map_values(|p: String| p@),
            flags: self.fd_flags_map@,
            sessions: session_ids(self.session_fds@),
            session_fds: session_pairs(self.session_fds@),
            refreshed: self.s3_refreshed_fds@,
        }
    }

    /// The state is consistent: the filesystem is well formed and no
    /// session is recorded twice.
    pub closed spec fn wf(&self) -> bool {
        &&& self.fs@.wf()
        &&& sessions_distinct(self.session_fds@)
    }

    /// Record that `fd` was opened with `flags`, at `path` when known, by
    /// session `sid` when there is one.
    fn register_fd(&mut self, fd: u32, path: Option<String>, flags: u32, sid: &Option<String>)
        requires
            old(self).wf(),
        ensures
            final(self).wf(),
            final(self).view() == registered(
                old(self).view(),
                fd,
                opt_string_view(path),
                flags,
                opt_string_view(*sid),
            ),
            final(self).clock() == old(self).clock(),
    {
        let ghost s0 = self.view();
        let ghost pv = opt_string_view(path);
        let ghost sv = opt_string_view(*sid);
        match path {
            Some(p) => {
                self.fd_path_map.insert(fd, p);
            },
            None => {},
        }
        self.fd_flags_map.insert(fd, flags);
        match sid {
            Some(x) => self.add_session_fd(x, fd),
            None => {},
        }
        proof {
            let s1 = self.view();
            let want = registered(s0, fd, pv, flags, sv);
            assert(s1.paths =~= want.paths);
            assert(s1.flags =~= want.flags);
        }
    }

    /// Record that session `sid` opened `fd`.
    fn add_session_fd(&mut self, sid: &String, fd: u32)
        requires
            sessions_distinct(old(self).session_fds@),
        ensures
            sessions_distinct(final(self).session_fds@),
            session_ids(final(self).session_fds@) == session_ids(old(self).session_fds@).insert(
                sid@,
            ),
            session_pairs(final(self).session_fds@) == session_pairs(old(self).session_fds@).insert(
                (sid@, fd),
            ),
            final(self).fs == old(self).fs,
            final(self).fd_path_map == old(self).fd_path_map,
            final(self).fd_flags_map == old(self).fd_flags_map,
            final(self).s3_refreshed_fds == old(self).s3_refreshed_fds,
    {
        let ghost v0 = self.session_fds@;
        let mut i: usize = 0;
        while i < self.session_fds.len()
            invariant
                self.session_fds@ == v0,
                v0 == old(self).session_fds@,
                sessions_distinct(v0),
                self.fs == old(self).fs,
                self.fd_path_map == old(self).fd_path_map,
                self.fd_flags_map == old(self).fd_flags_map,
                self.s3_refreshed_fds == old(self).s3_refreshed_fds,
                i <= v0.len(),
                forall|j: int| 0 <= j < i ==> (#[trigger] v0[j]).id@ != sid@,
            decreases v0.len() - i,
        {
            if self.session_fds[i].id.eq(sid) {
                let mut e = self.session_fds.swap_remove(i);
                let ghost e_id = e.id@;
                assert(e_id == v0[i as int].id@);
                let mut present = false;
                let mut k: usize = 0;
                while k < e.fds.len()
                    invariant
                        k <= e.fds@.len(),
                        present <==> exists|m: int| 0 <= m < k && e.fds@[m] == fd,
                    decreases e.fds@.len() - k,
                {
                    if e.fds[k] == fd {
                        present = true;
                    }
                    k = k + 1;
                }
                let ghost old_fds = e.fds@;
                if !present {
                    e.fds.push(fd);
                }
                proof {
                    if present {
                        let w = choose|m: int| 0 <= m < k && e.fds@[m] == fd;
                        assert(e.fds@[w] == fd);
                    } else {
                        assert(e.fds@ == old_fds.push(fd));
                        assert(e.fds@[old_fds.len() as int] == fd);
                    }
                    assert(e.fds@.contains(fd));
                    assert forall|m: u32| e.fds@.contains(m) implies (old_fds.contains(m) || m == fd) by {
                        let j = choose|j: int| 0 <= j < e.fds@.len() && e.fds@[j] == m;
                        if j < old_fds.len() {
                            assert(old_fds[j] == m);
                        }
                    }
                    assert forall|m: u32| old_fds.contains(m) implies e.fds@.contains(m) by {
                        let j = choose|j: int| 0 <= j < old_fds.len() && old_fds[j] == m;
                        assert(e.fds@[j] == m);
                    }
                }
                let ghost mid = self.session_fds@;
                self.session_fds.push(e);
                proof {
                    let v1 = self.session_fds@;
                    let last = v0.len() - 1;
                    assert(mid =~= v0.update(i as int, v0[last]).drop_last());
                    assert(v1 =~= mid.push(e));
                    assert(v1[v1.len() - 1].id@ == v0[i as int].id@);
                    assert forall|a: int| 0 <= a < v1.len() - 1 implies #[trigger] v1[a] == (if a
                        == i {
                        v0[last]
                    } else {
                        v0[a]
                    }) by {}
                    // `mid` is `v0` with index `i` replaced by its last element.
                    assert forall|a: int, b: int|
                        0 <= a < v1.len() && 0 <= b < v1.len() && a != b implies (#[trigger] v1[a]).id@
                        != (#[trigger] v1[b]).id@ by {
                        let ia = if a == v1.len() - 1 {
                            i as int
                        } else if a == i {
                            last
                        } else {
                            a
                        };
                        let ib = if b == v1.len() - 1 {
                            i as int
                        } else if b == i {
                            last
                        } else {
                            b
                        };
                        assert(v1[a].id@ == v0[ia].id@);
                        assert(v1[b].id@ == v0[ib].id@);
                    }
                    assert forall|k: Seq<char>| session_ids(v1).contains(k) <==> session_ids(
                        v0,
                    ).insert(sid@).contains(k) by {
                        if session_ids(v0).contains(k) {
                            let j = choose|j: int| 0 <= j < v0.len() && (#[trigger] v0[j]).id@ == k;
                            let jj = if j == i {
                                v1.len() - 1
                            } else if j == last {
                                i as int
                            } else {
                                j
                            };
                            assert(v1[jj].id@ == k);
                        }
                        if session_ids(v1).contains(k) {
                            let j = choose|j: int| 0 <= j < v1.len() && (#[trigger] v1[j]).id@ == k;
                            let jj = if j == v1.len() - 1 {
                                i as int
                            } else if j == i {
                                last
                            } else {
                                j
                            };
                            assert(v0[jj].id@ == k);
                        }
                        if k == sid@ {
                            assert(v1[v1.len() - 1].id@ == k);
                        }
                    }
                    assert(session_ids(v1) =~= session_ids(v0).insert(sid@));
                    assert forall|p: (Seq<char>, u32)| session_pairs(v1).contains(p) <==> session_pairs(
                        v0,
                    ).insert((sid@, fd)).contains(p) by {
                        if session_pairs(v0).contains(p) {
                            let j = choose|j: int|
                                0 <= j < v0.len() && (#[trigger] v0[j]).id@ == p.0 && v0[j].fds@.contains(
                                    p.1,
                                );
                            let jj = if j == i {
                                v1.len() - 1
                            } else if j == last {
                                i as int
                            } else {
                                j
                            };
                            assert(v1[jj].id@ == p.0 && v1[jj].fds@.contains(p.1));
                        }
                        if session_pairs(v1).contains(p) {
                            let j = choose|j: int|
                                0 <= j < v1.len() && (#[trigger] v1[j]).id@ == p.0 && v1[j].fds@.contains(
                                    p.1,
                                );
                            let jj = if j == v1.len() - 1 {
                                i as int
                            } else if j == i {
                                last
                            } else {
                                j
                            };
                            if j != v1.len() - 1 {
                                assert(v0[jj].id@ == p.0 && v0[jj].fds@.contains(p.1));
                            } else if p.1 != fd {
                                assert(old_fds.contains(p.1));
                                assert(v0[i as int].id@ == p.0 && v0[i as int].fds@.contains(p.1));
                            }
                        }
                        if p == (sid@, fd) {
                            assert(v1[v1.len() - 1].id@ == p.0 && v1[v1.len() - 1].fds@.contains(
                                p.1,
                            ));
                        }
                    }
                    assert(session_pairs(v1) =~= session_pairs(v0).insert((sid@, fd)));
                }
                return ;
            }
            i = i + 1;
        }
        let mut fds: Vec<u32> = Vec::new();
        fds.push(fd);
        self.session_fds.push(SessionFds { id: sid.clone(), fds });
        proof {
            let v1 = self.session_fds@;
            assert(v1[v0.len() as int].fds@ =~= seq![fd]);
            assert forall|a: int, b: int|
                0 <= a < v1.len() && 0 <= b < v1.len() && a != b implies (#[trigger] v1[a]).id@
                != (#[trigger] v1[b]).id@ by {
                if a < v0.len() && b < v0.len() {
                    assert(v1[a] == v0[a] && v1[b] == v0[b]);
                }
            }
            assert forall|k: Seq<char>| session_ids(v1).contains(k) <==> session_ids(v0).insert(
                sid@,
            ).contains(k) by {
                if session_ids(v0).contains(k) {
                    let j = choose|j: int| 0 <= j < v0.len() && (#[trigger] v0[j]).id@ == k;
                    assert(v1[j].id@ == k);
                }
                if session_ids(v1).contains(k) {
                    let j = choose|j: int| 0 <= j < v1.len() && (#[trigger] v1[j]).id@ == k;
                    if j < v0.len() {
                        assert(v0[j].id@ == k);
                    }
                }
                if k == sid@ {
                    assert(v1[v0.len() as int].id@ == k);
                }
            }
            assert(session_ids(v1) =~= session_ids(v0).insert(sid@));
            assert forall|p: (Seq<char>, u32)| session_pairs(v1).contains(p) <==> session_pairs(
                v0,
            ).insert((sid@, fd)).contains(p) by {
                if session_pairs(v0).contains(p) {
                    let j = choose|j: int|
                        0 <= j < v0.len() && (#[trigger] v0[j]).id@ == p.0 && v0[j].fds@.contains(p.1);
                    assert(v1[j].id@ == p.0 && v1[j].fds@.contains(p.1));
                }
                if session_pairs(v1).contains(p) {
                    let j = choose|j: int|
                        0 <= j < v1.len() && (#[trigger] v1[j]).id@ == p.0 && v1[j].fds@.contains(p.1);
                    if j < v0.len() {
                        assert(v0[j].id@ == p.0 && v0[j].fds@.contains(p.1));
                    } else {
                        assert(p.0 == sid@);
                        assert(v1[j].fds@[0] == fd);
                        assert(p.1 == fd);
                    }
                }
                if p == (sid@, fd) {
                    assert(v1[v0.len() as int].fds@[0] == fd);
                    assert(v1[v0.len() as int].id@ == p.0 && v1[v0.len() as int].fds@.contains(
                        p.1,
                    ));
                }
            }
            assert(session_pairs(v1) =~= session_pairs(v0).insert((sid@, fd)));
        }
    }
}

// ---------------------------------------------------------------------------
// Replies
// ---------------------------------------------------------------------------

/// The protocol error code of a filesystem error.
pub open spec fn fs_error_code(e: FsError) -> ErrorCode {
    match e {
        FsError::NotFound => ErrorCode::NotFound,
        FsError::NotADirectory => ErrorCode::NotADirectory,
        FsError::IsADirectory => ErrorCode::IsADirectory,
        FsError::InvalidArgument => ErrorCode::InvalidArgument,
        FsError::BadFileDescriptor => ErrorCode::BadFileDescriptor,
        FsError::PermissionDenied => ErrorCode::PermissionDenied,
        FsError::AlreadyExists => ErrorCode::AlreadyExists,
        FsError::NotEmpty => ErrorCode::NotEmpty,
    }
}

/// The error reply for a filesystem error: its code and the code's text.
pub open spec fn fs_error_response(e: FsError) -> ResponseV {
    ResponseV::Error { code: fs_error_code(e).code_of(), message: fs_error_code(e).text() }
}

/// The error reply for a filesystem error.
pub fn map_fs_error(error: FsError) -> (r: Response)
    ensures
        r@ == fs_error_response(error),
        r matches Response::Error { code, .. } && code == fs_error_code(error),
{
    let code = match error {
        FsError::NotFound => ErrorCode::NotFound,
        FsError::NotADirectory => ErrorCode::NotADirectory,
        FsError::IsADirectory => ErrorCode::IsADirectory,
        FsError::InvalidArgument => ErrorCode::InvalidArgument,
        FsError::BadFileDescriptor => ErrorCode::BadFileDescriptor,
        FsError::PermissionDenied => ErrorCode::PermissionDenied,
        FsError::AlreadyExists => ErrorCode::AlreadyExists,
        FsError::NotEmpty => ErrorCode::NotEmpty,
    };
    Response::Error { code, message: String::from_str(code.as_str()) }
}

/// A failure of the object-store sync layer, as request handling sees it.
#[derive(Debug)]
pub enum SyncError {
    /// Another writer holds the lease on `path`.
    Busy { path: String, holder: Option<String> },
    /// The stored object under `path` changed since it was read;
    /// `refreshed` tells whether the local copy was refreshed from it.
    Conflict { path: String, refreshed: bool },
    /// The local filesystem failed on `path`.
    Fs { path: String, message: String },
    /// The object store failed.
    S3(String),
}

/// The protocol code a sync failure is reported with: busy and conflict
/// keep their own codes, every other failure is an I/O error.
pub open spec fn sync_error_code(e: SyncError) -> ErrorCode {
    match e {
        SyncError::Busy { .. } => ErrorCode::Busy,
        SyncError::Conflict { .. } => ErrorCode::Conflict,
        SyncError::Fs { .. } => ErrorCode::Io,
        SyncError::S3(_) => ErrorCode::Io,
    }
}

/// The error reply for a sync failure; `text` is the failure's description,
/// which becomes the reply's message.
pub fn map_sync_error(error: SyncError, text: String) -> (r: Response)
    ensures
        r@ == (ResponseV::Error { code: sync_error_code(error).code_of(), message: text@ }),
        r matches Response::Error { code, .. } && code == sync_error_code(error),
{
    let code = match error {
        SyncError::Busy { .. } => ErrorCode::Busy,
        SyncError::Conflict { .. } => ErrorCode::Conflict,
        SyncError::Fs { .. } => ErrorCode::Io,
        SyncError::S3(_) => ErrorCode::Io,
    };
    Response::Error { code, message: text }
}

/// The reply to an operation with no result.
pub open spec fn done_response(r: Result<(), FsError>) -> ResponseV {
    match r {
        Ok(_) => ResponseV::Success,
        Err(e) => fs_error_response(e),
    }
}

/// The reply to a metadata query.
pub open spec fn metadata_response(r: Result<Metadata, FsError>) -> ResponseV {
    match r {
        Ok(m) => ResponseV::Metadata {
            size: m.size,
            created: m.created,
            modified: m.modified,
            is_dir: m.is_dir,
        },
        Err(e) => fs_error_response(e),
    }
}

/// The reply to a write.
pub open spec fn written_response(r: Result<usize, FsError>) -> ResponseV {
    match r {
        Ok(n) => ResponseV::Written { count: n as u64 },
        Err(e) => fs_error_response(e),
    }
}

/// The character of a decimal digit.
pub open spec fn digit_char(d: nat) -> char {
    if d == 0 {
        '0'
    } else if d == 1 {
        '1'
    } else if d == 2 {
        '2'
    } else if d == 3 {
        '3'
    } else if d == 4 {
        '4'
    } else if d == 5 {
        '5'
    } else if d == 6 {
        '6'
    } else if d == 7 {
        '7'
    } else if d == 8 {
        '8'
    } else {
        '9'
    }
}

/// The decimal digits of `n`.
pub open spec fn decimal(n: nat) -> Seq<char>
    decreases n,
{
    if n < 10 {
        seq![digit_char(n)]
    } else {
        decimal(n / 10).push(digit_char(n % 10))
    }
}

/// The decimal digits of `n`.
pub fn decimal_string(n: u32) -> (s: String)
    ensures
        s@ == decimal(n as nat),
    decreases n,
{
    let d = n % 10;
    let c = if d == 0 {
        '0'
    } else if d == 1 {
        '1'
    } else if d == 2 {
        '2'
    } else if d == 3 {
        '3'
    } else if d == 4 {
        '4'
    } else if d == 5 {
        '5'
    } else if d == 6 {
        '6'
    } else if d == 7 {
        '7'
    } else if d == 8 {
        '8'
    } else {
        '9'
    };
    let mut s = if n < 10 {
        String::new()
    } else {
        decimal_string(n / 10)
    };
    crate::path::push_char(&mut s, c);
    proof {
        if n < 10 {
            assert(s@ =~= seq![digit_char(n as nat)]);
        }
    }
    s
}

/// The message of the error a client with an unknown version gets.
pub open spec fn version_mismatch_message(v: u32) -> Seq<char> {
    "Protocol version mismatch: client="@ + decimal(v as nat) + ", server="@ + decimal(
        PROTOCOL_VERSION as nat,
    )
}

fn version_mismatch(v: u32) -> (s: String)
    ensures
        s@ == version_mismatch_message(v),
{
    let mut s = String::from_str("Protocol version mismatch: client=");
    s.append(decimal_string(v).as_str());
    s.append(", server=");
    s.append(decimal_string(PROTOCOL_VERSION).as_str());
    s
}

// ---------------------------------------------------------------------------
// Paths
// ---------------------------------------------------------------------------

/// The absolute path of `path` opened relative to the directory `dir`.
pub open spec fn join_dir_spec(dir: Seq<char>, path: Seq<char>) -> Seq<char> {
    if dir == seq!['/'] {
        seq!['/'] + trim_leading_slashes(path)
    } else {
        trim_trailing_slashes(dir) + seq!['/'] + trim_leading_slashes(path)
    }
}

/// The absolute path of `path` opened relative to the directory at
/// `dir_path`.
pub fn join_dir(dir_path: &str, path: &str) -> (r: String)
    ensures
        r@ == join_dir_spec(dir_path@, path@),
{
    let dc = str_chars(dir_path);
    let pc = str_chars(path);
    let k = first_non_slash(&pc);
    let tail = string_from_chars(&pc, k, pc.len());
    let mut r = if dc.len() == 1 && dc[0] == '/' {
        assert(dir_path@ =~= seq!['/']);
        String::new()
    } else {
        let e = last_non_slash(&dc);
        string_from_chars(&dc, 0, e)
    };
    crate::path::push_char(&mut r, '/');
    r.append(tail.as_str());
    proof {
        if dc@.len() == 1 && dc@[0] == '/' {
            assert(r@ =~= seq!['/'] + trim_leading_slashes(path@));
        } else {
            assert(dir_path@ != seq!['/']);
            assert(r@ =~= trim_trailing_slashes(dir_path@) + seq!['/'] + trim_leading_slashes(
                path@,
            ));
        }
    }
    r
}

/// The path of the entry `name` of the directory at `dir`.
pub open spec fn child_path(dir: Seq<char>, name: Seq<char>) -> Seq<char> {
    if dir == seq!['/'] {
        seq!['/'] + name
    } else {
        dir + seq!['/'] + name
    }
}

fn child_path_exec(dir: &str, name: &str) -> (r: String)
    ensures
        r@ == child_path(dir@, name@),
{
    let dc = str_chars(dir);
    let mut r = if dc.len() == 1 && dc[0] == '/' {
        assert(dir@ =~= seq!['/']);
        String::new()
    } else {
        String::from_str(dir)
    };
    crate::path::push_char(&mut r, '/');
    r.append(name);
    proof {
        if !(dc@.len() == 1 && dc@[0] == '/') {
            assert(dir@ != seq!['/']);
        }
    }
    r
}

// ---------------------------------------------------------------------------
// Listings
// ---------------------------------------------------------------------------

/// The names of a listing.
pub open spec fn entry_names(es: Seq<(Seq<char>, bool)>) -> Seq<Seq<char>> {
    es.map_values(|e: (Seq<char>, bool)| e.0)
}

/// `es` lists, in name order, the entries of `m` whose inode exists in
/// `fs`, each with whether that inode is a directory.
pub open spec fn listing_ok(fs: FsView, m: Map<Seq<char>, InodeId>, es: Seq<(Seq<char>, bool)>) -> bool {
    &&& names_sorted(entry_names(es))
    &&& forall|k: Seq<char>|
        #![trigger entry_names(es).contains(k)]
        entry_names(es).contains(k) <==> (m.contains_key(k) && fs.inodes.contains_key(m[k]))
    &&& forall|j: int|
        0 <= j < es.len() ==> m.contains_key(#[trigger] es[j].0) && fs.inodes.contains_key(m[es[j].0])
            && es[j].1 == fs.inodes[m[es[j].0]].meta.is_dir
}

/// The reply to a listing of the directory at `path`: its names in order,
/// each marked by whether the path below `path` is a directory.
pub open spec fn listing_response(fs: FsView, path: Seq<char>, resp: ResponseV) -> bool {
    match fs.readdir_target(path) {
        Err(e) => resp == fs_error_response(e),
        Ok(id) => resp matches ResponseV::DirEntries { entries } && names_sorted(
            entry_names(entries),
        ) && entry_names(entries).to_set() == fs.dir_entries(id).dom() && forall|j: int|
            0 <= j < entries.len() ==> (#[trigger] entries[j]).1 == (fs.stat_op(
                child_path(path, entries[j].0),
            ) matches Ok(m) && m.is_dir),
    }
}

/// The reply to a listing of the directory open as `fd`.
pub open spec fn fd_listing_response(fs: FsView, fd: u32, resp: ResponseV) -> bool {
    if !fs.fds.contains_key(fd) {
        resp == fs_error_response(FsError::BadFileDescriptor)
    } else if !fs.inodes.contains_key(fs.fds[fd].inode_id) {
        resp == fs_error_response(FsError::NotFound)
    } else if fs.is_file(fs.fds[fd].inode_id) {
        resp == fs_error_response(FsError::NotADirectory)
    } else {
        resp matches ResponseV::DirEntries { entries } && listing_ok(
            fs,
            fs.dir_entries(fs.fds[fd].inode_id),
            entries,
        )
    }
}

// ---------------------------------------------------------------------------
// What handling a request does
// ---------------------------------------------------------------------------

/// The outcome of an open: a new descriptor recorded with its path, flags
/// and session, or the error.
pub open spec fn opened(
    s: ServerView,
    f2: FsView,
    r: Result<u32, FsError>,
    path: Option<Seq<char>>,
    flags: u32,
    sid: Option<Seq<char>>,
    s2: ServerView,
    resp: ResponseV,
) -> bool {
    match r {
        Ok(fd) => s2 == registered(with_fs(s, f2), fd, path, flags, sid) && resp == ResponseV::Fd {
            fd,
        },
        Err(e) => s2 == with_fs(s, f2) && resp == fs_error_response(e),
    }
}

/// The absolute path of an open relative to `dir_fd`, when that
/// descriptor's path is known.
pub open spec fn open_at_path(s: ServerView, dir_fd: u32, path: Seq<char>) -> Option<Seq<char>> {
    if s.paths.contains_key(dir_fd) {
        Some(join_dir_spec(s.paths[dir_fd], path))
    } else {
        None
    }
}

/// `count` zero bytes.
pub open spec fn zeros(count: nat) -> Seq<u8> {
    Seq::new(count, |i: int| 0u8)
}

/// Opening `path` with `flags` for session `sid` can leave `s2` and reply `resp`.
pub open spec fn open_path_handled(
    s: ServerView,
    path: Seq<char>,
    flags: u32,
    sid: Option<Seq<char>>,
    s2: ServerView,
    resp: ResponseV,
) -> bool {
    exists|t1: u64, t2: u64|
        #[trigger] opened(
            s,
            s.fs.open_path_op(path, flags, t1, t2).0,
            s.fs.open_path_op(path, flags, t1, t2).1,
            Some(path),
            flags,
            sid,
            s2,
            resp,
        )
}

/// Opening `path` below `dir_fd` with `flags` for session `sid` can leave
/// `s2` and reply `resp`.
pub open spec fn open_at_handled(
    s: ServerView,
    dir_fd: u32,
    path: Seq<char>,
    flags: u32,
    sid: Option<Seq<char>>,
    s2: ServerView,
    resp: ResponseV,
) -> bool {
    exists|t1: u64, t2: u64|
        #[trigger] opened(
            s,
            s.fs.open_at_op(dir_fd, path, flags, t1, t2).0,
            s.fs.open_at_op(dir_fd, path, flags, t1, t2).1,
            open_at_path(s, dir_fd, path),
            flags,
            sid,
            s2,
            resp,
        )
}

/// Writing `data` through `fd` can leave `s2` and reply `resp`.
pub open spec fn write_handled(s: ServerView, fd: u32, data: Seq<u8>, s2: ServerView, resp: ResponseV) -> bool {
    exists|t: u64|
        s2 == with_fs(s, (#[trigger] s.fs.write_op(fd, data, t)).0) && resp == written_response(
            s.fs.write_op(fd, data, t).1,
        )
}

/// Appending `data` through `fd` can leave `s2` and reply `resp`.
pub open spec fn append_handled(s: ServerView, fd: u32, data: Seq<u8>, s2: ServerView, resp: ResponseV) -> bool {
    exists|t: u64|
        s2 == with_fs(s, (#[trigger] s.fs.append_write_op(fd, data, t)).0) && resp
            == written_response(s.fs.append_write_op(fd, data, t).1)
}

/// Truncating the file behind `fd` to `size` can leave `s2` and reply `resp`.
pub open spec fn ftruncate_handled(s: ServerView, fd: u32, size: u64, s2: ServerView, resp: ResponseV) -> bool {
    exists|t: u64|
        s2 == with_fs(s, (#[trigger] s.fs.ftruncate_op(fd, size, t)).0) && resp == done_response(
            s.fs.ftruncate_op(fd, size, t).1,
        )
}

/// Creating the directory `path` can leave `s2` and reply `resp`.
pub open spec fn mkdir_handled(s: ServerView, path: Seq<char>, s2: ServerView, resp: ResponseV) -> bool {
    exists|t: u64|
        s2 == with_fs(s, (#[trigger] s.fs.mkdir_op(path, t)).0) && resp == done_response(
            s.fs.mkdir_op(path, t).1,
        )
}

/// Creating the directory `path` and its parents can leave `s2` and reply `resp`.
pub open spec fn mkdir_p_handled(s: ServerView, path: Seq<char>, s2: ServerView, resp: ResponseV) -> bool {
    exists|ts: Seq<u64>|
        s2 == with_fs(s, (#[trigger] s.fs.mkdir_p_op(path, ts)).0) && resp == done_response(
            s.fs.mkdir_p_op(path, ts).1,
        )
}

/// Removing the file `path` can leave `s2` and reply `resp`.
pub open spec fn unlink_handled(s: ServerView, path: Seq<char>, s2: ServerView, resp: ResponseV) -> bool {
    exists|t: u64|
        s2 == with_fs(s, (#[trigger] s.fs.unlink_op(path, t)).0) && resp == done_response(
            s.fs.unlink_op(path, t).1,
        )
}

/// Removing the directory `path` can leave `s2` and reply `resp`.
pub open spec fn rmdir_handled(s: ServerView, path: Seq<char>, s2: ServerView, resp: ResponseV) -> bool {
    exists|t: u64|
        s2 == with_fs(s, (#[trigger] s.fs.rmdir_op(path, t)).0) && resp == done_response(
            s.fs.rmdir_op(path, t).1,
        )
}

/// Renaming `old_path` to `new_path` can leave `s2` and reply `resp`.
pub open spec fn rename_handled(
    s: ServerView,
    old_path: Seq<char>,
    new_path: Seq<char>,
    s2: ServerView,
    resp: ResponseV,
) -> bool {
    exists|t: u64|
        s2 == with_fs(s, (#[trigger] s.fs.rename_op(old_path, new_path, t)).0) && resp
            == done_response(s.fs.rename_op(old_path, new_path, t).1)
}

/// Handling `req` from session `sid` in state `s` can leave state `s2` and
/// reply `resp`; `new_sid` is the id a connecting client is given. The
/// timestamps the filesystem gives are left open.
pub open spec fn handled(
    s: ServerView,
    req: RequestV,
    sid: Option<Seq<char>>,
    new_sid: Seq<char>,
    s2: ServerView,
    resp: ResponseV,
) -> bool {
    match req {
        RequestV::Connect { version } => s2 == s && resp == match negotiated(version) {
            Some(v) => ResponseV::Connected { session_id: new_sid, version: v },
            None => ResponseV::Error {
                code: ErrorCode::ProtocolError.code_of(),
                message: version_mismatch_message(version),
            },
        },
        RequestV::OpenPath { path, flags } => open_path_handled(s, path, flags, sid, s2, resp),
        RequestV::OpenAt { dir_fd, path, flags } => open_at_handled(
            s,
            dir_fd,
            path,
            flags,
            sid,
            s2,
            resp,
        ),
        RequestV::Read { fd, length } => {
            let (f2, out, r) = s.fs.read_op(fd, zeros(length as nat));
            s2 == with_fs(s, f2) && resp == match r {
                Ok(n) => ResponseV::Data { bytes: out.take(n as int) },
                Err(e) => fs_error_response(e),
            }
        },
        RequestV::Write { fd, data } => write_handled(s, fd, data, s2, resp),
        RequestV::AppendWrite { fd, data } => append_handled(s, fd, data, s2, resp),
        RequestV::Ftruncate { fd, size } => ftruncate_handled(s, fd, size, s2, resp),
        RequestV::Close { fd } => s2 == with_fs(unregistered(s, fd), s.fs.close_op(fd).0) && resp
            == done_response(s.fs.close_op(fd).1),
        RequestV::Fsync { fd } => s2 == s && resp == if s.flags.contains_key(fd) {
            ResponseV::Success
        } else {
            fs_error_response(FsError::BadFileDescriptor)
        },
        RequestV::Seek { fd, offset, whence } => s2 == with_fs(
            s,
            s.fs.seek_op(fd, offset, whence).0,
        ) && resp == match s.fs.seek_op(fd, offset, whence).1 {
            Ok(p) => ResponseV::Position { pos: p },
            Err(e) => fs_error_response(e),
        },
        RequestV::Fstat { fd } => s2 == s && resp == metadata_response(s.fs.fstat_op(fd)),
        RequestV::Stat { path } => s2 == s && resp == metadata_response(s.fs.stat_op(path)),
        RequestV::Mkdir { path } => mkdir_handled(s, path, s2, resp),
        RequestV::MkdirP { path } => mkdir_p_handled(s, path, s2, resp),
        RequestV::Unlink { path } => unlink_handled(s, path, s2, resp),
        RequestV::Readdir { path } => s2 == s && listing_response(s.fs, path, resp),
        RequestV::ReaddirFd { fd } => s2 == s && fd_listing_response(s.fs, fd, resp),
        RequestV::Rmdir { path } => rmdir_handled(s, path, s2, resp),
        RequestV::Rename { old_path, new_path } => rename_handled(s, old_path, new_path, s2, resp),
    }
}

/// Handling `req` from session `sid` in state `s`, with the timestamps
/// taken from the counter `c`, leaves state `s2`, the counter `c2` and the
/// reply `resp`: every recorded time is the counter's next value, and the
/// counter moves on by one for each.
pub open spec fn handled_timed(
    s: ServerView,
    c: MonotonicCounter,
    req: RequestV,
    sid: Option<Seq<char>>,
    new_sid: Seq<char>,
    s2: ServerView,
    c2: MonotonicCounter,
    resp: ResponseV,
) -> bool {
    match req {
        RequestV::OpenPath { path, flags } => {
            let st = s.fs.open_path_stamps(path, flags);
            let (f2, r) = s.fs.open_path_op(path, flags, c.next_stamp(), ticked_if(c, st.0).next_stamp());
            opened(s, f2, r, Some(path), flags, sid, s2, resp) && c2 == ticked_by(c, st.0, st.1)
        },
        RequestV::OpenAt { dir_fd, path, flags } => {
            let st = s.fs.open_at_stamps(dir_fd, path, flags);
            let (f2, r) = s.fs.open_at_op(
                dir_fd,
                path,
                flags,
                c.next_stamp(),
                ticked_if(c, st.0).next_stamp(),
            );
            opened(s, f2, r, open_at_path(s, dir_fd, path), flags, sid, s2, resp) && c2 == ticked_by(
                c,
                st.0,
                st.1,
            )
        },
        RequestV::Write { fd, data } => {
            let (f2, r) = s.fs.write_op(fd, data, c.next_stamp());
            s2 == with_fs(s, f2) && resp == written_response(r) && c2 == ticked_if(c, r is Ok)
        },
        RequestV::AppendWrite { fd, data } => {
            let (f2, r) = s.fs.append_write_op(fd, data, c.next_stamp());
            s2 == with_fs(s, f2) && resp == written_response(r) && c2 == ticked_if(c, r is Ok)
        },
        RequestV::Ftruncate { fd, size } => {
            let (f2, r) = s.fs.ftruncate_op(fd, size, c.next_stamp());
            s2 == with_fs(s, f2) && resp == done_response(r) && c2 == ticked_if(c, r is Ok)
        },
        RequestV::Mkdir { path } => {
            let (f2, r) = s.fs.mkdir_op(path, c.next_stamp());
            s2 == with_fs(s, f2) && resp == done_response(r) && c2 == ticked_if(c, r is Ok)
        },
        RequestV::MkdirP { path } => {
            let (ts, c3) = s.fs.mkdir_p_op_times(path, c);
            let (f2, r) = s.fs.mkdir_p_op(path, ts);
            s2 == with_fs(s, f2) && resp == done_response(r) && c2 == c3
        },
        RequestV::Unlink { path } => {
            let (f2, r) = s.fs.unlink_op(path, c.next_stamp());
            s2 == with_fs(s, f2) && resp == done_response(r) && c2 == ticked_if(c, r is Ok)
        },
        RequestV::Rmdir { path } => {
            let (f2, r) = s.fs.rmdir_op(path, c.next_stamp());
            s2 == with_fs(s, f2) && resp == done_response(r) && c2 == ticked_if(c, r is Ok)
        },
        RequestV::Rename { old_path, new_path } => {
            let (f2, r) = s.fs.rename_op(old_path, new_path, c.next_stamp());
            s2 == with_fs(s, f2) && resp == done_response(r) && c2 == ticked_if(
                c,
                s.fs.rename_moves(old_path, new_path),
            )
        },
        _ => handled(s, req, sid, new_sid, s2, resp) && c2 == c,
    }
}

/// Whether the positions a request works with stay within machine range:
/// a write must end within the address range, a relative seek within `i64`.
pub open spec fn request_in_range(s: ServerView, req: RequestV) -> bool {
    match req {
        RequestV::Write { fd, data } => s.fs.write_in_range(fd, s.fs.write_pos(fd), data.len() as int),
        RequestV::AppendWrite { fd, data } => s.fs.write_in_range(
            fd,
            s.fs.file_data(s.fs.fds[fd].inode_id).len() as int,
            data.len() as int,
        ),
        RequestV::Seek { fd, offset, whence } => s.fs.seek_in_range(fd, offset, whence),
        _ => true,
    }
}

impl ServerContext {
    /// Forget that any session opened `fd`.
    fn remove_fd_from_sessions(&mut self, fd: u32)
        requires
            sessions_distinct(old(self).session_fds@),
        ensures
            sessions_distinct(final(self).session_fds@),
            session_ids(final(self).session_fds@) == session_ids(old(self).session_fds@),
            session_pairs(final(self).session_fds@) == pairs_without(
                session_pairs(old(self).session_fds@),
                fd,
            ),
            final(self).fs == old(self).fs,
            final(self).fd_path_map == old(self).fd_path_map,
            final(self).fd_flags_map == old(self).fd_flags_map,
            final(self).s3_refreshed_fds == old(self).s3_refreshed_fds,
    {
        let ghost v0 = self.session_fds@;
        let mut out: Vec<SessionFds> = Vec::new();
        let mut i: usize = 0;
        while i < self.session_fds.len()
            invariant
                self.session_fds@ == v0,
                i <= v0.len(),
                out@.len() == i,
                forall|j: int| 0 <= j < i ==> (#[trigger] out@[j]).id@ == v0[j].id@,
                forall|j: int, m: u32|
                    0 <= j < i ==> ((#[trigger] out@[j].fds@.contains(m)) <==> (v0[j].fds@.contains(m)
                        && m != fd)),
            decreases v0.len() - i,
        {
            let e = &self.session_fds[i];
            let mut fds: Vec<u32> = Vec::new();
            let mut k: usize = 0;
            while k < e.fds.len()
                invariant
                    k <= e.fds@.len(),
                    forall|m: u32|
                        fds@.contains(m) <==> (m != fd && exists|x: int|
                            0 <= x < k && #[trigger] e.fds@[x] == m),
                decreases e.fds@.len() - k,
            {
                let x = e.fds[k];
                let ghost before = fds@;
                if x != fd {
                    fds.push(x);
                }
                proof {
                    assert forall|m: u32| fds@.contains(m) <==> (m != fd && exists|y: int|
                        0 <= y < k + 1 && #[trigger] e.fds@[y] == m) by {
                        if fds@.contains(m) {
                            let w = choose|w: int| 0 <= w < fds@.len() && fds@[w] == m;
                            if w < before.len() {
                                assert(before[w] == m);
                                assert(before.contains(m));
                            } else {
                                assert(e.fds@[k as int] == m);
                            }
                        }
                        if m != fd && exists|y: int| 0 <= y < k + 1 && #[trigger] e.fds@[y] == m {
                            let y = choose|y: int| 0 <= y < k + 1 && #[trigger] e.fds@[y] == m;
                            if y < k {
                                assert(before.contains(m));
                                let w = choose|w: int| 0 <= w < before.len() && before[w] == m;
                                assert(fds@[w] == m);
                            } else {
                                assert(fds@[fds@.len() - 1] == m);
                            }
                        }
                    }
                }
                k = k + 1;
            }
            proof {
                assert forall|m: u32| fds@.contains(m) <==> (v0[i as int].fds@.contains(m) && m
                    != fd) by {
                    if v0[i as int].fds@.contains(m) && m != fd {
                        let y = choose|y: int| 0 <= y < e.fds@.len() && e.fds@[y] == m;
                        assert(e.fds@[y] == m);
                    }
                }
            }
            out.push(SessionFds { id: e.id.clone(), fds });
            i = i + 1;
        }
        self.session_fds = out;
        proof {
            let v1 = self.session_fds@;
            assert forall|a: int, b: int|
                0 <= a < v1.len() && 0 <= b < v1.len() && a != b implies (#[trigger] v1[a]).id@
                != (#[trigger] v1[b]).id@ by {
                assert(v1[a].id@ == v0[a].id@);
                assert(v1[b].id@ == v0[b].id@);
            }
            assert forall|k: Seq<char>| session_ids(v1).contains(k) <==> session_ids(v0).contains(
                k,
            ) by {
                if session_ids(v0).contains(k) {
                    let j = choose|j: int| 0 <= j < v0.len() && (#[trigger] v0[j]).id@ == k;
                    assert(v1[j].id@ == k);
                }
                if session_ids(v1).contains(k) {
                    let j = choose|j: int| 0 <= j < v1.len() && (#[trigger] v1[j]).id@ == k;
                    assert(v0[j].id@ == k);
                }
            }
            assert(session_ids(v1) =~= session_ids(v0));
            let want = pairs_without(session_pairs(v0), fd);
            assert forall|p: (Seq<char>, u32)| session_pairs(v1).contains(p) <==> want.contains(
                p,
            ) by {
                if want.contains(p) {
                    let j = choose|j: int|
                        0 <= j < v0.len() && (#[trigger] v0[j]).id@ == p.0 && v0[j].fds@.contains(p.1);
                    assert(v1[j].id@ == p.0 && v1[j].fds@.contains(p.1));
                }
                if session_pairs(v1).contains(p) {
                    let j = choose|j: int|
                        0 <= j < v1.len() && (#[trigger] v1[j]).id@ == p.0 && v1[j].fds@.contains(p.1);
                    assert(v0[j].id@ == p.0 && v0[j].fds@.contains(p.1));
                }
            }
            assert(session_pairs(v1) =~= want);
        }
    }

    /// Forget `fd` in every record. Returns its path and its flags (0 when
    /// unknown).
    fn unregister_fd(&mut self, fd: u32) -> (r: (Option<String>, u32))
        requires
            old(self).wf(),
        ensures
            final(self).wf(),
            final(self).view() == unregistered(old(self).view(), fd),
            opt_string_view(r.0) == (if old(self).view().paths.contains_key(fd) {
                Some(old(self).view().paths[fd])
            } else {
                None
            }),
            r.1 == (if old(self).view().flags.contains_key(fd) {
                old(self).view().flags[fd]
            } else {
                0
            }),
            final(self).clock() == old(self).clock(),
    {
        let ghost s0 = self.view();
        let path = self.fd_path_map.remove(&fd);
        let flags = match self.fd_flags_map.remove(&fd) {
            Some(f) => f,
            None => 0,
        };
        self.s3_refreshed_fds.remove(&fd);
        self.remove_fd_from_sessions(fd);
        proof {
            let s1 = self.view();
            let want = unregistered(s0, fd);
            assert(s1.paths =~= want.paths);
            assert(s1.flags =~= want.flags);
            assert(s1.refreshed =~= want.refreshed);
        }
        (path, flags)
    }

    /// Close `fd`: forget it in every record and close it in the
    /// filesystem.
    pub fn close_fd(&mut self, fd: u32) -> (r: Response)
        requires
            old(self).wf(),
        ensures
            final(self).wf(),
            final(self).view() == with_fs(
                unregistered(old(self).view(), fd),
                old(self).view().fs.close_op(fd).0,
            ),
            r@ == done_response(old(self).view().fs.close_op(fd).1),
            final(self).clock() == old(self).clock(),
    {
        let _ = self.unregister_fd(fd);
        match self.fs.close(fd) {
            Ok(()) => Response::Success,
            Err(e) => map_fs_error(e),
        }
    }
}

/// The descriptors session `sid` opened.
pub open spec fn fds_of(s: ServerView, sid: Seq<char>) -> Set<u32> {
    Set::new(|f: u32| s.session_fds.contains((sid, f)))
}

/// The pairs of sessions other than `sid`.
pub open spec fn pairs_except_session(ps: Set<(Seq<char>, u32)>, sid: Seq<char>) -> Set<(Seq<char>, u32)> {
    ps.filter(|p: (Seq<char>, u32)| p.0 != sid)
}

/// The pairs that name none of the descriptors `ds`.
pub open spec fn pairs_except_fds(ps: Set<(Seq<char>, u32)>, ds: Set<u32>) -> Set<(Seq<char>, u32)> {
    ps.filter(|p: (Seq<char>, u32)| !ds.contains(p.1))
}

/// The state after closing every descriptor in `ds`: gone from the
/// filesystem and from every record.
pub open spec fn closed_all(s: ServerView, ds: Set<u32>) -> ServerView {
    ServerView {
        fs: FsView { fds: s.fs.fds.remove_keys(ds), ..s.fs },
        paths: s.paths.remove_keys(ds),
        flags: s.flags.remove_keys(ds),
        session_fds: pairs_except_fds(s.session_fds, ds),
        refreshed: s.refreshed.difference(ds),
        ..s
    }
}

/// The state after session `sid` is forgotten.
pub open spec fn session_dropped(s: ServerView, sid: Seq<char>) -> ServerView {
    ServerView {
        sessions: s.sessions.remove(sid),
        session_fds: pairs_except_session(s.session_fds, sid),
        ..s
    }
}

/// The state after a client of session `sid` disconnects: its descriptors
/// are closed and the session is forgotten.
pub open spec fn session_closed(s: ServerView, sid: Seq<char>) -> ServerView {
    closed_all(session_dropped(s, sid), fds_of(s, sid))
}

proof fn lemma_close_step(s: ServerView, ds: Set<u32>, f: u32)
    ensures
        with_fs(unregistered(closed_all(s, ds), f), closed_all(s, ds).fs.close_op(f).0)
            == closed_all(s, ds.insert(f)),
{
    let a = with_fs(unregistered(closed_all(s, ds), f), closed_all(s, ds).fs.close_op(f).0);
    let b = closed_all(s, ds.insert(f));
    assert(a.fs.fds =~= b.fs.fds);
    assert(a.fs == b.fs);
    assert(a.paths =~= b.paths);
    assert(a.flags =~= b.flags);
    assert(a.session_fds =~= b.session_fds);
    assert(a.refreshed =~= b.refreshed);
}

impl ServerContext {
    /// Close every descriptor session `session_id` opened and forget the
    /// session (the client went away).
    pub fn close_session(&mut self, session_id: &str)
        requires
            old(self).wf(),
        ensures
            final(self).wf(),
            final(self).view() == session_closed(old(self).view(), session_id@),
            final(self).clock() == old(self).clock(),
    {
        let ghost s0 = self.view();
        let ghost sid = session_id@;
        let key = String::from_str(session_id);
        let ghost v0 = self.session_fds@;
        let mut i: usize = 0;
        let mut idx: Option<usize> = None;
        while i < self.session_fds.len()
            invariant
                self.session_fds@ == v0,
                key@ == sid,
                i <= v0.len(),
                idx is None ==> forall|j: int| 0 <= j < i ==> (#[trigger] v0[j]).id@ != sid,
                idx matches Some(x) ==> x < v0.len() && v0[x as int].id@ == sid,
            decreases v0.len() - i,
        {
            if idx.is_none() && self.session_fds[i].id.eq(&key) {
                idx = Some(i);
            }
            i = i + 1;
        }
        let i = match idx {
            Some(x) => x,
            None => {
                proof {
                    assert(fds_of(s0, sid) =~= Set::<u32>::empty()) by {
                        assert forall|f: u32| !fds_of(s0, sid).contains(f) by {
                            if session_pairs(v0).contains((sid, f)) {
                                let j = choose|j: int|
                                    0 <= j < v0.len() && (#[trigger] v0[j]).id@ == sid
                                        && v0[j].fds@.contains(f);
                                assert(v0[j].id@ != sid);
                            }
                        }
                    }
                    let want = session_closed(s0, sid);
                    if s0.sessions.contains(sid) {
                        let j = choose|j: int| 0 <= j < v0.len() && (#[trigger] v0[j]).id@ == sid;
                        assert(v0[j].id@ != sid);
                    }
                    assert(want.sessions =~= s0.sessions);
                    assert(want.session_fds =~= s0.session_fds);
                    assert(want.fs.fds =~= s0.fs.fds);
                    assert(want.fs == s0.fs);
                    assert(want.paths =~= s0.paths);
                    assert(want.flags =~= s0.flags);
                    assert(want.refreshed =~= s0.refreshed);
                }
                return ;
            },
        };
        let e = self.session_fds.swap_remove(i);
        let fds = e.fds;
        proof {
            let v1 = self.session_fds@;
            let last = v0.len() - 1;
            assert(v1 =~= v0.update(i as int, v0[last]).drop_last());
            assert(v0[i as int].id@ == sid);
            assert forall|a: int, b: int|
                0 <= a < v1.len() && 0 <= b < v1.len() && a != b implies (#[trigger] v1[a]).id@
                != (#[trigger] v1[b]).id@ by {
                let ia = if a == i {
                    last
                } else {
                    a
                };
                let ib = if b == i {
                    last
                } else {
                    b
                };
                assert(v1[a] == v0[ia]);
                assert(v1[b] == v0[ib]);
            }
            assert forall|k: Seq<char>| session_ids(v1).contains(k) <==> session_ids(v0).remove(
                sid,
            ).contains(k) by {
                if session_ids(v0).remove(sid).contains(k) {
                    let j = choose|j: int| 0 <= j < v0.len() && (#[trigger] v0[j]).id@ == k;
                    let jj = if j == last {
                        i as int
                    } else {
                        j
                    };
                    assert(j != i);
                    assert(v1[jj].id@ == k);
                }
                if session_ids(v1).contains(k) {
                    let j = choose|j: int| 0 <= j < v1.len() && (#[trigger] v1[j]).id@ == k;
                    let jj = if j == i {
                        last
                    } else {
                        j
                    };
                    assert(v0[jj].id@ == k);
                    assert(jj != i);
                }
            }
            assert(session_ids(v1) =~= session_ids(v0).remove(sid));
            let want = pairs_except_session(session_pairs(v0), sid);
            assert forall|p: (Seq<char>, u32)| session_pairs(v1).contains(p) <==> want.contains(
                p,
            ) by {
                if want.contains(p) {
                    let j = choose|j: int|
                        0 <= j < v0.len() && (#[trigger] v0[j]).id@ == p.0 && v0[j].fds@.contains(p.1);
                    let jj = if j == last {
                        i as int
                    } else {
                        j
                    };
                    assert(j != i);
                    assert(v1[jj].id@ == p.0 && v1[jj].fds@.contains(p.1));
                }
                if session_pairs(v1).contains(p) {
                    let j = choose|j: int|
                        0 <= j < v1.len() && (#[trigger] v1[j]).id@ == p.0 && v1[j].fds@.contains(p.1);
                    let jj = if j == i {
                        last
                    } else {
                        j
                    };
                    assert(v0[jj].id@ == p.0 && v0[jj].fds@.contains(p.1));
                    assert(jj != i);
                }
            }
            assert(session_pairs(v1) =~= want);
            assert forall|f: u32| #[trigger] fds@.contains(f) <==> fds_of(s0, sid).contains(f) by {
                if session_pairs(v0).contains((sid, f)) {
                    let j = choose|j: int|
                        0 <= j < v0.len() && (#[trigger] v0[j]).id@ == sid && v0[j].fds@.contains(f);
                    assert(j == i);
                }
                if fds@.contains(f) {
                    assert(v0[i as int].id@ == sid && v0[i as int].fds@.contains(f));
                }
            }
            let sd = session_dropped(s0, sid);
            assert(self.view() == sd);
            assert(closed_all(sd, Set::<u32>::empty()) == sd) by {
                let c = closed_all(sd, Set::<u32>::empty());
                assert(c.fs.fds =~= sd.fs.fds);
                assert(c.fs == sd.fs);
                assert(c.paths =~= sd.paths);
                assert(c.flags =~= sd.flags);
                assert(c.session_fds =~= sd.session_fds);
                assert(c.refreshed =~= sd.refreshed);
            }
        }
        let ghost sd = session_dropped(s0, sid);
        let mut k: usize = 0;
        proof {
            assert(fds@.take(0) =~= Seq::<u32>::empty());
            assert(fds@.take(0).to_set() =~= Set::<u32>::empty());
        }
        while k < fds.len()
            invariant
                k <= fds@.len(),
                self.wf(),
                self.view() == closed_all(sd, fds@.take(k as int).to_set()),
                self.clock() == old(self).clock(),
            decreases fds@.len() - k,
        {
            let f = fds[k];
            let _ = self.close_fd(f);
            proof {
                lemma_close_step(sd, fds@.take(k as int).to_set(), f);
                assert(fds@.take(k + 1).to_set() =~= fds@.take(k as int).to_set().insert(f)) by {
                    assert(fds@.take(k + 1) =~= fds@.take(k as int).push(f));
                    assert forall|x: u32| #[trigger] fds@.take(k + 1).to_set().contains(x) <==> fds@.take(
                        k as int,
                    ).to_set().insert(f).contains(x) by {
                        if fds@.take(k + 1).contains(x) {
                            let w = choose|w: int| 0 <= w < k + 1 && #[trigger] fds@.take(k + 1)[w] == x;
                            if w < k {
                                assert(fds@.take(k as int)[w] == x);
                            }
                        }
                        if fds@.take(k as int).contains(x) {
                            let w = choose|w: int| 0 <= w < k && #[trigger] fds@.take(k as int)[w] == x;
                            assert(fds@.take(k + 1)[w] == x);
                        }
                        if x == f {
                            assert(fds@.take(k + 1)[k as int] == x);
                        }
                    }
                }
            }
            k = k + 1;
        }
        proof {
            assert(fds@.take(fds@.len() as int) =~= fds@);
            assert(fds@.to_set() =~= fds_of(s0, sid));
        }
    }
}

impl ServerContext {
    fn handle_open_path(&mut self, path: String, flags: u32, sid: &Option<String>) -> (r: Response)
        requires
            old(self).wf(),
        ensures
            final(self).wf(),
            open_path_handled(old(self).view(), path@, flags, opt_string_view(*sid), final(self).view(), r@),
            handled_timed(
                old(self).view(),
                old(self).clock(),
                RequestV::OpenPath { path: path@, flags },
                opt_string_view(*sid),
                seq![],
                final(self).view(),
                final(self).clock(),
                r@,
            ),
    {
        let ghost s0 = self.view();
        let res = self.fs.open_path_with_flags(path.as_str(), flags);
        let ghost (t1, t2) = choose|t1: u64, t2: u64|
            s0.fs.open_path_op(path@, flags, t1, t2) == (self.fs@, res);
        let ghost pv = path@;
        match res {
            Ok(fd) => {
                self.register_fd(fd, Some(path), flags, sid);
                assert(opened(
                    s0,
                    s0.fs.open_path_op(pv, flags, t1, t2).0,
                    s0.fs.open_path_op(pv, flags, t1, t2).1,
                    Some(pv),
                    flags,
                    opt_string_view(*sid),
                    self.view(),
                    ResponseV::Fd { fd },
                ));
                let r = Response::Fd { fd };
                assert(r@ == ResponseV::Fd { fd });
                r
            },
            Err(e) => {
                let r = map_fs_error(e);
                assert(opened(
                    s0,
                    s0.fs.open_path_op(pv, flags, t1, t2).0,
                    s0.fs.open_path_op(pv, flags, t1, t2).1,
                    Some(pv),
                    flags,
                    opt_string_view(*sid),
                    self.view(),
                    r@,
                ));
                r
            },
        }
    }

    fn handle_open_at(&mut self, dir_fd: u32, path: String, flags: u32, sid: &Option<String>) -> (r:
        Response)
        requires
            old(self).wf(),
        ensures
            final(self).wf(),
            open_at_handled(
                old(self).view(),
                dir_fd,
                path@,
                flags,
                opt_string_view(*sid),
                final(self).view(),
                r@,
            ),
            handled_timed(
                old(self).view(),
                old(self).clock(),
                RequestV::OpenAt { dir_fd, path: path@, flags },
                opt_string_view(*sid),
                seq![],
                final(self).view(),
                final(self).clock(),
                r@,
            ),
    {
        let ghost s0 = self.view();
        let abs = match self.fd_path_map.get(&dir_fd) {
            Some(dir) => Some(join_dir(dir.as_str(), path.as_str())),
            None => None,
        };
        assert(opt_string_view(abs) == open_at_path(s0, dir_fd, path@));
        let res = self.fs.open_at(dir_fd, path.as_str(), flags);
        let ghost (t1, t2) = choose|t1: u64, t2: u64|
            s0.fs.open_at_op(dir_fd, path@, flags, t1, t2) == (self.fs@, res);
        match res {
            Ok(fd) => {
                self.register_fd(fd, abs, flags, sid);
                assert(opened(
                    s0,
                    s0.fs.open_at_op(dir_fd, path@, flags, t1, t2).0,
                    s0.fs.open_at_op(dir_fd, path@, flags, t1, t2).1,
                    open_at_path(s0, dir_fd, path@),
                    flags,
                    opt_string_view(*sid),
                    self.view(),
                    ResponseV::Fd { fd },
                ));
                let r = Response::Fd { fd };
                assert(r@ == ResponseV::Fd { fd });
                r
            },
            Err(e) => {
                let r = map_fs_error(e);
                assert(opened(
                    s0,
                    s0.fs.open_at_op(dir_fd, path@, flags, t1, t2).0,
                    s0.fs.open_at_op(dir_fd, path@, flags, t1, t2).1,
                    open_at_path(s0, dir_fd, path@),
                    flags,
                    opt_string_view(*sid),
                    self.view(),
                    r@,
                ));
                r
            },
        }
    }

    fn handle_read(&mut self, fd: u32, length: usize) -> (r: Response)
        requires
            old(self).wf(),
        ensures
            final(self).wf(),
            ({
                let (f2, out, res) = old(self).view().fs.read_op(fd, zeros(length as nat));
                final(self).view() == with_fs(old(self).view(), f2) && r@ == match res {
                    Ok(n) => ResponseV::Data { bytes: out.take(n as int) },
                    Err(e) => fs_error_response(e),
                }
            }),
            final(self).clock() == old(self).clock(),
    {
        let mut buf: Vec<u8> = Vec::new();
        let mut i: usize = 0;
        while i < length
            invariant
                i <= length,
                buf@ == zeros(i as nat),
            decreases length - i,
        {
            buf.push(0);
            i = i + 1;
            assert(buf@ =~= zeros(i as nat));
        }
        match self.fs.read(fd, buf.as_mut_slice()) {
            Ok(n) => {
                buf.truncate(n);
                Response::Data { bytes: buf }
            },
            Err(e) => map_fs_error(e),
        }
    }

    fn handle_seek(&mut self, fd: u32, offset: i64, whence: i32) -> (r: Response)
        requires
            old(self).wf(),
            old(self).view().fs.seek_in_range(fd, offset, whence),
        ensures
            final(self).wf(),
            final(self).view() == with_fs(
                old(self).view(),
                old(self).view().fs.seek_op(fd, offset, whence).0,
            ),
            r@ == match old(self).view().fs.seek_op(fd, offset, whence).1 {
                Ok(p) => ResponseV::Position { pos: p },
                Err(e) => fs_error_response(e),
            },
            final(self).clock() == old(self).clock(),
    {
        match self.fs.seek(fd, offset, whence) {
            Ok(pos) => Response::Position { pos },
            Err(e) => map_fs_error(e),
        }
    }
}

/// The reply to an operation with no result.
fn done(r: Result<(), FsError>) -> (resp: Response)
    ensures
        resp@ == done_response(r),
{
    match r {
        Ok(()) => Response::Success,
        Err(e) => map_fs_error(e),
    }
}

/// The reply to a write.
fn written(r: Result<usize, FsError>) -> (resp: Response)
    ensures
        resp@ == written_response(r),
{
    match r {
        Ok(n) => {
            let resp = Response::Written { count: n };
            assert(resp@ == written_response(r));
            resp
        },
        Err(e) => map_fs_error(e),
    }
}

/// The reply to a metadata query.
fn metadata_reply(r: Result<Metadata, FsError>) -> (resp: Response)
    ensures
        resp@ == metadata_response(r),
{
    match r {
        Ok(m) => {
            let resp = Response::Metadata {
                metadata: FileMetadata {
                    size: m.size,
                    created: m.created,
                    modified: m.modified,
                    is_dir: m.is_dir,
                },
            };
            assert(resp@ == metadata_response(r));
            resp
        },
        Err(e) => map_fs_error(e),
    }
}

impl ServerContext {
    fn handle_write(&mut self, fd: u32, data: Vec<u8>, append: bool) -> (r: Response)
        requires
            old(self).wf(),
            !append ==> old(self).view().fs.write_in_range(
                fd,
                old(self).view().fs.write_pos(fd),
                data@.len() as int,
            ),
            append ==> old(self).view().fs.write_in_range(
                fd,
                old(self).view().fs.file_data(old(self).view().fs.fds[fd].inode_id).len() as int,
                data@.len() as int,
            ),
        ensures
            final(self).wf(),
            !append ==> write_handled(old(self).view(), fd, data@, final(self).view(), r@),
            append ==> append_handled(old(self).view(), fd, data@, final(self).view(), r@),
            handled_timed(
                old(self).view(),
                old(self).clock(),
                if append {
                    RequestV::AppendWrite { fd, data: data@ }
                } else {
                    RequestV::Write { fd, data: data@ }
                },
                None,
                seq![],
                final(self).view(),
                final(self).clock(),
                r@,
            ),
    {
        let ghost s0 = self.view();
        if append {
            let res = self.fs.append_write(fd, data.as_slice());
            let ghost t = choose|t: u64| s0.fs.append_write_op(fd, data@, t) == (self.fs@, res);
            let r = written(res);
            assert(self.view() == with_fs(s0, s0.fs.append_write_op(fd, data@, t).0));
            r
        } else {
            let res = self.fs.write(fd, data.as_slice());
            let ghost t = choose|t: u64| s0.fs.write_op(fd, data@, t) == (self.fs@, res);
            let r = written(res);
            assert(self.view() == with_fs(s0, s0.fs.write_op(fd, data@, t).0));
            r
        }
    }

    fn handle_ftruncate(&mut self, fd: u32, size: u64) -> (r: Response)
        requires
            old(self).wf(),
        ensures
            final(self).wf(),
            ftruncate_handled(old(self).view(), fd, size, final(self).view(), r@),
            handled_timed(
                old(self).view(),
                old(self).clock(),
                RequestV::Ftruncate { fd, size },
                None,
                seq![],
                final(self).view(),
                final(self).clock(),
                r@,
            ),
    {
        let ghost s0 = self.view();
        let res = self.fs.ftruncate(fd, size);
        let ghost t = choose|t: u64| s0.fs.ftruncate_op(fd, size, t) == (self.fs@, res);
        let r = done(res);
        assert(self.view() == with_fs(s0, s0.fs.ftruncate_op(fd, size, t).0));
        r
    }

    fn handle_mkdir(&mut self, path: &str) -> (r: Response)
        requires
            old(self).wf(),
        ensures
            final(self).wf(),
            mkdir_handled(old(self).view(), path@, final(self).view(), r@),
            handled_timed(
                old(self).view(),
                old(self).clock(),
                RequestV::Mkdir { path: path@ },
                None,
                seq![],
                final(self).view(),
                final(self).clock(),
                r@,
            ),
    {
        let ghost s0 = self.view();
        let res = self.fs.mkdir(path);
        let ghost t = choose|t: u64| s0.fs.mkdir_op(path@, t) == (self.fs@, res);
        let r = done(res);
        assert(self.view() == with_fs(s0, s0.fs.mkdir_op(path@, t).0));
        r
    }

    fn handle_mkdir_p(&mut self, path: &str) -> (r: Response)
        requires
            old(self).wf(),
        ensures
            final(self).wf(),
            mkdir_p_handled(old(self).view(), path@, final(self).view(), r@),
            handled_timed(
                old(self).view(),
                old(self).clock(),
                RequestV::MkdirP { path: path@ },
                None,
                seq![],
                final(self).view(),
                final(self).clock(),
                r@,
            ),
    {
        let ghost s0 = self.view();
        let res = self.fs.mkdir_p(path);
        let ghost ts = choose|ts: Seq<u64>| s0.fs.mkdir_p_op(path@, ts) == (self.fs@, res);
        let r = done(res);
        assert(self.view() == with_fs(s0, s0.fs.mkdir_p_op(path@, ts).0));
        r
    }

    fn handle_unlink(&mut self, path: &str) -> (r: Response)
        requires
            old(self).wf(),
        ensures
            final(self).wf(),
            unlink_handled(old(self).view(), path@, final(self).view(), r@),
            handled_timed(
                old(self).view(),
                old(self).clock(),
                RequestV::Unlink { path: path@ },
                None,
                seq![],
                final(self).view(),
                final(self).clock(),
                r@,
            ),
    {
        let ghost s0 = self.view();
        let res = self.fs.unlink(path);
        let ghost t = choose|t: u64| s0.fs.unlink_op(path@, t) == (self.fs@, res);
        let r = done(res);
        assert(self.view() == with_fs(s0, s0.fs.unlink_op(path@, t).0));
        r
    }

    fn handle_rmdir(&mut self, path: &str) -> (r: Response)
        requires
            old(self).wf(),
        ensures
            final(self).wf(),
            rmdir_handled(old(self).view(), path@, final(self).view(), r@),
            handled_timed(
                old(self).view(),
                old(self).clock(),
                RequestV::Rmdir { path: path@ },
                None,
                seq![],
                final(self).view(),
                final(self).clock(),
                r@,
            ),
    {
        let ghost s0 = self.view();
        let res = self.fs.rmdir(path);
        let ghost t = choose|t: u64| s0.fs.rmdir_op(path@, t) == (self.fs@, res);
        let r = done(res);
        assert(self.view() == with_fs(s0, s0.fs.rmdir_op(path@, t).0));
        r
    }

    fn handle_rename(&mut self, old_path: &str, new_path: &str) -> (r: Response)
        requires
            old(self).wf(),
        ensures
            final(self).wf(),
            rename_handled(old(self).view(), old_path@, new_path@, final(self).view(), r@),
            handled_timed(
                old(self).view(),
                old(self).clock(),
                RequestV::Rename { old_path: old_path@, new_path: new_path@ },
                None,
                seq![],
                final(self).view(),
                final(self).clock(),
                r@,
            ),
    {
        let ghost s0 = self.view();
        let res = self.fs.rename(old_path, new_path);
        let ghost t = choose|t: u64| s0.fs.rename_op(old_path@, new_path@, t) == (self.fs@, res);
        let r = done(res);
        assert(self.view() == with_fs(s0, s0.fs.rename_op(old_path@, new_path@, t).0));
        r
    }

    fn handle_readdir(&self, path: &str) -> (r: Response)
        ensures
            listing_response(self.view().fs, path@, r@),
    {
        match self.fs.readdir(path) {
            Err(e) => map_fs_error(e),
            Ok(names) => {
                let mut entries: Vec<DirEntry> = Vec::new();
                let mut i: usize = 0;
                while i < names.len()
                    invariant
                        i <= names@.len(),
                        entries@.len() == i,
                        forall|j: int|
                            0 <= j < i ==> (#[trigger] entries@[j]).name@ == names@[j]@
                                && entries@[j].is_dir == (self.view().fs.stat_op(
                                child_path(path@, names@[j]@),
                            ) matches Ok(m) && m.is_dir),
                    decreases names@.len() - i,
                {
                    let full = child_path_exec(path, names[i].as_str());
                    let is_dir = match self.fs.stat(full.as_str()) {
                        Ok(m) => m.is_dir,
                        Err(_) => false,
                    };
                    entries.push(DirEntry { name: names[i].clone(), is_dir });
                    i = i + 1;
                }
                let ghost ev = dir_entries_view(entries@);
                assert(entry_names(ev) =~= crate::path::strings_view(names@));
                let r = Response::DirEntries { entries };
                assert(r@ == ResponseV::DirEntries { entries: ev });
                r
            },
        }
    }

    fn handle_readdir_fd(&self, fd: u32) -> (r: Response)
        ensures
            fd_listing_response(self.view().fs, fd, r@),
    {
        match self.fs.readdir_fd(fd) {
            Err(e) => map_fs_error(e),
            Ok(v) => {
                let mut entries: Vec<DirEntry> = Vec::new();
                let mut i: usize = 0;
                while i < v.len()
                    invariant
                        i <= v@.len(),
                        entries@.len() == i,
                        forall|j: int|
                            0 <= j < i ==> (#[trigger] entries@[j]).name@ == v@[j].0@
                                && entries@[j].is_dir == v@[j].1,
                    decreases v@.len() - i,
                {
                    entries.push(DirEntry { name: v[i].0.clone(), is_dir: v[i].1 });
                    i = i + 1;
                }
                let ghost ev = dir_entries_view(entries@);
                assert(entry_names(ev) =~= listing_names(v@));
                let r = Response::DirEntries { entries };
                assert(r@ == ResponseV::DirEntries { entries: ev });
                r
            },
        }
    }
}

/// A server with an empty filesystem and no descriptors.
pub fn init_server() -> (ctx: ServerContext)
    ensures
        ctx.wf(),
        ctx.view().fs.root == 0,
        ctx.view().fs.next_fd == 3,
        ctx.view().fs.next_inode == 1,
        ctx.view().fs.fds == Map::<u32, crate::handle::FileHandle>::empty(),
        ctx.view().fs.inodes.dom() == set![0u64],
        ctx.view().fs.inodes[0].id == 0,
        ctx.view().fs.inodes[0].content == crate::inode::ContentView::Dir(Map::empty()),
        ctx.view().fs.inodes[0].meta.is_dir,
        ctx.view().fs.inodes[0].meta.size == 0,
        ctx.view().fs.inodes[0].meta.created == ctx.view().fs.inodes[0].meta.modified,
        ctx.view().fs.inodes[0].meta.created == 0,
        ctx.view().fs.inodes[0].meta.permissions == crate::inode::DIR_PERMISSIONS,
        ctx.view().paths == Map::<u32, Seq<char>>::empty(),
        ctx.view().flags == Map::<u32, u32>::empty(),
        ctx.view().sessions == Set::<Seq<char>>::empty(),
        ctx.view().session_fds == Set::<(Seq<char>, u32)>::empty(),
        ctx.view().refreshed == Set::<u32>::empty(),
        ctx.clock().peek() == 1,
{
    let ctx = ServerContext {
        fs: Fs::new(),
        fd_path_map: HashMap::new(),
        fd_flags_map: HashMap::new(),
        session_fds: Vec::new(),
        s3_refreshed_fds: HashSet::new(),
    };
    proof {
        assert(ctx.view().paths =~= Map::<u32, Seq<char>>::empty());
        assert(session_ids(ctx.session_fds@) =~= Set::<Seq<char>>::empty());
        assert(session_pairs(ctx.session_fds@) =~= Set::<(Seq<char>, u32)>::empty());
    }
    ctx
}

/// A server whose filesystem is restored from `snapshot`, with no
/// descriptors and no sessions.
pub fn init_server_from_snapshot(snapshot: crate::snapshot::FsSnapshot) -> (ctx: ServerContext)
    ensures
        ctx.wf(),
        ctx.view().fs == snapshot.view(),
        ctx.view().paths == Map::<u32, Seq<char>>::empty(),
        ctx.view().flags == Map::<u32, u32>::empty(),
        ctx.view().sessions == Set::<Seq<char>>::empty(),
        ctx.view().session_fds == Set::<(Seq<char>, u32)>::empty(),
        ctx.view().refreshed == Set::<u32>::empty(),
{
    let ctx = ServerContext {
        fs: Fs::from_snapshot(snapshot, MonotonicCounter::new()),
        fd_path_map: HashMap::new(),
        fd_flags_map: HashMap::new(),
        session_fds: Vec::new(),
        s3_refreshed_fds: HashSet::new(),
    };
    proof {
        assert(ctx.view().paths =~= Map::<u32, Seq<char>>::empty());
        assert(session_ids(ctx.session_fds@) =~= Set::<Seq<char>>::empty());
        assert(session_pairs(ctx.session_fds@) =~= Set::<(Seq<char>, u32)>::empty());
    }
    ctx
}

impl ServerContext {
    /// Whether `request` stays within machine range in this state (see
    /// `request_in_range`); handling is only defined for such requests.
    pub fn accepts(&self, request: &Request) -> (r: bool)
        ensures
            r == request_in_range(self.view(), request@),
    {
        match request {
            Request::Write { fd, data } => self.fs.write_fits(*fd, data.len()),
            Request::AppendWrite { fd, data } => self.fs.append_fits(*fd, data.len()),
            Request::Seek { fd, offset, whence } => self.fs.seek_fits(*fd, *offset, *whence),
            _ => true,
        }
    }

    /// Handle one request of session `session_id` (none before it
    /// connected) and return the reply. `new_session_id` is only used to
    /// answer a connect.
    #[verifier::spinoff_prover]
    #[verifier::rlimit(40)]
    pub fn handle_request(
        &mut self,
        request: Request,
        session_id: Option<String>,
        new_session_id: String,
    ) -> (resp: Response)
        requires
            old(self).wf(),
            request_in_range(old(self).view(), request@),
        ensures
            final(self).wf(),
            handled(
                old(self).view(),
                request@,
                opt_string_view(session_id),
                new_session_id@,
                final(self).view(),
                resp@,
            ),
            handled_timed(
                old(self).view(),
                old(self).clock(),
                request@,
                opt_string_view(session_id),
                new_session_id@,
                final(self).view(),
                final(self).clock(),
                resp@,
            ),
    {
        let ghost s0 = self.view();
        let ghost rq = request@;
        let ghost sv = opt_string_view(session_id);
        let ghost nv = new_session_id@;
        let r = match request {
            Request::Connect { version } => match negotiate_version(version) {
                Some(v) => {
                    let r = Response::Connected { session_id: new_session_id, version: v };
                    assert(r@ == ResponseV::Connected { session_id: nv, version: v });
                    assert(handled(s0, rq, sv, nv, self.view(), r@));
                    r
                },
                None => {
                    let r = Response::Error {
                        code: ErrorCode::ProtocolError,
                        message: version_mismatch(version),
                    };
                    assert(r@ == ResponseV::Error {
                        code: ErrorCode::ProtocolError.code_of(),
                        message: version_mismatch_message(version),
                    });
                    assert(handled(s0, rq, sv, nv, self.view(), r@));
                    r
                },
            },
            Request::OpenPath { path, flags } => {
                let r = self.handle_open_path(path, flags, &session_id);
                assert(handled(s0, rq, sv, nv, self.view(), r@));
                r
            },
            Request::OpenAt { dir_fd, path, flags } => {
                let r = self.handle_open_at(dir_fd, path, flags, &session_id);
                assert(handled(s0, rq, sv, nv, self.view(), r@));
                r
            },
            Request::Read { fd, length } => {
                let r = self.handle_read(fd, length);
                assert(handled(s0, rq, sv, nv, self.view(), r@));
                r
            },
            Request::Write { fd, data } => {
                let r = self.handle_write(fd, data, false);
                assert(handled(s0, rq, sv, nv, self.view(), r@));
                r
            },
            Request::AppendWrite { fd, data } => {
                let r = self.handle_write(fd, data, true);
                assert(handled(s0, rq, sv, nv, self.view(), r@));
                r
            },
            Request::Ftruncate { fd, size } => {
                let r = self.handle_ftruncate(fd, size);
                assert(handled(s0, rq, sv, nv, self.view(), r@));
                r
            },
            Request::Close { fd } => {
                let r = self.close_fd(fd);
                assert(handled(s0, rq, sv, nv, self.view(), r@));
                r
            },
            Request::Fsync { fd } => {
                let r = if !self.fd_flags_map.contains_key(&fd) {
                    map_fs_error(FsError::BadFileDescriptor)
                } else {
                    Response::Success
                };
                assert(handled(s0, rq, sv, nv, self.view(), r@));
                r
            },
            Request::Seek { fd, offset, whence } => {
                let r = self.handle_seek(fd, offset, whence);
                assert(handled(s0, rq, sv, nv, self.view(), r@));
                r
            },
            Request::Fstat { fd } => {
                let r = metadata_reply(self.fs.fstat(fd));
                assert(handled(s0, rq, sv, nv, self.view(), r@));
                r
            },
            Request::Stat { path } => {
                let r = metadata_reply(self.fs.stat(path.as_str()));
                assert(handled(s0, rq, sv, nv, self.view(), r@));
                r
            },
            Request::Mkdir { path } => {
                let r = self.handle_mkdir(path.as_str());
                assert(handled(s0, rq, sv, nv, self.view(), r@));
                r
            },
            Request::MkdirP { path } => {
                let r = self.handle_mkdir_p(path.as_str());
                assert(handled(s0, rq, sv, nv, self.view(), r@));
                r
            },
            Request::Unlink { path } => {
                let r = self.handle_unlink(path.as_str());
                assert(handled(s0, rq, sv, nv, self.view(), r@));
                r
            },
            Request::Readdir { path } => {
                let r = self.handle_readdir(path.as_str());
                assert(handled(s0, rq, sv, nv, self.view(), r@));
                r
            },
            Request::ReaddirFd { fd } => {
                let r = self.handle_readdir_fd(fd);
                assert(handled(s0, rq, sv, nv, self.view(), r@));
                r
            },
            Request::Rmdir { path } => {
                let r = self.handle_rmdir(path.as_str());
                assert(handled(s0, rq, sv, nv, self.view(), r@));
                r
            },
            Request::Rename { old_path, new_path } => {
                let r = self.handle_rename(old_path.as_str(), new_path.as_str());
                assert(handled(s0, rq, sv, nv, self.view(), r@));
                r
            },
        };
        assert(handled(s0, rq, sv, nv, self.view(), r@));
        r
    }

    /// The path `fd` was opened with, when known.
    pub fn fd_path(&self, fd: u32) -> (r: Option<String>)
        ensures
            opt_string_view(r) == (if self.view().paths.contains_key(fd) {
                Some(self.view().paths[fd])
            } else {
                None
            }),
    {
        match self.fd_path_map.get(&fd) {
            Some(p) => Some(p.clone()),
            None => None,
        }
    }

    /// The open flags of `fd`, when it was handed out by this server.
    pub fn fd_flags(&self, fd: u32) -> (r: Option<u32>)
        ensures
            r == (if self.view().flags.contains_key(fd) {
                Some(self.view().flags[fd])
            } else {
                None
            }),
    {
        match self.fd_flags_map.get(&fd) {
            Some(f) => Some(*f),
            None => None,
        }
    }

    /// Whether session `sid` is known.
    pub fn has_session(&self, sid: &str) -> (r: bool)
        ensures
            r == self.view().sessions.contains(sid@),
    {
        let key = String::from_str(sid);
        let mut i: usize = 0;
        while i < self.session_fds.len()
            invariant
                i <= self.session_fds@.len(),
                key@ == sid@,
                forall|j: int| 0 <= j < i ==> (#[trigger] self.session_fds@[j]).id@ != sid@,
            decreases self.session_fds@.len() - i,
        {
            if self.session_fds[i].id.eq(&key) {
                return true;
            }
            i = i + 1;
        }
        proof {
            if self.view().sessions.contains(sid@) {
                let j = choose|j: int|
                    0 <= j < self.session_fds@.len() && (#[trigger] self.session_fds@[j]).id@ == sid@;
                assert(self.session_fds@[j].id@ != sid@);
            }
        }
        false
    }

    /// Whether session `sid` opened `fd` and has not closed it.
    pub fn session_has_fd(&self, sid: &str, fd: u32) -> (r: bool)
        ensures
            r == self.view().session_fds.contains((sid@, fd)),
    {
        let key = String::from_str(sid);
        let mut i: usize = 0;
        while i < self.session_fds.len()
            invariant
                i <= self.session_fds@.len(),
                key@ == sid@,
                forall|j: int|
                    0 <= j < i ==> !((#[trigger] self.session_fds@[j]).id@ == sid@
                        && self.session_fds@[j].fds@.contains(fd)),
            decreases self.session_fds@.len() - i,
        {
            if self.session_fds[i].id.eq(&key) {
                let fds = &self.session_fds[i].fds;
                let mut k: usize = 0;
                while k < fds.len()
                    invariant
                        k <= fds@.len(),
                        i < self.session_fds@.len(),
                        fds@ == self.session_fds@[i as int].fds@,
                        self.session_fds@[i as int].id@ == sid@,
                        forall|m: int| 0 <= m < k ==> fds@[m] != fd,
                    decreases fds@.len() - k,
                {
                    if fds[k] == fd {
                        proof {
                            assert(fds@[k as int] == fd);
                            assert(self.session_fds@[i as int].fds@.contains(fd));
                            assert(self.session_fds@[i as int].id@ == sid@);
                        }
                        return true;
                    }
                    k = k + 1;
                }
            }
            i = i + 1;
        }
        proof {
            if self.view().session_fds.contains((sid@, fd)) {
                let j = choose|j: int|
                    0 <= j < self.session_fds@.len() && (#[trigger] self.session_fds@[j]).id@ == sid@
                        && self.session_fds@[j].fds@.contains(fd);
                assert(!(self.session_fds@[j].id@ == sid@ && self.session_fds@[j].fds@.contains(fd)));
            }
        }
        false
    }

    /// Record that `fd` was refreshed from remote storage.
    pub fn mark_refreshed(&mut self, fd: u32)
        requires
            old(self).wf(),
        ensures
            final(self).wf(),
            final(self).view() == (ServerView {
                refreshed: old(self).view().refreshed.insert(fd),
                ..old(self).view()
            }),
    {
        self.s3_refreshed_fds.insert(fd);
    }

    /// Whether `fd` was refreshed from remote storage.
    pub fn is_refreshed(&self, fd: u32) -> (r: bool)
        ensures
            r == self.view().refreshed.contains(fd),
    {
        self.s3_refreshed_fds.contains(&fd)
    }
}

} // verus!
