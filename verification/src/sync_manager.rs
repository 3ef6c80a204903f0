//! The decisions of two-way synchronisation with the object store: when to
//! send pending changes, which remote files to fetch and which local files
//! to drop, and the local side of an upload or a remote deletion.
//! The requests to the object store are made by the caller.

use vstd::prelude::*;
use crate::path::strings_view;
use crate::sync::{MetadataCache, S3Error, S3ObjectInfo, SyncMode, SyncQueue};
use crate::fs::Fs;
use crate::fs_spec::FsView;
use crate::time::TimeProvider;
use crate::types::{FsError, O_APPEND, O_CREAT, O_RDONLY, O_RDWR, O_TRUNC};

verus! {

/// How synchronisation is paced.
#[derive(Debug, Clone, Copy, PartialEq, Eq, Structural)]
pub struct SyncConfig {
    /// Batch or real time.
    pub mode: SyncMode,
    /// Milliseconds between polls of the object store.
    pub poll_interval_ms: u64,
    /// Milliseconds after which waiting changes are sent.
    pub flush_interval_ms: u64,
    /// Most operations sent in one flush; a full batch is sent at once.
    pub outbound_batch_size: usize,
}

impl Default for SyncConfig {
    /// Batches of 10, flushed after 5 s, polls every 30 s.
    fn default() -> (c: SyncConfig)
        ensures
            c.mode == SyncMode::Batch,
            c.poll_interval_ms == 30000,
            c.flush_interval_ms == 5000,
            c.outbound_batch_size == 10,
    {
        SyncConfig {
            mode: SyncMode::Batch,
            poll_interval_ms: 30000,
            flush_interval_ms: 5000,
            outbound_batch_size: 10,
        }
    }
}

impl SyncConfig {
    /// Whether the waiting changes are sent now: a full batch waits, or
    /// some wait and the flush interval has passed since the last flush.
    pub fn should_flush(&self, queue_len: usize, since_flush_ms: u64) -> (r: bool)
        ensures
            r == (queue_len >= self.outbound_batch_size || (queue_len > 0 && since_flush_ms
                >= self.flush_interval_ms)),
    {
        queue_len >= self.outbound_batch_size || (queue_len > 0 && since_flush_ms
            >= self.flush_interval_ms)
    }

    /// Whether the object store is polled now.
    pub fn should_poll(&self, since_poll_ms: u64) -> (r: bool)
        ensures
            r == (since_poll_ms >= self.poll_interval_ms),
    {
        since_poll_ms >= self.poll_interval_ms
    }
}

// ---------------------------------------------------------------------------
// Inbound: what a listing of the object store asks for
// ---------------------------------------------------------------------------

/// Whether the listed object is newer than what was last synchronised: it
/// was never synchronised, or its entity tag changed and it was modified
/// after the local copy.
pub open spec fn remote_is_newer(
    o: S3ObjectInfo,
    cache: Map<Seq<char>, (Seq<char>, u64, u64, u64)>,
) -> bool {
    !cache.contains_key(o.path@) || (o.etag@ != cache[o.path@].0 && o.last_modified
        > cache[o.path@].2)
}

/// Whether the listed object is fetched: it is newer and no upload of its
/// path is pending (a local change wins).
pub open spec fn wants_download(
    o: S3ObjectInfo,
    cache: Map<Seq<char>, (Seq<char>, u64, u64, u64)>,
    queue: Seq<(bool, Seq<char>)>,
) -> bool {
    remote_is_newer(o, cache) && !queue.contains((true, o.path@))
}

/// Whether some listed object has path `p`.
pub open spec fn listed(objects: Seq<S3ObjectInfo>, p: Seq<char>) -> bool {
    exists|k: int| 0 <= k < objects.len() && (#[trigger] objects[k]).path@ == p
}

/// Whether `s` is among the first `k` of `sp`.
pub open spec fn in_prefix(sp: Seq<Seq<char>>, k: int, s: Seq<char>) -> bool {
    exists|m: int| 0 <= m < k && sp[m] == s
}

/// What a poll of the object store leads to.
pub struct InboundPlan {
    /// Positions in the listing of the objects to fetch, in listing order.
    pub downloads: Vec<usize>,
    /// Synchronised paths that are no longer listed: their local files go.
    pub deletions: Vec<String>,
}

/// Whether the listed object is newer than what was last synchronised.
pub fn is_remote_newer(o: &S3ObjectInfo, cache: &MetadataCache) -> (r: bool)
    ensures
        r == remote_is_newer(*o, cache.view()),
{
    match cache.get(o.path.as_str()) {
        None => true,
        Some(meta) => !o.etag.eq(&meta.etag) && o.last_modified > meta.local_modified,
    }
}

/// Whether some listed object has path `p`.
fn is_listed(objects: &Vec<S3ObjectInfo>, p: &String) -> (r: bool)
    ensures
        r == listed(objects@, p@),
{
    let mut k: usize = 0;
    while k < objects.len()
        invariant
            k <= objects@.len(),
            forall|j: int| 0 <= j < k ==> (#[trigger] objects@[j]).path@ != p@,
        decreases objects@.len() - k,
    {
        if objects[k].path.eq(p) {
            return true;
        }
        k = k + 1;
    }
    false
}

/// The plan for a listing of the object store: fetch each listed object
/// that is newer and has no pending upload; drop each synchronised path
/// that is not listed.
pub fn inbound_plan(objects: &Vec<S3ObjectInfo>, cache: &MetadataCache, queue: &SyncQueue) -> (p:
    InboundPlan)
    ensures
        forall|a: int, b: int|
            0 <= a < b < p.downloads@.len() ==> p.downloads@[a] < p.downloads@[b],
        forall|j: int| 0 <= j < p.downloads@.len() ==> p.downloads@[j] < objects@.len(),
        forall|i: int|
            0 <= i < objects@.len() ==> (wants_download(objects@[i], cache.view(), queue.view())
                <==> p.downloads@.contains(i as usize)),
        strings_view(p.deletions@).no_duplicates(),
        strings_view(p.deletions@).to_set() == cache.view().dom().filter(
            |q: Seq<char>| !listed(objects@, q),
        ),
{
    let mut downloads: Vec<usize> = Vec::new();
    let mut i: usize = 0;
    while i < objects.len()
        invariant
            i <= objects@.len(),
            forall|a: int, b: int| 0 <= a < b < downloads@.len() ==> downloads@[a] < downloads@[b],
            forall|j: int| 0 <= j < downloads@.len() ==> downloads@[j] < i,
            forall|k: int|
                0 <= k < i ==> (wants_download(objects@[k], cache.view(), queue.view())
                    <==> downloads@.contains(k as usize)),
        decreases objects@.len() - i,
    {
        let newer = is_remote_newer(&objects[i], cache);
        let ghost before = downloads@;
        if newer && !queue.has_pending_upload(objects[i].path.as_str()) {
            downloads.push(i);
            assert forall|k: int|
                0 <= k < i + 1 implies (wants_download(objects@[k], cache.view(), queue.view())
                <==> downloads@.contains(k as usize)) by {
                if k < i {
                    if before.contains(k as usize) {
                        let j = choose|j: int| 0 <= j < before.len() && before[j] == k as usize;
                        assert(downloads@[j] == k as usize);
                    }
                    if downloads@.contains(k as usize) {
                        let j = choose|j: int| 0 <= j < downloads@.len() && downloads@[j] == k as usize;
                        assert(j < before.len());
                        assert(before[j] == k as usize);
                    }
                } else {
                    assert(downloads@[before.len() as int] == i);
                }
            }
        } else {
            assert(!downloads@.contains(i));
        }
        i = i + 1;
    }
    let paths = cache.paths();
    let ghost sp = strings_view(paths@);
    let mut deletions: Vec<String> = Vec::new();
    let mut k: usize = 0;
    while k < paths.len()
        invariant
            k <= paths@.len(),
            sp == strings_view(paths@),
            sp.no_duplicates(),
            sp.to_set() == cache.view().dom(),
            strings_view(deletions@).no_duplicates(),
            forall|j: int| 0 <= j < deletions@.len() ==> !listed(objects@, #[trigger] deletions@[j]@),
            forall|j: int| 0 <= j < deletions@.len() ==> in_prefix(sp, k as int, #[trigger] deletions@[j]@),
            forall|m: int|
                0 <= m < k && !listed(objects@, #[trigger] sp[m]) ==> strings_view(
                    deletions@,
                ).contains(sp[m]),
        decreases paths@.len() - k,
    {
        if !is_listed(objects, &paths[k]) {
            let ghost before = deletions@;
            let ghost pk = sp[k as int];
            assert(!strings_view(before).contains(pk)) by {
                if strings_view(before).contains(pk) {
                    let j = choose|j: int| 0 <= j < before.len() && strings_view(before)[j] == pk;
                    assert(in_prefix(sp, k as int, before[j]@));
                    let m = choose|m: int| 0 <= m < k && sp[m] == before[j]@;
                    assert(sp[m] == sp[k as int]);
                }
            }
            deletions.push(paths[k].clone());
            assert(strings_view(deletions@) =~= strings_view(before).push(pk));
            assert forall|j: int| 0 <= j < deletions@.len() implies !listed(
                objects@,
                #[trigger] deletions@[j]@,
            ) && in_prefix(sp, k + 1, deletions@[j]@) by {
                if j < before.len() {
                    assert(deletions@[j] == before[j]);
                    assert(in_prefix(sp, k as int, before[j]@));
                } else {
                    assert(sp[k as int] == deletions@[j]@);
                }
            }
            assert forall|m: int|
                0 <= m < k + 1 && !listed(objects@, #[trigger] sp[m]) implies strings_view(
                deletions@,
            ).contains(sp[m]) by {
                if m < k {
                    let j = choose|j: int|
                        0 <= j < strings_view(before).len() && strings_view(before)[j] == sp[m];
                    assert(strings_view(deletions@)[j] == sp[m]);
                } else {
                    assert(strings_view(deletions@)[before.len() as int] == sp[m]);
                }
            }
        } else {
            assert forall|j: int| 0 <= j < deletions@.len() implies in_prefix(
                sp,
                k + 1,
                #[trigger] deletions@[j]@,
            ) by {
                assert(in_prefix(sp, k as int, deletions@[j]@));
            }
        }
        k = k + 1;
    }
    proof {
        let sd = strings_view(deletions@);
        let want = cache.view().dom().filter(|q: Seq<char>| !listed(objects@, q));
        assert forall|q: Seq<char>| sd.to_set().contains(q) <==> want.contains(q) by {
            if sd.contains(q) {
                let j = choose|j: int| 0 <= j < sd.len() && sd[j] == q;
                assert(in_prefix(sp, k as int, deletions@[j]@));
                let m = choose|m: int| 0 <= m < k && sp[m] == deletions@[j]@;
                assert(sp.contains(q));
                assert(sp.to_set().contains(q));
            }
            if want.contains(q) {
                assert(sp.to_set().contains(q));
                let m = choose|m: int| 0 <= m < sp.len() && sp[m] == q;
                assert(!listed(objects@, sp[m]));
            }
        }
        assert(sd.to_set() =~= want);
    }
    InboundPlan { downloads, deletions }
}

// ---------------------------------------------------------------------------
// The local side of synchronisation
// ---------------------------------------------------------------------------

/// The name of a filesystem error, as its debug form writes it.
pub open spec fn fs_error_name(e: FsError) -> Seq<char> {
    match e {
        FsError::NotFound => "NotFound"@,
        FsError::NotADirectory => "NotADirectory"@,
        FsError::IsADirectory => "IsADirectory"@,
        FsError::InvalidArgument => "InvalidArgument"@,
        FsError::BadFileDescriptor => "BadFileDescriptor"@,
        FsError::PermissionDenied => "PermissionDenied"@,
        FsError::AlreadyExists => "AlreadyExists"@,
        FsError::NotEmpty => "NotEmpty"@,
    }
}

/// `what` followed by the name of `e`.
fn failure_text(what: &str, e: FsError) -> (s: String)
    ensures
        s@ == what@ + fs_error_name(e),
{
    let name = match e {
        FsError::NotFound => "NotFound",
        FsError::NotADirectory => "NotADirectory",
        FsError::IsADirectory => "IsADirectory",
        FsError::InvalidArgument => "InvalidArgument",
        FsError::BadFileDescriptor => "BadFileDescriptor",
        FsError::PermissionDenied => "PermissionDenied",
        FsError::AlreadyExists => "AlreadyExists",
        FsError::NotEmpty => "NotEmpty",
    };
    let mut s = String::from_str(what);
    s.append(name);
    s
}

/// Remove the local copy of a file the object store no longer has, and its
/// record. When the filesystem refuses, nothing is forgotten and the error
/// says why.
pub fn delete_local_file<T: TimeProvider>(
    fs: &mut Fs<T>,
    cache: &mut MetadataCache,
    path: &str,
) -> (r: Result<(), S3Error>)
    requires
        old(fs)@.wf(),
    ensures
        final(fs)@.wf(),
        exists|t: u64|
            #![trigger old(fs)@.unlink_op(path@, t)]
            {
                let (s, u) = old(fs)@.unlink_op(path@, t);
                &&& final(fs)@ == s
                &&& match u {
                    Ok(()) => r is Ok && final(cache).view() == old(cache).view().remove(path@),
                    Err(e) => final(cache).view() == old(cache).view() && (r matches Err(
                        S3Error::Delete { key, message },
                    ) && key@ == path@ && message@ == "Failed to unlink: "@ + fs_error_name(e)),
                }
            },
{
    let ghost s0 = fs@;
    let u = fs.unlink(path);
    let ghost t = choose|t: u64| #[trigger] s0.unlink_op(path@, t) == (fs@, u);
    assert(s0.unlink_op(path@, t) == (fs@, u));
    match u {
        Ok(()) => {
            cache.remove(path);
            Ok(())
        },
        Err(e) => Err(
            S3Error::Delete { key: String::from_str(path), message: failure_text("Failed to unlink: ", e) },
        ),
    }
}

/// The parent of `path` as `std::path::Path::parent` computes it.
pub uninterp spec fn std_path_parent(path: Seq<char>) -> Option<Seq<char>>;

/// `std::path::Path::parent` of `path`, as text; `None` where the path has
/// no parent (it is empty or ends in a root).
#[verifier::external_body]
fn path_parent(path: &str) -> (r: Option<String>)
    ensures
        match r {
            Some(p) => std_path_parent(path@) == Some(p@),
            None => std_path_parent(path@) is None,
        },
{
    match std::path::Path::new(path).parent() {
        Some(p) => Some(p.to_string_lossy().into_owned()),
        None => None,
    }
}

/// The directory whose missing ancestors an incoming file needs: its
/// parent, unless that is empty or the root.
pub open spec fn parent_to_create(parent: Option<Seq<char>>) -> Option<Seq<char>> {
    match parent {
        Some(p) => if p.len() == 0 || p == "/"@ {
            None
        } else {
            Some(p)
        },
        None => None,
    }
}

/// What storing a downloaded file at `path` does to the filesystem and
/// gives: create the missing directories of `parent` (its failure is
/// ignored), open `path` for reading and writing, created and truncated,
/// write `content`, close it. A failing open or write ends it with the step
/// and the error named. `ts`, `t1`, `t2` and `t3` are the timestamps the
/// steps record.
pub open spec fn write_content_op(
    s: FsView,
    path: Seq<char>,
    parent: Option<Seq<char>>,
    content: Seq<u8>,
    ts: Seq<u64>,
    t1: u64,
    t2: u64,
    t3: u64,
) -> (FsView, Result<(), Seq<char>>) {
    let s1 = match parent_to_create(parent) {
        Some(p) => s.mkdir_p_op(p, ts).0,
        None => s,
    };
    let (s2, ro) = s1.open_path_op(path, O_RDWR | O_CREAT | O_TRUNC, t1, t2);
    match ro {
        Err(e) => (s2, Err("Failed to open: "@ + fs_error_name(e))),
        Ok(fd) => {
            let (s3, w) = s2.write_op(fd, content, t3);
            match w {
                Err(e) => (s3, Err("Failed to write: "@ + fs_error_name(e))),
                Ok(_) => (s3.close_op(fd).0, Ok(())),
            }
        },
    }
}

/// Store a downloaded file: create the missing directories above `path`,
/// open it created and truncated, write `content`, close it.
pub fn write_file_content<T: TimeProvider>(fs: &mut Fs<T>, path: &str, content: &[u8]) -> (r: Result<
    (),
    S3Error,
>)
    requires
        old(fs)@.wf(),
    ensures
        final(fs)@.wf(),
        exists|ts: Seq<u64>, t1: u64, t2: u64, t3: u64|
            #![trigger write_content_op(old(fs)@, path@, std_path_parent(path@), content@, ts, t1, t2, t3)]
            {
                let (s, c) = write_content_op(
                    old(fs)@,
                    path@,
                    std_path_parent(path@),
                    content@,
                    ts,
                    t1,
                    t2,
                    t3,
                );
                &&& final(fs)@ == s
                &&& match c {
                    Ok(()) => r is Ok,
                    Err(text) => r matches Err(S3Error::Write { key, message }) && key@ == path@
                        && message@ == text,
                }
            },
{
    let ghost s0 = fs@;
    let parent = path_parent(path);
    let ghost par = std_path_parent(path@);
    let ghost mut ts: Seq<u64> = seq![];
    match parent {
        Some(p) => {
            let root = String::from_str("/");
            if !(p.as_str().is_empty() || p.eq(&root)) {
                proof {
                    reveal_strlit("/");
                }
                let mr = fs.mkdir_p(p.as_str());
                proof {
                    ts = choose|ts: Seq<u64>| #[trigger] s0.mkdir_p_op(p@, ts) == (fs@, mr);
                    assert(par == Some(p@));
                    assert(p@.len() > 0 && p@ != "/"@);
                }
            } else {
                proof {
                    reveal_strlit("/");
                    assert(par == Some(p@));
                }
            }
        },
        None => {},
    }
    let ghost s1 = fs@;
    assert(s1 == match parent_to_create(par) {
        Some(q) => s0.mkdir_p_op(q, ts).0,
        None => s0,
    });
    let flags = O_RDWR | O_CREAT | O_TRUNC;
    let ro = fs.open_path_with_flags(path, flags);
    let ghost (t1, t2) = choose|t1: u64, t2: u64| #[trigger] s1.open_path_op(path@, flags, t1, t2) == (fs@, ro);
    let fd = match ro {
        Ok(fd) => fd,
        Err(e) => {
            let r = Err(S3Error::Write { key: String::from_str(path), message: failure_text("Failed to open: ", e) });
            assert(write_content_op(s0, path@, par, content@, ts, t1, t2, 0).0 == fs@);
            return r;
        },
    };
    let ghost s2 = fs@;
    proof {
        lemma_open_handle_fresh(s1, path@, flags, t1, t2);
        assert(flags & O_APPEND == 0) by (bit_vector)
            requires
                flags == O_RDWR | O_CREAT | O_TRUNC,
        ;
    }
    let n = content.len();
    assert(fs@.fds.contains_key(fd));
    assert(fs@.fds[fd].position == 0);
    assert(fs@.fds[fd].flags == flags);
    assert(!crate::fs_spec::has_flag(fs@.fds[fd].flags, O_APPEND));
    assert(fs@.write_pos(fd) == 0);
    assert(content@.len() == n);
    let w = fs.write(fd, content);
    let ghost t3 = choose|t3: u64| #[trigger] s2.write_op(fd, content@, t3) == (fs@, w);
    match w {
        Ok(_) => {},
        Err(e) => {
            let r = Err(S3Error::Write { key: String::from_str(path), message: failure_text("Failed to write: ", e) });
            assert(write_content_op(s0, path@, par, content@, ts, t1, t2, t3).0 == fs@);
            return r;
        },
    }
    let _ = fs.close(fd);
    assert(write_content_op(s0, path@, par, content@, ts, t1, t2, t3).0 == fs@);
    Ok(())
}

/// A descriptor an open hands out starts at position 0.
proof fn lemma_open_handle_fresh(s: FsView, path: Seq<char>, flags: u32, t1: u64, t2: u64)
    ensures
        s.open_path_op(path, flags, t1, t2).1 matches Ok(fd) ==> s.open_path_op(
            path,
            flags,
            t1,
            t2,
        ).0.fds.contains_key(fd) && s.open_path_op(path, flags, t1, t2).0.fds[fd].position == 0
            && s.open_path_op(path, flags, t1, t2).0.fds[fd].flags == flags,
{
    let comps = crate::path::components(path);
    if path.len() > 0 && comps.len() > 0 && s.inodes.contains_key(s.root) {
        match s.walk_dirs(s.root, comps.drop_last()) {
            Err(_) => {},
            Ok(p) => {
                let name = comps.last();
                let (s1, found) = match s.find(p, name) {
                    Ok(c) => (s, Ok::<u64, FsError>(c)),
                    Err(e) => if e == FsError::NotFound && crate::fs_spec::has_flag(flags, O_CREAT) {
                        s.create_op(p, name, false, t1)
                    } else {
                        (s, Err(e))
                    },
                };
                assert(s.open_from(s.root, comps, flags, t1, t2).1 matches Ok(fd) ==> s.open_from(
                    s.root,
                    comps,
                    flags,
                    t1,
                    t2,
                ).0.fds[fd].position == 0);
            },
        }
    }
}

/// What reading the whole file at `path` does to the filesystem and gives:
/// open it for reading, take its size, read that many bytes from the
/// start, close it. A failing step ends it with the step and the error
/// named (a descriptor opened before stays open).
pub open spec fn read_content_op(s: FsView, path: Seq<char>, t1: u64, t2: u64) -> (
    FsView,
    Result<Seq<u8>, Seq<char>>,
) {
    let (s1, ro) = s.open_path_op(path, O_RDONLY, t1, t2);
    match ro {
        Err(e) => (s1, Err("Failed to open: "@ + fs_error_name(e))),
        Ok(fd) => match s1.fstat_op(fd) {
            Err(e) => (s1, Err("Failed to stat: "@ + fs_error_name(e))),
            Ok(m) => {
                let (s2, out, rr) = s1.read_op(
                    fd,
                    Seq::new((m.size as usize) as nat, |i: int| 0u8),
                );
                match rr {
                    Err(e) => (s2, Err("Failed to read: "@ + fs_error_name(e))),
                    Ok(_) => (s2.close_op(fd).0, Ok(out)),
                }
            },
        },
    }
}

/// Read the whole file at `path` for an upload.
pub fn read_file_content<T: TimeProvider>(fs: &mut Fs<T>, path: &str) -> (r: Result<
    Vec<u8>,
    S3Error,
>)
    requires
        old(fs)@.wf(),
    ensures
        exists|t1: u64, t2: u64|
            #![trigger read_content_op(old(fs)@, path@, t1, t2)]
            {
                let (s, c) = read_content_op(old(fs)@, path@, t1, t2);
                &&& final(fs)@ == s
                &&& match c {
                    Ok(data) => r matches Ok(v) && v@ == data,
                    Err(text) => r matches Err(S3Error::Read { key, message }) && key@ == path@
                        && message@ == text,
                }
            },
{
    let ghost s0 = fs@;
    let ro = fs.open_path_with_flags(path, O_RDONLY);
    let ghost (t1, t2) = choose|t1: u64, t2: u64| #[trigger] s0.open_path_op(path@, O_RDONLY, t1, t2) == (fs@, ro);
    assert(s0.open_path_op(path@, O_RDONLY, t1, t2) == (fs@, ro));
    let ghost s1 = fs@;
    let fd = match ro {
        Ok(fd) => fd,
        Err(e) => {
            let r = Err(S3Error::Read { key: String::from_str(path), message: failure_text("Failed to open: ", e) });
            assert(read_content_op(s0, path@, t1, t2).0 == fs@);
            return r;
        },
    };
    let size = match fs.fstat(fd) {
        Ok(m) => {
            #[verifier::truncate]
            (m.size as usize)
        },
        Err(e) => {
            let r = Err(S3Error::Read { key: String::from_str(path), message: failure_text("Failed to stat: ", e) });
            assert(read_content_op(s0, path@, t1, t2).0 == fs@);
            return r;
        },
    };
    let mut content = vec![0u8; size];
    assert(content@ =~= Seq::new(size as nat, |i: int| 0u8));
    let rr = fs.read(fd, &mut content);
    match rr {
        Ok(_) => {},
        Err(e) => {
            let r = Err(S3Error::Read { key: String::from_str(path), message: failure_text("Failed to read: ", e) });
            assert(read_content_op(s0, path@, t1, t2).0 == fs@);
            return r;
        },
    }
    let _ = fs.close(fd);
    assert(read_content_op(s0, path@, t1, t2) == (fs@, Ok::<Seq<u8>, Seq<char>>(content@)));
    Ok(content)
}

} // verus!
