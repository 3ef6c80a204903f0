//! Bookkeeping for mirroring the filesystem to an object store: the queue of
//! pending uploads and deletions, the cache of what was last synchronised,
//! object keys, and how a large upload is cut into parts.

use vstd::prelude::*;

verus! {

// ---------------------------------------------------------------------------
// Pending operations
// ---------------------------------------------------------------------------

/// An operation waiting to be sent to the object store.
#[derive(Debug, Clone)]
pub enum SyncOperation {
    Upload { path: String },
    Delete { path: String },
}

/// An operation as whether it uploads and the path it is about.
pub open spec fn op_view(op: SyncOperation) -> (bool, Seq<char>) {
    match op {
        SyncOperation::Upload { path } => (true, path@),
        SyncOperation::Delete { path } => (false, path@),
    }
}

/// The operations of a queue as views.
pub open spec fn ops_view(ops: Seq<SyncOperation>) -> Seq<(bool, Seq<char>)> {
    ops.map_values(|op: SyncOperation| op_view(op))
}

/// The operations that are not about `path`, in order.
pub open spec fn without_path(ops: Seq<(bool, Seq<char>)>, path: Seq<char>) -> Seq<(bool, Seq<char>)>
    decreases ops.len(),
{
    if ops.len() == 0 {
        seq![]
    } else if ops.last().1 == path {
        without_path(ops.drop_last(), path)
    } else {
        without_path(ops.drop_last(), path).push(ops.last())
    }
}

/// The number of operations about `path`.
pub open spec fn path_count(ops: Seq<(bool, Seq<char>)>, path: Seq<char>) -> nat
    decreases ops.len(),
{
    if ops.len() == 0 {
        0
    } else if ops.last().1 == path {
        path_count(ops.drop_last(), path) + 1
    } else {
        path_count(ops.drop_last(), path)
    }
}

/// No two operations are about the same path.
pub open spec fn paths_unique(ops: Seq<(bool, Seq<char>)>) -> bool {
    forall|i: int, j: int| 0 <= i < j < ops.len() ==> (#[trigger] ops[i]).1 != (#[trigger] ops[j]).1
}

/// Dropping the operations on `path` takes away exactly those.
pub proof fn lemma_without_path_len(ops: Seq<(bool, Seq<char>)>, path: Seq<char>)
    ensures
        without_path(ops, path).len() + path_count(ops, path) == ops.len(),
    decreases ops.len(),
{
    if ops.len() > 0 {
        lemma_without_path_len(ops.drop_last(), path);
    }
}

/// Dropping the operations on a path keeps the paths unique.
pub proof fn lemma_without_path_unique(ops: Seq<(bool, Seq<char>)>, path: Seq<char>)
    requires
        paths_unique(ops),
    ensures
        paths_unique(without_path(ops, path)),
    decreases ops.len(),
{
    if ops.len() > 0 {
        let d = ops.drop_last();
        assert(paths_unique(d)) by {
            assert forall|i: int, j: int| 0 <= i < j < d.len() implies (#[trigger] d[i]).1 != (
            #[trigger] d[j]).1 by {
                assert(d[i] == ops[i] && d[j] == ops[j]);
            }
        }
        lemma_without_path_unique(d, path);
        lemma_without_path(d, path);
        let w = without_path(d, path);
        let last = ops.last();
        if last.1 != path {
            assert forall|i: int, j: int| 0 <= i < j < w.push(last).len() implies (#[trigger] w.push(
                last,
            )[i]).1 != (#[trigger] w.push(last)[j]).1 by {
                if j == w.len() {
                    let e = w[i];
                    assert(w.contains(e));
                    if e.1 == last.1 {
                        assert(d.contains(e));
                        let k = choose|k: int| 0 <= k < d.len() && d[k] == e;
                        assert(ops[k] == e);
                        assert(ops[ops.len() - 1] == last);
                    }
                } else {
                    assert(w.push(last)[i] == w[i] && w.push(last)[j] == w[j]);
                }
            }
        }
    }
}

/// The queue of pending operations, oldest first. A path has at most one
/// pending operation: a new one replaces any older one.
pub struct SyncQueue {
    ops: Vec<SyncOperation>,
}

impl SyncQueue {
    /// The pending operations, oldest first.
    pub closed spec fn view(&self) -> Seq<(bool, Seq<char>)> {
        ops_view(self.ops@)
    }

    /// Each path has at most one pending operation.
    #[verifier::type_invariant]
    spec fn one_op_per_path(&self) -> bool {
        paths_unique(ops_view(self.ops@))
    }

    /// An empty queue.
    pub fn new() -> (q: Self)
        ensures
            q.view() == Seq::<(bool, Seq<char>)>::empty(),
            paths_unique(q.view()),
    {
        let q = SyncQueue { ops: Vec::new() };
        assert(q.view() =~= Seq::<(bool, Seq<char>)>::empty());
        q
    }

    /// Drop the pending operations on `path`.
    fn drop_path(&mut self, path: &String)
        ensures
            final(self).view() == without_path(old(self).view(), path@),
    {
        proof {
            use_type_invariant(&*self);
        }
        let ghost v0 = self.view();
        let mut out: Vec<SyncOperation> = Vec::new();
        let mut i: usize = 0;
        while i < self.ops.len()
            invariant
                i <= self.ops@.len(),
                v0 == ops_view(self.ops@),
                ops_view(out@) == without_path(v0.take(i as int), path@),
            decreases self.ops@.len() - i,
        {
            let (upload, p) = match &self.ops[i] {
                SyncOperation::Upload { path } => (true, path),
                SyncOperation::Delete { path } => (false, path),
            };
            let ghost before = out@;
            if !p.eq(path) {
                let op = if upload {
                    SyncOperation::Upload { path: p.clone() }
                } else {
                    SyncOperation::Delete { path: p.clone() }
                };
                out.push(op);
                assert(ops_view(out@) =~= ops_view(before).push(v0[i as int]));
            }
            assert(v0.take(i + 1).drop_last() =~= v0.take(i as int));
            i = i + 1;
        }
        assert(v0.take(self.ops@.len() as int) =~= v0);
        proof {
            lemma_without_path_unique(v0, path@);
        }
        self.ops = out;
    }

    /// Queue an upload of `path`, replacing any pending operation on it.
    pub fn enqueue_upload(&mut self, path: String)
        ensures
            final(self).view() == without_path(old(self).view(), path@).push((true, path@)),
            paths_unique(final(self).view()),
            final(self).view().len() == old(self).view().len() - path_count(old(self).view(), path@)
                + 1,
    {
        proof {
            use_type_invariant(&*self);
            lemma_without_path_len(self.view(), path@);
        }
        self.drop_path(&path);
        proof {
            use_type_invariant(&*self);
            lemma_without_path(old(self).view(), path@);
        }
        let ghost before = self.ops@;
        let ghost p = path@;
        let ghost w = self.view();
        assert forall|i: int, j: int| 0 <= i < j < w.push((true, p)).len() implies (#[trigger] w.push(
            (true, p),
        )[i]).1 != (#[trigger] w.push((true, p))[j]).1 by {
            if j < w.len() {
                assert(w.push((true, p))[i] == w[i] && w.push((true, p))[j] == w[j]);
            } else {
                assert(w.push((true, p))[i] == w[i]);
            }
        }
        let mut ops: Vec<SyncOperation> = Vec::new();
        std::mem::swap(&mut ops, &mut self.ops);
        ops.push(SyncOperation::Upload { path });
        assert(ops@ == before.push(ops@.last()));
        assert(ops_view(ops@) =~= w.push((true, p)));
        self.ops = ops;
    }

    /// Queue a deletion of `path`, replacing any pending operation on it.
    pub fn enqueue_delete(&mut self, path: String)
        ensures
            final(self).view() == without_path(old(self).view(), path@).push((false, path@)),
            paths_unique(final(self).view()),
            final(self).view().len() == old(self).view().len() - path_count(old(self).view(), path@)
                + 1,
    {
        proof {
            use_type_invariant(&*self);
            lemma_without_path_len(self.view(), path@);
        }
        self.drop_path(&path);
        proof {
            use_type_invariant(&*self);
            lemma_without_path(old(self).view(), path@);
        }
        let ghost before = self.ops@;
        let ghost p = path@;
        let ghost w = self.view();
        assert forall|i: int, j: int| 0 <= i < j < w.push((false, p)).len() implies (#[trigger] w.push(
            (false, p),
        )[i]).1 != (#[trigger] w.push((false, p))[j]).1 by {
            if j < w.len() {
                assert(w.push((false, p))[i] == w[i] && w.push((false, p))[j] == w[j]);
            } else {
                assert(w.push((false, p))[i] == w[i]);
            }
        }
        let mut ops: Vec<SyncOperation> = Vec::new();
        std::mem::swap(&mut ops, &mut self.ops);
        ops.push(SyncOperation::Delete { path });
        assert(ops@ == before.push(ops@.last()));
        assert(ops_view(ops@) =~= w.push((false, p)));
        self.ops = ops;
    }

    /// The number of pending operations.
    pub fn pending_count(&self) -> (n: usize)
        ensures
            n == self.view().len(),
    {
        self.ops.len()
    }

    /// Whether an upload of `path` is pending.
    pub fn has_pending_upload(&self, path: &str) -> (r: bool)
        ensures
            r == self.view().contains((true, path@)),
    {
        let key = String::from_str(path);
        let mut i: usize = 0;
        while i < self.ops.len()
            invariant
                i <= self.ops@.len(),
                key@ == path@,
                forall|j: int| 0 <= j < i ==> self.view()[j] != (true, path@),
            decreases self.ops@.len() - i,
        {
            match &self.ops[i] {
                SyncOperation::Upload { path: p } => {
                    if p.eq(&key) {
                        assert(self.view()[i as int] == (true, path@));
                        return true;
                    }
                },
                SyncOperation::Delete { .. } => {},
            }
            i = i + 1;
        }
        false
    }

    /// Take the oldest pending operation.
    pub fn pop_front(&mut self) -> (op: Option<SyncOperation>)
        ensures
            old(self).view().len() == 0 ==> op is None && final(self).view() == old(self).view(),
            old(self).view().len() > 0 ==> (op matches Some(o) && op_view(o) == old(self).view()[0]
                && final(self).view() == old(self).view().drop_first()),
            paths_unique(final(self).view()),
    {
        proof {
            use_type_invariant(&*self);
        }
        if self.ops.len() == 0 {
            return None;
        }
        let ghost v0 = self.ops@;
        assert(ops_view(v0.remove(0)) =~= ops_view(v0).drop_first());
        let mut ops: Vec<SyncOperation> = Vec::new();
        std::mem::swap(&mut ops, &mut self.ops);
        let o = ops.remove(0);
        self.ops = ops;
        assert(ops_view(self.ops@) =~= ops_view(v0).drop_first());
        Some(o)
    }
}

/// After a path was queued, it has exactly one pending operation, the
/// last, and the operations on other paths keep their order.
pub proof fn lemma_without_path(ops: Seq<(bool, Seq<char>)>, path: Seq<char>)
    ensures
        forall|i: int|
            0 <= i < without_path(ops, path).len() ==> (#[trigger] without_path(ops, path)[i]).1
                != path,
        forall|e: (bool, Seq<char>)|
            e.1 != path ==> (without_path(ops, path).contains(e) <==> ops.contains(e)),
    decreases ops.len(),
{
    if ops.len() > 0 {
        lemma_without_path(ops.drop_last(), path);
        let w = without_path(ops.drop_last(), path);
        assert forall|e: (bool, Seq<char>)| e.1 != path implies (without_path(ops, path).contains(
            e,
        ) <==> ops.contains(e)) by {
            if ops.contains(e) {
                let j = choose|j: int| 0 <= j < ops.len() && ops[j] == e;
                if j < ops.len() - 1 {
                    assert(ops.drop_last()[j] == e);
                }
            }
            if ops.drop_last().contains(e) {
                let j = choose|j: int| 0 <= j < ops.drop_last().len() && ops.drop_last()[j] == e;
                assert(ops[j] == e);
            }
            if ops.last().1 != path {
                if w.push(ops.last()).contains(e) {
                    let j = choose|j: int| 0 <= j < w.push(ops.last()).len() && w.push(ops.last())[j]
                        == e;
                    if j < w.len() {
                        assert(w[j] == e);
                    }
                }
                if w.contains(e) {
                    let j = choose|j: int| 0 <= j < w.len() && w[j] == e;
                    assert(w.push(ops.last())[j] == e);
                }
                if e == ops.last() {
                    assert(w.push(ops.last())[w.len() as int] == e);
                }
            }
        }
    }
}

// ---------------------------------------------------------------------------
// How often to synchronise
// ---------------------------------------------------------------------------

/// When changes are sent: collected and sent in batches, or right away.
#[derive(Debug, Clone, Copy, PartialEq, Eq, Structural)]
pub enum SyncMode {
    Batch,
    RealTime,
}

impl SyncMode {
    /// The mode a setting names: `realtime`, `real-time` or `immediate`
    /// select sending right away, anything else batches.
    pub fn from_setting(value: Option<&str>) -> (m: SyncMode)
        ensures
            m == (if value matches Some(v) && (v@ == "realtime"@ || v@ == "real-time"@ || v@
                == "immediate"@) {
                SyncMode::RealTime
            } else {
                SyncMode::Batch
            }),
    {
        match value {
            Some(v) => {
                let s = String::from_str(v);
                if s.eq(&String::from_str("realtime")) || s.eq(&String::from_str("real-time"))
                    || s.eq(&String::from_str("immediate")) {
                    SyncMode::RealTime
                } else {
                    SyncMode::Batch
                }
            },
            None => SyncMode::Batch,
        }
    }
}

impl Default for SyncMode {
    fn default() -> (m: SyncMode)
        ensures
            m == SyncMode::Batch,
    {
        SyncMode::Batch
    }
}

/// Counts of what one poll of the object store changed locally.
#[derive(Debug, Clone, Copy, PartialEq, Eq, Structural)]
pub struct SyncStats {
    pub downloaded: usize,
    pub deleted: usize,
}

impl Default for SyncStats {
    fn default() -> (s: SyncStats)
        ensures
            s.downloaded == 0 && s.deleted == 0,
    {
        SyncStats { downloaded: 0, deleted: 0 }
    }
}

// ---------------------------------------------------------------------------
// Objects and errors
// ---------------------------------------------------------------------------

/// A file as the object store lists it.
#[derive(Debug, Clone)]
pub struct S3ObjectInfo {
    pub path: String,
    pub etag: String,
    pub last_modified: u64,
    pub size: u64,
}

/// A failed request to the object store.
#[derive(Debug, Clone)]
pub enum S3Error {
    Read { key: String, message: String },
    Write { key: String, message: String },
    Delete { key: String, message: String },
}

/// The text of an object store error.
pub open spec fn s3_error_text(e: S3Error) -> Seq<char> {
    match e {
        S3Error::Read { key, message } => "S3 read error for "@ + key@ + ": "@ + message@,
        S3Error::Write { key, message } => "S3 write error for "@ + key@ + ": "@ + message@,
        S3Error::Delete { key, message } => "S3 delete error for "@ + key@ + ": "@ + message@,
    }
}

impl S3Error {
    /// The text of the error.
    pub fn message(&self) -> (s: String)
        ensures
            s@ == s3_error_text(*self),
    {
        let (head, key, message) = match self {
            S3Error::Read { key, message } => ("S3 read error for ", key, message),
            S3Error::Write { key, message } => ("S3 write error for ", key, message),
            S3Error::Delete { key, message } => ("S3 delete error for ", key, message),
        };
        let mut s = String::from_str(head);
        s.append(key.as_str());
        s.append(": ");
        s.append(message.as_str());
        s
    }
}

/// A failure while loading the filesystem from the object store.
#[derive(Debug, Clone)]
pub enum LoadError {
    S3 { source: S3Error },
    Fs { message: String },
}

/// The text of a loading error.
pub open spec fn load_error_text(e: LoadError) -> Seq<char> {
    match e {
        LoadError::S3 { source } => "S3 error: "@ + s3_error_text(source),
        LoadError::Fs { message } => "Filesystem error: "@ + message@,
    }
}

impl LoadError {
    /// The text of the error.
    pub fn message(&self) -> (s: String)
        ensures
            s@ == load_error_text(*self),
    {
        match self {
            LoadError::S3 { source } => {
                let mut s = String::from_str("S3 error: ");
                s.append(source.message().as_str());
                s
            },
            LoadError::Fs { message } => {
                let mut s = String::from_str("Filesystem error: ");
                s.append(message.as_str());
                s
            },
        }
    }
}

// ---------------------------------------------------------------------------
// Object keys
// ---------------------------------------------------------------------------

/// `s` without its leading `/` characters.
pub open spec fn trim_start_slashes(s: Seq<char>) -> Seq<char> {
    crate::path::trim_leading_slashes(s)
}

/// The key of `path` under `prefix`: the prefix, then the path without its
/// leading slashes.
pub open spec fn object_key_spec(prefix: Seq<char>, path: Seq<char>) -> Seq<char> {
    prefix + trim_start_slashes(path)
}

/// The key of `path` under `prefix`.
pub fn object_key(prefix: &str, path: &str) -> (k: String)
    ensures
        k@ == object_key_spec(prefix@, path@),
{
    let cs = crate::path::str_chars(path);
    let i = crate::path::first_non_slash(&cs);
    let tail = crate::path::string_from_chars(&cs, i, cs.len());
    let mut k = String::from_str(prefix);
    k.append(tail.as_str());
    k
}

/// The key of the contents of file `path` under `prefix`: the file's path
/// below `files`.
pub fn file_key(prefix: &str, path: &str) -> (k: String)
    ensures
        k@ == object_key_spec(prefix@, "files"@ + path@),
{
    let mut p = String::from_str("files");
    p.append(path);
    object_key(prefix, p.as_str())
}

/// The path of the file whose contents are stored under `key`: the key
/// without the files prefix, or the key itself when it lacks that prefix.
pub open spec fn path_of_key(files_prefix: Seq<char>, key: Seq<char>) -> Seq<char> {
    if files_prefix.len() <= key.len() && key.subrange(0, files_prefix.len() as int) == files_prefix {
        key.subrange(files_prefix.len() as int, key.len() as int)
    } else {
        key
    }
}

/// The path of the file whose contents are stored under `key`.
pub fn path_from_key(files_prefix: &str, key: &str) -> (p: String)
    ensures
        p@ == path_of_key(files_prefix@, key@),
{
    let pc = crate::path::str_chars(files_prefix);
    let kc = crate::path::str_chars(key);
    if pc.len() > kc.len() {
        return String::from_str(key);
    }
    let mut i: usize = 0;
    while i < pc.len()
        invariant
            pc@ == files_prefix@,
            kc@ == key@,
            pc@.len() <= kc@.len(),
            i <= pc@.len(),
            forall|j: int| 0 <= j < i ==> pc@[j] == kc@[j],
        decreases pc@.len() - i,
    {
        if pc[i] != kc[i] {
            assert(key@.subrange(0, files_prefix@.len() as int)[i as int] != files_prefix@[i as int]);
            return String::from_str(key);
        }
        i = i + 1;
    }
    assert(key@.subrange(0, files_prefix@.len() as int) =~= files_prefix@);
    crate::path::string_from_chars(&kc, pc.len(), kc.len())
}

/// An entity tag without the double quotes around it.
pub open spec fn trim_quotes(s: Seq<char>) -> Seq<char>
    decreases s.len(),
{
    if s.len() > 0 && s[0] == '"' {
        trim_quotes(s.drop_first())
    } else if s.len() > 0 && s.last() == '"' {
        trim_quotes(s.drop_last())
    } else {
        s
    }
}

/// An entity tag without the double quotes around it.
pub fn trim_etag(etag: &str) -> (r: String)
    ensures
        r@ == trim_quotes(etag@),
{
    let cs = crate::path::str_chars(etag);
    let mut a: usize = 0;
    let mut b: usize = cs.len();
    assert(cs@.subrange(0, cs@.len() as int) =~= cs@);
    while a < b && (cs[a] == '"' || cs[b - 1] == '"')
        invariant
            a <= b <= cs@.len(),
            cs@ == etag@,
            trim_quotes(etag@) == trim_quotes(cs@.subrange(a as int, b as int)),
        decreases b - a,
    {
        let ghost s = cs@.subrange(a as int, b as int);
        if cs[a] == '"' {
            assert(s.drop_first() =~= cs@.subrange(a + 1, b as int));
            a = a + 1;
        } else {
            assert(s.drop_last() =~= cs@.subrange(a as int, b - 1));
            b = b - 1;
        }
    }
    crate::path::string_from_chars(&cs, a, b)
}

/// The file a listing entry of the object store stands for: its path
/// below the files prefix, its entity tag without quotes, its size and its
/// modification time in seconds (0 when missing). An entry without a key,
/// an entity tag or a size is skipped (`None`).
pub fn object_info(
    files_prefix: &str,
    key: Option<&str>,
    etag: Option<&str>,
    size: Option<i64>,
    last_modified_secs: Option<i64>,
) -> (r: Option<S3ObjectInfo>)
    ensures
        match (key, etag, size) {
            (Some(k), Some(e), Some(n)) => r matches Some(o) && o.path@ == path_of_key(
                files_prefix@,
                k@,
            ) && o.etag@ == trim_quotes(e@) && o.size == n as u64 && o.last_modified == match last_modified_secs {
                Some(t) => t as u64,
                None => 0,
            },
            _ => r is None,
        },
{
    match (key, etag, size) {
        (Some(k), Some(e), Some(n)) => {
            let last_modified: u64 = match last_modified_secs {
                Some(t) => {
                    #[verifier::truncate]
                    (t as u64)
                },
                None => 0,
            };
            #[verifier::truncate]
            let size: u64 = n as u64;
            Some(
                S3ObjectInfo {
                    path: path_from_key(files_prefix, k),
                    etag: trim_etag(e),
                    last_modified,
                    size,
                },
            )
        },
        _ => None,
    }
}

/// Whether `needle` occurs in `text` at position `i`.
pub open spec fn occurs_at(text: Seq<char>, needle: Seq<char>, i: int) -> bool {
    0 <= i && i + needle.len() <= text.len() && text.subrange(i, i + needle.len()) == needle
}

/// Whether `needle` occurs in `text`.
pub open spec fn occurs_in(text: Seq<char>, needle: Seq<char>) -> bool {
    exists|i: int| occurs_at(text, needle, i)
}

/// Whether `needle` occurs in `text`.
fn contains_text(text: &Vec<char>, needle: &Vec<char>) -> (r: bool)
    ensures
        r == occurs_in(text@, needle@),
{
    if needle.len() > text.len() {
        assert forall|i: int| !occurs_at(text@, needle@, i) by {}
        return false;
    }
    let last = text.len() - needle.len();
    let mut i: usize = 0;
    while i <= last
        invariant
            last == text@.len() - needle@.len(),
            forall|j: int| 0 <= j < i ==> !occurs_at(text@, needle@, j),
        decreases last + 1 - i,
    {
        let mut k: usize = 0;
        let n = needle.len();
        let tl = text.len();
        while k < n
            invariant
                i <= last,
                last == text@.len() - needle@.len(),
                n == needle@.len(),
                tl == text@.len(),
                k <= n,
                forall|m: int| 0 <= m < k ==> text@[i + m] == needle@[m],
            ensures
                k <= n,
                forall|m: int| 0 <= m < k ==> text@[i + m] == needle@[m],
                k < n ==> text@[i + k] != needle@[k as int],
            decreases n - k,
        {
            if text[i + k] != needle[k] {
                break;
            }
            k = k + 1;
        }
        if k == needle.len() {
            assert(text@.subrange(i as int, i + needle@.len()) =~= needle@);
            assert(occurs_at(text@, needle@, i as int));
            return true;
        }
        assert(text@.subrange(i as int, i + needle@.len())[k as int] != needle@[k as int]);
        if i == last {
            assert forall|j: int| !occurs_at(text@, needle@, j) by {
                if 0 <= j < i {
                } else if j == i {
                } else if occurs_at(text@, needle@, j) {
                    assert(j + needle@.len() > text@.len());
                }
            }
            return false;
        }
        i = i + 1;
    }
    assert forall|j: int| !occurs_at(text@, needle@, j) by {
        if occurs_at(text@, needle@, j) && j >= i {
            assert(j + needle@.len() > text@.len());
        }
    }
    false
}

/// Whether the text of a failed fetch says the object does not exist: it
/// mentions `NoSuchKey` or `404`.
pub fn is_missing_object(error_text: &str) -> (r: bool)
    ensures
        r == (occurs_in(error_text@, "NoSuchKey"@) || occurs_in(error_text@, "404"@)),
{
    let t = crate::path::str_chars(error_text);
    let a = crate::path::str_chars("NoSuchKey");
    let b = crate::path::str_chars("404");
    contains_text(&t, &a) || contains_text(&t, &b)
}

// ---------------------------------------------------------------------------
// Large uploads
// ---------------------------------------------------------------------------

/// Files of this size or more are uploaded in parts.
pub const MULTIPART_THRESHOLD: usize = 10485760;

/// Size of each part but the last.
pub const PART_SIZE: usize = 10485760;

/// Whether a file of `len` bytes is uploaded in parts.
pub fn uses_multipart(len: usize) -> (r: bool)
    ensures
        r == (len >= MULTIPART_THRESHOLD),
{
    len >= MULTIPART_THRESHOLD
}

/// The parts of an upload of `len` bytes: part `i + 1` holds the bytes from
/// `i * PART_SIZE` up to the next part or the end.
pub open spec fn part_plan(len: int, i: int) -> (int, int, int) {
    let start = i * PART_SIZE;
    let end = if start + PART_SIZE <= len {
        start + PART_SIZE
    } else {
        len
    };
    (i + 1, start, end)
}

/// The parts of an upload of `len` bytes: their numbers from 1, and the
/// byte range of each, in order, covering the bytes without overlap.
pub fn part_ranges(len: usize) -> (parts: Vec<(u32, usize, usize)>)
    requires
        len / PART_SIZE < u32::MAX,
    ensures
        parts@.len() == (len + PART_SIZE - 1) / (PART_SIZE as int),
        forall|i: int|
            0 <= i < parts@.len() ==> {
                let p = #[trigger] parts@[i];
                let q = part_plan(len as int, i);
                p.0 == q.0 && p.1 == q.1 && p.2 == q.2
            },
{
    let mut parts: Vec<(u32, usize, usize)> = Vec::new();
    let mut start: usize = 0;
    let mut n: u32 = 0;
    while start < len
        invariant
            len / PART_SIZE < u32::MAX,
            start == (if n * PART_SIZE <= len {
                n * PART_SIZE
            } else {
                len as int
            }),
            n == 0 || (n - 1) * PART_SIZE < len,
            parts@.len() == n,
            forall|i: int|
                0 <= i < parts@.len() ==> {
                    let p = #[trigger] parts@[i];
                    let q = part_plan(len as int, i);
                    p.0 == q.0 && p.1 == q.1 && p.2 == q.2
                },
        decreases len - start,
    {
        assert(start == n * PART_SIZE);
        assert(n <= len / PART_SIZE) by (nonlinear_arith)
            requires
                n * PART_SIZE < len,
        ;
        let end = if len - start >= PART_SIZE {
            start + PART_SIZE
        } else {
            len
        };
        parts.push((n + 1, start, end));
        start = end;
        n = n + 1;
    }
    proof {
        assert(len <= n * PART_SIZE);
        assert(n == (len + PART_SIZE - 1) / (PART_SIZE as int)) by (nonlinear_arith)
            requires
                n == 0 || (n - 1) * PART_SIZE < len,
                len <= n * PART_SIZE,
                n == 0 ==> len == 0,
        ;
    }
    parts
}

// ---------------------------------------------------------------------------
// What was last synchronised
// ---------------------------------------------------------------------------

/// What the object store held of a file when it was last synchronised.
#[derive(Debug, Clone)]
pub struct SyncedFileMetadata {
    pub etag: String,
    pub last_modified: u64,
    pub local_modified: u64,
    pub size: u64,
}

/// Synchronised metadata as values: entity tag, remote and local
/// modification times, size.
pub open spec fn synced_view(m: SyncedFileMetadata) -> (Seq<char>, u64, u64, u64) {
    (m.etag@, m.last_modified, m.local_modified, m.size)
}

/// The record kept after uploading a file: its new entity tag, `now` as
/// the remote modification time, the local modification time uploaded, and
/// the size.
pub open spec fn uploaded_record(etag: Seq<char>, size: u64, local_modified: u64, now: u64) -> (
    Seq<char>,
    u64,
    u64,
    u64,
) {
    (etag, now, local_modified, size)
}

/// The record kept after downloading a file: its entity tag, its remote
/// modification time (also taken as the local one), and the size.
pub open spec fn downloaded_record(etag: Seq<char>, last_modified: u64, size: u64) -> (
    Seq<char>,
    u64,
    u64,
    u64,
) {
    (etag, last_modified, last_modified, size)
}

/// The cache of a list of records: the last record of a path wins.
pub open spec fn cache_map(v: Seq<(String, SyncedFileMetadata)>) -> Map<
    Seq<char>,
    (Seq<char>, u64, u64, u64),
>
    decreases v.len(),
{
    if v.len() == 0 {
        Map::empty()
    } else {
        cache_map(v.drop_last()).insert(v.last().0@, synced_view(v.last().1))
    }
}

/// The records not about `path`, in order.
pub open spec fn records_without(v: Seq<(String, SyncedFileMetadata)>, path: Seq<char>) -> Seq<
    (String, SyncedFileMetadata),
>
    decreases v.len(),
{
    if v.len() == 0 {
        v
    } else if v.last().0@ == path {
        records_without(v.drop_last(), path)
    } else {
        records_without(v.drop_last(), path).push(v.last())
    }
}

proof fn lemma_records_without(v: Seq<(String, SyncedFileMetadata)>, path: Seq<char>)
    ensures
        cache_map(records_without(v, path)) == cache_map(v).remove(path),
    decreases v.len(),
{
    if v.len() > 0 {
        lemma_records_without(v.drop_last(), path);
        if v.last().0@ == path {
            assert(cache_map(v).remove(path) =~= cache_map(v.drop_last()).remove(path));
        } else {
            let w = records_without(v.drop_last(), path);
            assert(w.push(v.last()).drop_last() =~= w);
            assert(cache_map(w.push(v.last())) =~= cache_map(v).remove(path));
        }
    } else {
        assert(cache_map(v).remove(path) =~= cache_map(v));
    }
}

/// No path has two records.
pub open spec fn keys_distinct(v: Seq<(String, SyncedFileMetadata)>) -> bool {
    forall|i: int, j: int|
        0 <= i < v.len() && 0 <= j < v.len() && i != j ==> (#[trigger] v[i]).0@ != (#[trigger] v[j]).0@
}

proof fn lemma_records_without_sub(v: Seq<(String, SyncedFileMetadata)>, path: Seq<char>)
    ensures
        forall|j: int|
            0 <= j < records_without(v, path).len() ==> (#[trigger] records_without(v, path)[j]).0@
                != path,
        forall|j: int|
            0 <= j < records_without(v, path).len() ==> exists|i: int|
                0 <= i < v.len() && v[i] == #[trigger] records_without(v, path)[j],
        keys_distinct(v) ==> keys_distinct(records_without(v, path)),
    decreases v.len(),
{
    if v.len() > 0 {
        let d = v.drop_last();
        lemma_records_without_sub(d, path);
        let w = records_without(d, path);
        assert forall|j: int| 0 <= j < w.len() implies exists|i: int|
            0 <= i < v.len() && v[i] == #[trigger] w[j] by {
            let i = choose|i: int| 0 <= i < d.len() && d[i] == w[j];
            assert(v[i] == w[j]);
        }
        if keys_distinct(v) {
            assert(keys_distinct(d)) by {
                assert forall|a: int, b: int|
                    0 <= a < d.len() && 0 <= b < d.len() && a != b implies (#[trigger] d[a]).0@ != (
                    #[trigger] d[b]).0@ by {
                    assert(d[a] == v[a] && d[b] == v[b]);
                }
            }
            if v.last().0@ != path {
                let w2 = w.push(v.last());
                assert forall|a: int, b: int|
                    0 <= a < w2.len() && 0 <= b < w2.len() && a != b implies (#[trigger] w2[a]).0@
                    != (#[trigger] w2[b]).0@ by {
                    if a < w.len() && b < w.len() {
                        assert(w2[a] == w[a] && w2[b] == w[b]);
                    } else if a < w.len() {
                        let i = choose|i: int| 0 <= i < d.len() && d[i] == w[a];
                        assert(v[i] == w2[a]);
                        assert(w2[b] == v[v.len() - 1]);
                    } else if b < w.len() {
                        let i = choose|i: int| 0 <= i < d.len() && d[i] == w[b];
                        assert(v[i] == w2[b]);
                        assert(w2[a] == v[v.len() - 1]);
                    }
                }
            }
        }
    }
}

/// The synchronised metadata of each path.
pub struct MetadataCache {
    files: Vec<(String, SyncedFileMetadata)>,
}

impl MetadataCache {
    #[verifier::type_invariant]
    spec fn inv(self) -> bool {
        keys_distinct(self.files@)
    }

    /// The cache as a map from paths to metadata.
    pub closed spec fn view(&self) -> Map<Seq<char>, (Seq<char>, u64, u64, u64)> {
        cache_map(self.files@)
    }

    /// An empty cache.
    pub fn new() -> (c: Self)
        ensures
            c.view() == Map::<Seq<char>, (Seq<char>, u64, u64, u64)>::empty(),
    {
        MetadataCache { files: Vec::new() }
    }

    /// Drop the record of `path`.
    pub fn remove(&mut self, path: &str)
        ensures
            final(self).view() == old(self).view().remove(path@),
    {
        proof {
            use_type_invariant(&*self);
        }
        let key = String::from_str(path);
        let ghost v0 = self.files@;
        let mut out: Vec<(String, SyncedFileMetadata)> = Vec::new();
        let mut i: usize = 0;
        while i < self.files.len()
            invariant
                i <= self.files@.len(),
                v0 == self.files@,
                key@ == path@,
                out@ == records_without(v0.take(i as int), path@),
            decreases self.files@.len() - i,
        {
            if !self.files[i].0.eq(&key) {
                let e = &self.files[i];
                let m = SyncedFileMetadata {
                    etag: e.1.etag.clone(),
                    last_modified: e.1.last_modified,
                    local_modified: e.1.local_modified,
                    size: e.1.size,
                };
                let ghost before = out@;
                out.push((e.0.clone(), m));
                proof {
                    assert(out@.last() == v0[i as int]);
                    assert(out@ =~= before.push(v0[i as int]));
                }
            }
            assert(v0.take(i + 1).drop_last() =~= v0.take(i as int));
            i = i + 1;
        }
        assert(v0.take(v0.len() as int) =~= v0);
        proof {
            lemma_records_without(v0, path@);
            lemma_records_without_sub(v0, path@);
        }
        *self = MetadataCache { files: out };
    }

    /// Record `m` for `path`, replacing any record of it.
    fn put(&mut self, path: &str, m: SyncedFileMetadata)
        ensures
            final(self).view() == old(self).view().insert(path@, synced_view(m)),
    {
        self.remove(path);
        proof {
            use_type_invariant(&*self);
        }
        let ghost v1 = self.files@;
        assert(!cache_map(v1).contains_key(path@));
        proof {
            lemma_cache_keys(v1);
        }
        let mut this = MetadataCache::new();
        std::mem::swap(self, &mut this);
        let MetadataCache { mut files } = this;
        files.push((String::from_str(path), m));
        proof {
            assert(files@.drop_last() =~= v1);
            assert forall|a: int, b: int|
                0 <= a < files@.len() && 0 <= b < files@.len() && a != b implies (#[trigger] files@[a]).0@
                != (#[trigger] files@[b]).0@ by {
                if a < v1.len() && b < v1.len() {
                    assert(files@[a] == v1[a] && files@[b] == v1[b]);
                } else if a < v1.len() {
                    assert(files@[a] == v1[a]);
                } else if b < v1.len() {
                    assert(files@[b] == v1[b]);
                }
            }
        }
        *self = MetadataCache { files };
    }

    /// Record an upload of `path`: its new entity tag and size, the local
    /// modification time it was uploaded at, and `now` as the remote
    /// modification time.
    pub fn update_after_upload(
        &mut self,
        path: &str,
        etag: String,
        size: u64,
        local_modified: u64,
        now: u64,
    )
        ensures
            final(self).view() == old(self).view().insert(
                path@,
                uploaded_record(etag@, size, local_modified, now),
            ),
    {
        self.put(path, SyncedFileMetadata { etag, last_modified: now, local_modified, size });
    }

    /// Record a download of `path`: its entity tag, remote modification time
    /// (also taken as the local one) and size.
    pub fn update_after_download(&mut self, path: &str, etag: String, last_modified: u64, size: u64)
        ensures
            final(self).view() == old(self).view().insert(
                path@,
                downloaded_record(etag@, last_modified, size),
            ),
    {
        self.put(
            path,
            SyncedFileMetadata { etag, last_modified, local_modified: last_modified, size },
        );
    }

    /// The record of `path`, if any.
    pub fn get(&self, path: &str) -> (r: Option<&SyncedFileMetadata>)
        ensures
            r is None <==> !self.view().contains_key(path@),
            r matches Some(m) ==> synced_view(*m) == self.view()[path@],
    {
        let key = String::from_str(path);
        let ghost v = self.files@;
        let mut i = self.files.len();
        assert(v.take(v.len() as int) =~= v);
        while i > 0
            invariant
                i <= v.len(),
                v == self.files@,
                key@ == path@,
                cache_map(v).contains_key(path@) == cache_map(v.take(i as int)).contains_key(path@),
                cache_map(v.take(i as int)).contains_key(path@) ==> cache_map(v)[path@] == cache_map(
                    v.take(i as int),
                )[path@],
            decreases i,
        {
            assert(v.take(i as int).drop_last() =~= v.take(i - 1));
            if self.files[i - 1].0.eq(&key) {
                return Some(&self.files[i - 1].1);
            }
            i = i - 1;
        }
        assert(v.take(0) =~= Seq::<(String, SyncedFileMetadata)>::empty());
        None
    }

    /// The paths that have a record, each once.
    pub fn paths(&self) -> (r: Vec<String>)
        ensures
            crate::path::strings_view(r@).to_set() == self.view().dom(),
            crate::path::strings_view(r@).no_duplicates(),
    {
        proof {
            use_type_invariant(self);
            lemma_cache_keys(self.files@);
        }
        let mut r: Vec<String> = Vec::new();
        let mut i: usize = 0;
        while i < self.files.len()
            invariant
                i <= self.files@.len(),
                keys_distinct(self.files@),
                r@.len() == i,
                forall|j: int| 0 <= j < i ==> (#[trigger] r@[j])@ == self.files@[j].0@,
            decreases self.files@.len() - i,
        {
            r.push(self.files[i].0.clone());
            i = i + 1;
        }
        proof {
            let sv = crate::path::strings_view(r@);
            assert forall|k: Seq<char>| sv.to_set().contains(k) <==> self.view().dom().contains(
                k,
            ) by {
                if sv.contains(k) {
                    let j = choose|j: int| 0 <= j < sv.len() && sv[j] == k;
                    assert(self.files@[j].0@ == k);
                }
                if self.view().dom().contains(k) {
                    let j = choose|j: int| 0 <= j < self.files@.len() && (#[trigger] self.files@[j]).0@
                        == k;
                    assert(sv[j] == k);
                }
            }
            assert(sv.to_set() =~= self.view().dom());
            assert forall|a: int, b: int| 0 <= a < sv.len() && 0 <= b < sv.len() && a != b implies sv[a]
                != sv[b] by {
                assert(sv[a] == self.files@[a].0@);
                assert(sv[b] == self.files@[b].0@);
            }
        }
        r
    }
}

/// The paths of a cache are the paths of its records.
proof fn lemma_cache_keys(v: Seq<(String, SyncedFileMetadata)>)
    ensures
        forall|k: Seq<char>|
            #[trigger] cache_map(v).contains_key(k) <==> exists|j: int|
                0 <= j < v.len() && (#[trigger] v[j]).0@ == k,
    decreases v.len(),
{
    if v.len() > 0 {
        let d = v.drop_last();
        lemma_cache_keys(d);
        assert forall|k: Seq<char>| #[trigger] cache_map(v).contains_key(k) <==> exists|j: int|
            0 <= j < v.len() && (#[trigger] v[j]).0@ == k by {
            if cache_map(v).contains_key(k) && k != v.last().0@ {
                assert(cache_map(v) == cache_map(d).insert(v.last().0@, synced_view(v.last().1)));
                assert(cache_map(d).contains_key(k));
                let j = choose|j: int| 0 <= j < d.len() && (#[trigger] d[j]).0@ == k;
                assert(v[j] == d[j]);
            }
            if k == v.last().0@ {
                assert(v[v.len() - 1].0@ == k);
            }
            if exists|j: int| 0 <= j < v.len() && (#[trigger] v[j]).0@ == k {
                let j = choose|j: int| 0 <= j < v.len() && (#[trigger] v[j]).0@ == k;
                assert(cache_map(v) == cache_map(d).insert(v.last().0@, synced_view(v.last().1)));
                if j < v.len() - 1 {
                    assert(d[j] == v[j]);
                    assert(cache_map(d).contains_key(k));
                }
            }
        }
    }
}

impl Default for MetadataCache {
    fn default() -> (c: Self)
        ensures
            c.view() == Map::<Seq<char>, (Seq<char>, u64, u64, u64)>::empty(),
    {
        MetadataCache::new()
    }
}

} // verus!
