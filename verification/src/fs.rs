//! The in-memory filesystem.
//!
//! `Fs` keeps a table of inodes and a table of open descriptors. Every
//! public operation is proved to follow the matching function of
//! [`FsView`](crate::fs_spec::FsView): the state it leaves and the result it
//! returns are exactly those of the model, for every input.

use crate::fs_spec::{add_wrap, next_u32, next_u64, FsView};
use crate::handle::FileHandle;
use crate::inode::{
    entries_map, entries_sorted, lemma_entries_map_at, names_sorted, ContentView, DirEntries,
    FileContent, Inode, InodeView, Metadata,
};
use crate::path::{name_lt, split_path, str_chars, strings_view};
use crate::storage::BlockStorage;
use crate::time::{ticked_by, ticked_if, MonotonicCounter, TimeProvider};
use crate::types::{
    flags_access_mode, Fd, FsError, InodeId, O_APPEND, O_CREAT, O_RDONLY, O_RDWR, O_TRUNC, O_WRONLY,
};
use std::collections::HashMap;
use vstd::prelude::*;

verus! {

broadcast use vstd::std_specs::hash::group_hash_axioms;

/// The filesystem: inodes, open descriptors and a source of timestamps.
pub struct Fs<T: TimeProvider> {
    next_inode: InodeId,
    next_fd: Fd,
    fd_table: HashMap<Fd, FileHandle>,
    inode_table: HashMap<InodeId, Inode>,
    root_inode: InodeId,
    time_provider: T,
}

/// The names of a directory listing.
pub open spec fn listing_names(v: Seq<(String, bool)>) -> Seq<Seq<char>> {
    v.map_values(|e: (String, bool)| e.0@)
}

/// `v` lists, in name order, the entries of `m` whose inode exists in `s`,
/// each with whether that inode is a directory.
pub open spec fn listing_matches(s: FsView, m: Map<Seq<char>, InodeId>, v: Seq<(String, bool)>) -> bool {
    &&& names_sorted(listing_names(v))
    &&& forall|k: Seq<char>|
        #![trigger listing_names(v).contains(k)]
        listing_names(v).contains(k) <==> (m.contains_key(k) && s.inodes.contains_key(m[k]))
    &&& forall|j: int|
        0 <= j < v.len() ==> m.contains_key(#[trigger] v[j].0@) && s.inodes.contains_key(m[v[j].0@])
            && v[j].1 == s.inodes[m[v[j].0@]].meta.is_dir
}

/// The inode table as mathematical values.
pub open spec fn inodes_view(m: Map<InodeId, Inode>) -> Map<InodeId, InodeView> {
    m.map_values(|n: Inode| n@)
}

/// Whether an open succeeds does not depend on the times it records.
proof fn lemma_open_from_result_times(
    s: FsView,
    start: InodeId,
    comps: Seq<Seq<char>>,
    flags: u32,
    u1: u64,
    u2: u64,
)
    ensures
        forall|t1: u64, t2: u64| #[trigger] s.open_from(start, comps, flags, t1, t2).1 == s.open_from(
            start,
            comps,
            flags,
            u1,
            u2,
        ).1,
{
}

impl<T: TimeProvider> Fs<T> {
    /// The filesystem as mathematical values.
    pub closed spec fn view(&self) -> FsView {
        FsView {
            next_inode: self.next_inode,
            next_fd: self.next_fd,
            fds: self.fd_table@,
            inodes: inodes_view(self.inode_table@),
            root: self.root_inode,
        }
    }

    /// The time provider.
    pub closed spec fn clock(&self) -> T {
        self.time_provider
    }

    /// Assemble a filesystem from its parts.
    pub(crate) fn from_parts(
        time_provider: T,
        inode_table: HashMap<InodeId, Inode>,
        root_inode: InodeId,
        next_inode: InodeId,
    ) -> (fs: Self)
        ensures
            fs@ == (FsView {
                next_inode,
                next_fd: 3,
                fds: Map::empty(),
                inodes: inodes_view(inode_table@),
                root: root_inode,
            }),
            fs.clock() == time_provider,
    {
        Fs {
            next_inode,
            next_fd: 3,
            fd_table: HashMap::new(),
            inode_table,
            root_inode,
            time_provider,
        }
    }

    /// The next inode id to allocate.
    pub(crate) fn next_inode_value(&self) -> (n: InodeId)
        ensures
            n == self@.next_inode,
    {
        self.next_inode
    }

    /// The root directory's id.
    pub(crate) fn root_inode_id(&self) -> (n: InodeId)
        ensures
            n == self@.root,
    {
        self.root_inode
    }

    /// The inode table.
    pub(crate) fn inode_table_ref(&self) -> (m: &HashMap<InodeId, Inode>)
        ensures
            inodes_view(m@) == self@.inodes,
    {
        &self.inode_table
    }

    /// An empty filesystem: a root directory (inode 0) stamped with the
    /// provider's first timestamp, no open descriptors, descriptors starting at 3.
    pub fn with_time_provider(time_provider: T) -> (fs: Self)
        ensures
            fs@.wf(),
            fs@.root == 0,
            fs@.next_inode == 1,
            fs@.next_fd == 3,
            fs@.fds == Map::<Fd, FileHandle>::empty(),
            fs@.inodes.dom() == set![0u64],
            fs@.inodes[0].id == 0,
            fs@.inodes[0].content == ContentView::Dir(Map::empty()),
            fs@.inodes[0].meta.is_dir,
            fs@.inodes[0].meta.size == 0,
            fs@.inodes[0].meta.created == fs@.inodes[0].meta.modified,
            fs@.inodes[0].meta.permissions == crate::inode::DIR_PERMISSIONS,
            T::keeps_time() ==> fs@.inodes[0].meta.created == time_provider.next_stamp(),
            T::keeps_time() ==> fs.clock() == time_provider.ticked(),
    {
        let mut tp = time_provider;
        let timestamp = tp.now();
        let mut root = Inode::new_dir(0);
        root.metadata.created = timestamp;
        root.metadata.modified = timestamp;
        let mut table: HashMap<InodeId, Inode> = HashMap::new();
        table.insert(0, root);
        let fs = Fs {
            next_inode: 1,
            next_fd: 3,
            fd_table: HashMap::new(),
            inode_table: table,
            root_inode: 0,
            time_provider: tp,
        };
        assert(fs@.inodes.dom() =~= set![0u64]);
        fs
    }

    // -------------------------------------------------------------------------
    // Lookups
    // -------------------------------------------------------------------------

    /// Whether `id` is in the inode table and is a regular file.
    fn is_file(&self, id: InodeId) -> (b: bool)
        ensures
            b == self@.is_file(id),
    {
        match self.inode_table.get(&id) {
            Some(n) => match &n.content {
                FileContent::File(_) => true,
                FileContent::Dir(_) => false,
            },
            None => false,
        }
    }

    /// Whether `id` is in the inode table.
    fn has_inode(&self, id: InodeId) -> (b: bool)
        ensures
            b == self@.inodes.contains_key(id),
    {
        self.inode_table.contains_key(&id)
    }

    /// Look up `name` in the directory `parent`.
    fn find(&self, parent: InodeId, name: &String) -> (r: Result<InodeId, FsError>)
        requires
            self@.inodes.contains_key(parent),
        ensures
            r == self@.find(parent, name@),
    {
        let p = self.inode_table.get(&parent).unwrap();
        match &p.content {
            FileContent::Dir(entries) => match entries.get(name) {
                Some(id) => if self.inode_table.contains_key(&id) {
                    Ok(id)
                } else {
                    Err(FsError::NotFound)
                },
                None => Err(FsError::NotFound),
            },
            FileContent::File(_) => Err(FsError::NotADirectory),
        }
    }

    /// Follow `comps[..hi]` from `start`, each step reaching a directory.
    fn walk_dirs(&self, start: InodeId, comps: &Vec<String>, hi: usize) -> (r: Result<
        InodeId,
        FsError,
    >)
        requires
            self@.inodes.contains_key(start),
            hi <= comps@.len(),
        ensures
            r == self@.walk_dirs(start, strings_view(comps@).subrange(0, hi as int)),
            r matches Ok(id) ==> self@.inodes.contains_key(id),
    {
        let ghost cs = strings_view(comps@).subrange(0, hi as int);
        let mut cur = start;
        let mut i: usize = 0;
        while i < hi
            invariant
                i <= hi <= comps@.len(),
                cs == strings_view(comps@).subrange(0, hi as int),
                self@.inodes.contains_key(cur),
                self@.walk_dirs(start, cs) == self@.walk_dirs(
                    cur,
                    strings_view(comps@).subrange(i as int, hi as int),
                ),
            decreases hi - i,
        {
            let ghost rest = strings_view(comps@).subrange(i as int, hi as int);
            assert(rest.drop_first() =~= strings_view(comps@).subrange(i + 1, hi as int));
            assert(rest[0] == comps@[i as int]@);
            match self.find(cur, &comps[i]) {
                Err(e) => return Err(e),
                Ok(next) => {
                    if self.is_file(next) {
                        return Err(FsError::NotADirectory);
                    }
                    cur = next;
                },
            }
            i = i + 1;
        }
        assert(strings_view(comps@).subrange(hi as int, hi as int) =~= Seq::<Seq<char>>::empty());
        Ok(cur)
    }

    /// Follow `comps` from `start`, looking each name up in turn.
    fn walk_all(&self, start: InodeId, comps: &Vec<String>) -> (r: Result<InodeId, FsError>)
        requires
            self@.inodes.contains_key(start),
        ensures
            r == self@.walk_all(start, strings_view(comps@)),
            r matches Ok(id) ==> self@.inodes.contains_key(id),
    {
        let ghost cs = strings_view(comps@);
        let mut cur = start;
        let mut i: usize = 0;
        assert(cs.subrange(0, cs.len() as int) =~= cs);
        while i < comps.len()
            invariant
                i <= comps@.len(),
                cs == strings_view(comps@),
                self@.inodes.contains_key(cur),
                self@.walk_all(start, cs) == self@.walk_all(
                    cur,
                    cs.subrange(i as int, cs.len() as int),
                ),
            decreases comps@.len() - i,
        {
            let ghost rest = cs.subrange(i as int, cs.len() as int);
            assert(rest.drop_first() =~= cs.subrange(i + 1, cs.len() as int));
            assert(rest[0] == comps@[i as int]@);
            match self.find(cur, &comps[i]) {
                Err(e) => return Err(e),
                Ok(next) => {
                    cur = next;
                },
            }
            i = i + 1;
        }
        assert(cs.subrange(cs.len() as int, cs.len() as int) =~= Seq::<Seq<char>>::empty());
        Ok(cur)
    }

    // -------------------------------------------------------------------------
    // Table updates
    // -------------------------------------------------------------------------

    /// Take the inode `id` out of the table.
    fn take_inode(&mut self, id: InodeId) -> (n: Inode)
        requires
            old(self)@.inodes.contains_key(id),
        ensures
            n@ == old(self)@.inodes[id],
            final(self)@ == (FsView { inodes: old(self)@.inodes.remove(id), ..old(self)@ }),
            final(self).clock() == old(self).clock(),
    {
        let n = self.inode_table.remove(&id).unwrap();
        assert(self@.inodes =~= old(self)@.inodes.remove(id));
        n
    }

    /// Put `n` into the table under `id`.
    fn put_inode(&mut self, id: InodeId, n: Inode)
        ensures
            final(self)@ == (FsView { inodes: old(self)@.inodes.insert(id, n@), ..old(self)@ }),
            final(self).clock() == old(self).clock(),
    {
        self.inode_table.insert(id, n);
        assert(self@.inodes =~= old(self)@.inodes.insert(id, n@));
    }

    /// Replace the handle `fd`.
    fn put_fd(&mut self, fd: Fd, h: FileHandle)
        ensures
            final(self)@ == old(self)@.set_fd(fd, h),
            final(self).clock() == old(self).clock(),
    {
        self.fd_table.insert(fd, h);
    }

    /// The next inode id; the counter wraps after the maximum.
    fn allocate_inode(&mut self) -> (id: InodeId)
        ensures
            id == old(self)@.next_inode,
            final(self)@ == (FsView { next_inode: next_u64(id), ..old(self)@ }),
            final(self).clock() == old(self).clock(),
    {
        let id = self.next_inode;
        self.next_inode = self.next_inode.wrapping_add(1);
        id
    }

    /// Open a handle on `id` under the next descriptor number.
    fn open_fd(&mut self, id: InodeId, flags: u32) -> (r: Result<Fd, FsError>)
        ensures
            (final(self)@, r) == old(self)@.open_fd(id, flags),
            final(self).clock() == old(self).clock(),
    {
        let fd = self.next_fd;
        self.next_fd = self.next_fd.wrapping_add(1);
        self.fd_table.insert(fd, FileHandle::new(id, 0, flags));
        Ok(fd)
    }

    /// Create `name` in the directory `parent`. Returns the new inode's id and
    /// the timestamp it was given.
    fn create_inode(&mut self, parent: InodeId, name: &String, is_dir: bool) -> (res: (
        Result<InodeId, FsError>,
        Ghost<u64>,
    ))
        requires
            old(self)@.inodes.contains_key(parent),
            old(self)@.wf(),
        ensures
            (final(self)@, res.0) == old(self)@.create_op(parent, name@, is_dir, res.1@),
            final(self)@.wf(),
            res.0 matches Ok(id) ==> final(self)@.inodes.contains_key(id),
            T::keeps_time() ==> res.1@ == old(self).clock().next_stamp(),
            T::keeps_time() ==> final(self).clock() == ticked_if(old(self).clock(), res.0 is Ok),
    {
        let p = self.inode_table.get(&parent).unwrap();
        match &p.content {
            FileContent::File(_) => {
                return (Err(FsError::NotADirectory), Ghost(self.clock().next_stamp()));
            },
            FileContent::Dir(entries) => {
                if entries.get(name).is_some() {
                    return (Err(FsError::AlreadyExists), Ghost(self.clock().next_stamp()));
                }
            },
        }
        let ghost s0 = self@;
        let id = self.allocate_inode();
        let t = self.time_provider.now();
        let mut node = if is_dir {
            Inode::new_dir(id)
        } else {
            Inode::new_file(id)
        };
        node.metadata.created = t;
        node.metadata.modified = t;
        let pn = self.take_inode(parent);
        let Inode { id: pid, metadata: pmeta, content: pcontent } = pn;
        let pcontent = match pcontent {
            FileContent::Dir(mut entries) => {
                entries.insert(name.clone(), id);
                FileContent::Dir(entries)
            },
            FileContent::File(s) => FileContent::File(s),
        };
        let pmeta = Metadata { modified: t, ..pmeta };
        self.put_inode(parent, Inode { id: pid, metadata: pmeta, content: pcontent });
        self.put_inode(id, node);
        proof {
            let (s1, r1) = s0.create_op(parent, name@, is_dir, t);
            assert(self@.inodes =~= s1.inodes);
            assert(self@ =~= s1);
        }
        (Ok(id), Ghost(t))
    }

    // -------------------------------------------------------------------------
    // Opening
    // -------------------------------------------------------------------------

    /// Open `comps` below the directory `start`. Returns the descriptor and
    /// the timestamps used for a creation and for a truncation.
    fn open_from(&mut self, start: InodeId, comps: &Vec<String>, flags: u32) -> (res: (
        Result<Fd, FsError>,
        Ghost<u64>,
        Ghost<u64>,
    ))
        requires
            old(self)@.inodes.contains_key(start),
            old(self)@.wf(),
            comps@.len() > 0,
        ensures
            (final(self)@, res.0) == old(self)@.open_from(
                start,
                strings_view(comps@),
                flags,
                res.1@,
                res.2@,
            ),
            final(self)@.wf(),
            T::keeps_time() ==> res.1@ == old(self).clock().next_stamp(),
            T::keeps_time() ==> res.2@ == ticked_if(
                old(self).clock(),
                old(self)@.open_from_creates(start, strings_view(comps@), flags),
            ).next_stamp(),
            T::keeps_time() ==> final(self).clock() == ticked_by(
                old(self).clock(),
                old(self)@.open_from_creates(start, strings_view(comps@), flags),
                old(self)@.open_from_truncates(start, strings_view(comps@), flags),
            ),
    {
        let ghost s0 = self@;
        let ghost cs = strings_view(comps@);
        let n = comps.len();
        assert(cs.drop_last() =~= cs.subrange(0, n - 1));
        proof {
            lemma_open_from_result_times(s0, start, cs, flags, 0, 0);
        }
        let p = match self.walk_dirs(start, comps, n - 1) {
            Err(e) => return (Err(e), Ghost(self.clock().next_stamp()), Ghost(self.clock().next_stamp())),
            Ok(p) => p,
        };
        let name = &comps[n - 1];
        assert(cs.last() == name@);
        let mut t1: Ghost<u64> = Ghost(self.clock().next_stamp());
        let c = match self.find(p, name) {
            Ok(c) => c,
            Err(e) => {
                if e == FsError::NotFound && flags & O_CREAT != 0 {
                    let (r, t) = self.create_inode(p, name, false);
                    t1 = t;
                    match r {
                        Ok(c) => c,
                        Err(e2) => return (Err(e2), t1, Ghost(self.clock().next_stamp())),
                    }
                } else {
                    return (Err(e), t1, Ghost(self.clock().next_stamp()));
                }
            },
        };
        let ghost s1 = self@;
        let mode = flags_access_mode(flags);
        let node_is_dir = !self.is_file(c);
        if node_is_dir && (mode == O_WRONLY || mode == O_RDWR || flags & O_TRUNC != 0) {
            return (Err(FsError::IsADirectory), t1, Ghost(self.clock().next_stamp()));
        }
        if flags & O_TRUNC != 0 && mode == O_RDONLY {
            return (Err(FsError::InvalidArgument), t1, Ghost(self.clock().next_stamp()));
        }
        let mut t2: Ghost<u64> = Ghost(self.clock().next_stamp());
        if flags & O_TRUNC != 0 {
            let node = self.take_inode(c);
            let Inode { id: nid, metadata, content } = node;
            match content {
                FileContent::File(mut storage) => {
                    storage.truncate(0);
                    let t = self.time_provider.now();
                    t2 = Ghost(t);
                    let metadata = Metadata { size: 0, modified: t, ..metadata };
                    assert(storage@ =~= Seq::<u8>::empty());
                    self.put_inode(
                        c,
                        Inode { id: nid, metadata, content: FileContent::File(storage) },
                    );
                },
                FileContent::Dir(d) => {
                    self.put_inode(c, Inode { id: nid, metadata, content: FileContent::Dir(d) });
                },
            }
            assert(self@.inodes =~= s1.set_inode(
                c,
                InodeView {
                    meta: Metadata { size: 0, modified: t2@, ..s1.inodes[c].meta },
                    content: ContentView::File(Seq::empty()),
                    ..s1.inodes[c]
                },
            ).inodes);
        }
        let nid = self.inode_table.get(&c).unwrap().id;
        let r = self.open_fd(nid, flags);
        proof {
            assert(self@ =~= s0.open_from(start, cs, flags, t1@, t2@).0);
        }
        (r, t1, t2)
    }

    /// Open `path` with the given flags. `O_CREAT` creates a missing file,
    /// `O_TRUNC` empties it; a path with no components opens the root.
    pub fn open_path_with_flags(&mut self, path: &str, flags: u32) -> (r: Result<Fd, FsError>)
        requires
            old(self)@.wf(),
        ensures
            final(self)@.wf(),
            exists|t1: u64, t2: u64| #[trigger]
                old(self)@.open_path_op(path@, flags, t1, t2) == (final(self)@, r),
            T::keeps_time() ==> old(self)@.open_path_op(path@, flags, old(self).clock().next_stamp(), ticked_if(old(self).clock(), old(self)@.open_path_stamps(path@, flags).0).next_stamp()) == (final(self)@, r),
            T::keeps_time() ==> final(self).clock() == ticked_by(
                old(self).clock(),
                old(self)@.open_path_stamps(path@, flags).0,
                old(self)@.open_path_stamps(path@, flags).1,
            ),
    {
        if path.is_empty() {
            assert(old(self)@.open_path_op(path@, flags, 0, 0) == (self@, Err::<Fd, FsError>(FsError::InvalidArgument)));
            return Err(FsError::InvalidArgument);
        }
        let comps = split_path(path);
        if comps.len() == 0 {
            let r = self.open_fd(self.root_inode, flags);
            assert(old(self)@.open_path_op(path@, flags, 0, 0) == (self@, r));
            return r;
        }
        if !self.has_inode(self.root_inode) {
            assert(old(self)@.open_path_op(path@, flags, 0, 0) == (self@, Err::<Fd, FsError>(FsError::NotFound)));
            return Err(FsError::NotFound);
        }
        let (r, t1, t2) = self.open_from(self.root_inode, &comps, flags);
        assert(old(self)@.open_path_op(path@, flags, t1@, t2@) == (self@, r));
        r
    }

    /// Open `path` for reading and writing, creating it when missing.
    pub fn open_path(&mut self, path: &str) -> (r: Result<Fd, FsError>)
        requires
            old(self)@.wf(),
        ensures
            final(self)@.wf(),
            exists|t1: u64, t2: u64| #[trigger]
                old(self)@.open_path_op(path@, O_RDWR | O_CREAT, t1, t2) == (final(self)@, r),
            T::keeps_time() ==> old(self)@.open_path_op(path@, O_RDWR | O_CREAT, old(self).clock().next_stamp(), ticked_if(old(self).clock(), old(self)@.open_path_stamps(path@, O_RDWR | O_CREAT).0).next_stamp()) == (final(self)@, r),
            T::keeps_time() ==> final(self).clock() == ticked_by(
                old(self).clock(),
                old(self)@.open_path_stamps(path@, O_RDWR | O_CREAT).0,
                old(self)@.open_path_stamps(path@, O_RDWR | O_CREAT).1,
            ),
    {
        self.open_path_with_flags(path, O_RDWR | O_CREAT)
    }

    /// Open the relative `path` below the directory open as `dir_fd`.
    pub fn open_at(&mut self, dir_fd: Fd, path: &str, flags: u32) -> (r: Result<Fd, FsError>)
        requires
            old(self)@.wf(),
        ensures
            final(self)@.wf(),
            exists|t1: u64, t2: u64| #[trigger]
                old(self)@.open_at_op(dir_fd, path@, flags, t1, t2) == (final(self)@, r),
            T::keeps_time() ==> old(self)@.open_at_op(dir_fd, path@, flags, old(self).clock().next_stamp(), ticked_if(old(self).clock(), old(self)@.open_at_stamps(dir_fd, path@, flags).0).next_stamp()) == (final(self)@, r),
            T::keeps_time() ==> final(self).clock() == ticked_by(
                old(self).clock(),
                old(self)@.open_at_stamps(dir_fd, path@, flags).0,
                old(self)@.open_at_stamps(dir_fd, path@, flags).1,
            ),
    {
        let ghost s0 = self@;
        let cs = str_chars(path);
        if cs.len() > 0 && cs[0] == '/' {
            assert(s0.open_at_op(dir_fd, path@, flags, 0, 0) == (self@, Err::<Fd, FsError>(FsError::InvalidArgument)));
            return Err(FsError::InvalidArgument);
        }
        let dir = match self.fd_table.get(&dir_fd) {
            Some(h) => h.inode_id,
            None => {
                assert(s0.open_at_op(dir_fd, path@, flags, 0, 0) == (self@, Err::<Fd, FsError>(FsError::BadFileDescriptor)));
                return Err(FsError::BadFileDescriptor);
            },
        };
        if !self.has_inode(dir) {
            assert(s0.open_at_op(dir_fd, path@, flags, 0, 0) == (self@, Err::<Fd, FsError>(FsError::NotFound)));
            return Err(FsError::NotFound);
        }
        if self.is_file(dir) {
            assert(s0.open_at_op(dir_fd, path@, flags, 0, 0) == (self@, Err::<Fd, FsError>(FsError::NotADirectory)));
            return Err(FsError::NotADirectory);
        }
        let comps = split_path(path);
        if cs.len() == 0 || comps.len() == 0 {
            assert(s0.open_at_op(dir_fd, path@, flags, 0, 0) == (self@, Err::<Fd, FsError>(FsError::InvalidArgument)));
            return Err(FsError::InvalidArgument);
        }
        let (r, t1, t2) = self.open_from(dir, &comps, flags);
        assert(s0.open_at_op(dir_fd, path@, flags, t1@, t2@) == (self@, r));
        r
    }

    // -------------------------------------------------------------------------
    // Data operations
    // -------------------------------------------------------------------------

    /// The checks shared by the data operations: the handle of `fd` exists,
    /// its access mode is not `denied_mode`, and it refers to a regular file.
    fn fd_inode(&self, fd: Fd, denied_mode: u32) -> (r: Result<FileHandle, FsError>)
        ensures
            match self@.fd_inode(fd, denied_mode) {
                Ok(id) => r == Ok::<FileHandle, FsError>(self@.fds[fd]) && id == self@.fds[fd].inode_id,
                Err(e) => r == Err::<FileHandle, FsError>(e),
            },
    {
        let h = match self.fd_table.get(&fd) {
            Some(h) => *h,
            None => return Err(FsError::BadFileDescriptor),
        };
        if flags_access_mode(h.flags) == denied_mode {
            return Err(FsError::PermissionDenied);
        }
        if !self.has_inode(h.inode_id) {
            return Err(FsError::NotFound);
        }
        if !self.is_file(h.inode_id) {
            return Err(FsError::BadFileDescriptor);
        }
        Ok(h)
    }

    /// Write `buf` at `pos` into the file `id` and move `fd` to `new_pos`.
    /// Returns the timestamp given to the file.
    fn write_file(&mut self, fd: Fd, h: FileHandle, pos: usize, buf: &[u8], new_pos: u64) -> (t: Ghost<u64>)
        requires
            old(self)@.is_file(h.inode_id),
            old(self)@.fds.contains_key(fd),
            old(self)@.fds[fd] == h,
            old(self)@.wf(),
            pos + buf@.len() <= usize::MAX,
        ensures
            final(self)@ == old(self)@.write_file_at(fd, h.inode_id, pos as int, buf@, new_pos, t@),
            final(self)@.wf(),
            T::keeps_time() ==> t@ == old(self).clock().next_stamp() && final(self).clock() == old(
                self,
            ).clock().ticked(),
    {
        let ghost s0 = self@;
        let id = h.inode_id;
        let node = self.take_inode(id);
        let Inode { id: nid, metadata, content } = node;
        match content {
            FileContent::File(mut storage) => {
                storage.write(pos, buf);
                let size = storage.size();
                let t = self.time_provider.now();
                let metadata = Metadata { size: size as u64, modified: t, ..metadata };
                self.put_inode(id, Inode { id: nid, metadata, content: FileContent::File(storage) });
                self.put_fd(fd, FileHandle { position: new_pos, ..h });
                assert(self@.inodes =~= s0.write_file_at(fd, id, pos as int, buf@, new_pos, t).inodes);
                assert(self@ =~= s0.write_file_at(fd, id, pos as int, buf@, new_pos, t));
                Ghost(t)
            },
            FileContent::Dir(d) => {
                assert(false);
                self.put_inode(id, Inode { id: nid, metadata, content: FileContent::Dir(d) });
                Ghost(0)
            },
        }
    }

    /// The length of the file `id`.
    fn file_len(&self, id: InodeId) -> (n: usize)
        requires
            self@.is_file(id),
        ensures
            n == self@.file_data(id).len(),
    {
        match &self.inode_table.get(&id).unwrap().content {
            FileContent::File(s) => s.size(),
            FileContent::Dir(_) => 0,
        }
    }

    /// Write `buf` at the descriptor's position (at the end of the file when it
    /// was opened with `O_APPEND`) and advance the position past it.
    pub fn write(&mut self, fd: Fd, buf: &[u8]) -> (r: Result<usize, FsError>)
        requires
            old(self)@.wf(),
            old(self)@.write_in_range(fd, old(self)@.write_pos(fd), buf@.len() as int),
        ensures
            final(self)@.wf(),
            exists|t: u64| #[trigger] old(self)@.write_op(fd, buf@, t) == (final(self)@, r),
            T::keeps_time() ==> old(self)@.write_op(fd, buf@, old(self).clock().next_stamp()) == (final(self)@, r),
            T::keeps_time() ==> final(self).clock() == ticked_if(old(self).clock(), r is Ok),
    {
        let ghost s0 = self@;
        let h = match self.fd_inode(fd, O_RDONLY) {
            Err(e) => {
                assert(s0.write_op(fd, buf@, 0) == (self@, Err::<usize, FsError>(e)));
                return Err(e);
            },
            Ok(h) => h,
        };
        let pos = if h.flags & O_APPEND != 0 {
            self.file_len(h.inode_id)
        } else {
            h.position as usize
        };
        let t = self.write_file(fd, h, pos, buf, (pos + buf.len()) as u64);
        assert(s0.write_op(fd, buf@, t@) == (self@, Ok::<usize, FsError>(buf.len())));
        Ok(buf.len())
    }

    /// Write `buf` at `offset` and move the position past it; `O_APPEND` is ignored.
    pub fn write_at(&mut self, fd: Fd, offset: u64, buf: &[u8]) -> (r: Result<usize, FsError>)
        requires
            old(self)@.wf(),
            old(self)@.write_in_range(fd, (offset as usize) as int, buf@.len() as int),
        ensures
            final(self)@.wf(),
            exists|t: u64| #[trigger] old(self)@.write_at_op(fd, offset, buf@, t) == (final(self)@, r),
            T::keeps_time() ==> old(self)@.write_at_op(fd, offset, buf@, old(self).clock().next_stamp()) == (final(self)@, r),
            T::keeps_time() ==> final(self).clock() == ticked_if(old(self).clock(), r is Ok),
    {
        let ghost s0 = self@;
        let h = match self.fd_inode(fd, O_RDONLY) {
            Err(e) => {
                assert(s0.write_at_op(fd, offset, buf@, 0) == (self@, Err::<usize, FsError>(e)));
                return Err(e);
            },
            Ok(h) => h,
        };
        let t = self.write_file(fd, h, offset as usize, buf, offset.wrapping_add(buf.len() as u64));
        assert(s0.write_at_op(fd, offset, buf@, t@) == (self@, Ok::<usize, FsError>(buf.len())));
        Ok(buf.len())
    }

    /// Write `buf` at the end of the file and move the position past it.
    pub fn append_write(&mut self, fd: Fd, buf: &[u8]) -> (r: Result<usize, FsError>)
        requires
            old(self)@.wf(),
            old(self)@.write_in_range(
                fd,
                old(self)@.file_data(old(self)@.fds[fd].inode_id).len() as int,
                buf@.len() as int,
            ),
        ensures
            final(self)@.wf(),
            exists|t: u64| #[trigger] old(self)@.append_write_op(fd, buf@, t) == (final(self)@, r),
            T::keeps_time() ==> old(self)@.append_write_op(fd, buf@, old(self).clock().next_stamp()) == (final(self)@, r),
            T::keeps_time() ==> final(self).clock() == ticked_if(old(self).clock(), r is Ok),
    {
        let ghost s0 = self@;
        let h = match self.fd_inode(fd, O_RDONLY) {
            Err(e) => {
                assert(s0.append_write_op(fd, buf@, 0) == (self@, Err::<usize, FsError>(e)));
                return Err(e);
            },
            Ok(h) => h,
        };
        let pos = self.file_len(h.inode_id);
        let t = self.write_file(fd, h, pos, buf, (pos + buf.len()) as u64);
        assert(s0.append_write_op(fd, buf@, t@) == (self@, Ok::<usize, FsError>(buf.len())));
        Ok(buf.len())
    }

    /// Read from the file behind `fd` at `pos` into `out` and move `fd` past the bytes read.
    fn read_file(&mut self, fd: Fd, h: FileHandle, pos: u64, out: &mut [u8]) -> (n: usize)
        requires
            old(self)@.is_file(h.inode_id),
            old(self)@.fds.contains_key(fd),
            old(self)@.fds[fd] == h,
            old(self)@.fd_inode(fd, O_WRONLY) is Ok,
        ensures
            (final(self)@, final(out)@, Ok::<usize, FsError>(n)) == old(self)@.read_at_pos(
                fd,
                pos,
                old(out)@,
            ),
            final(self).clock() == old(self).clock(),
    {
        let n = match &self.inode_table.get(&h.inode_id).unwrap().content {
            FileContent::File(s) => s.read(pos as usize, out),
            FileContent::Dir(_) => 0,
        };
        self.put_fd(fd, FileHandle { position: pos.wrapping_add(n as u64), ..h });
        n
    }

    /// Read into `out` from the descriptor's position and advance the position
    /// by the number of bytes read; at or past the end nothing is read.
    pub fn read(&mut self, fd: Fd, out: &mut [u8]) -> (r: Result<usize, FsError>)
        ensures
            (final(self)@, final(out)@, r) == old(self)@.read_op(fd, old(out)@),
            final(self).clock() == old(self).clock(),
    {
        let h = match self.fd_inode(fd, O_WRONLY) {
            Err(e) => return Err(e),
            Ok(h) => h,
        };
        let n = self.read_file(fd, h, h.position, out);
        Ok(n)
    }

    /// Read into `out` from `offset` and move the position past the bytes read.
    pub fn read_at(&mut self, fd: Fd, offset: u64, out: &mut [u8]) -> (r: Result<usize, FsError>)
        ensures
            (final(self)@, final(out)@, r) == old(self)@.read_at_pos(fd, offset, old(out)@),
            final(self).clock() == old(self).clock(),
    {
        let h = match self.fd_inode(fd, O_WRONLY) {
            Err(e) => return Err(e),
            Ok(h) => h,
        };
        let n = self.read_file(fd, h, offset, out);
        Ok(n)
    }

    /// Set the length of the file behind `fd` to `size`, cutting or zero-filling.
    pub fn ftruncate(&mut self, fd: Fd, size: u64) -> (r: Result<(), FsError>)
        requires
            old(self)@.wf(),
        ensures
            final(self)@.wf(),
            exists|t: u64| #[trigger] old(self)@.ftruncate_op(fd, size, t) == (final(self)@, r),
            T::keeps_time() ==> old(self)@.ftruncate_op(fd, size, old(self).clock().next_stamp()) == (final(self)@, r),
            T::keeps_time() ==> final(self).clock() == ticked_if(old(self).clock(), r is Ok),
    {
        let ghost s0 = self@;
        let h = match self.fd_inode(fd, O_RDONLY) {
            Err(e) => {
                assert(s0.ftruncate_op(fd, size, 0) == (self@, Err::<(), FsError>(e)));
                return Err(e);
            },
            Ok(h) => h,
        };
        let id = h.inode_id;
        let node = self.take_inode(id);
        let Inode { id: nid, metadata, content } = node;
        match content {
            FileContent::File(mut storage) => {
                storage.truncate(size as usize);
                let t = self.time_provider.now();
                let metadata = Metadata { size, modified: t, ..metadata };
                self.put_inode(id, Inode { id: nid, metadata, content: FileContent::File(storage) });
                assert(self@.inodes =~= s0.ftruncate_op(fd, size, t).0.inodes);
                assert(s0.ftruncate_op(fd, size, t) == (self@, Ok::<(), FsError>(())));
                Ok(())
            },
            FileContent::Dir(d) => {
                assert(false);
                self.put_inode(id, Inode { id: nid, metadata, content: FileContent::Dir(d) });
                Ok(())
            },
        }
    }

    /// Close `fd`.
    pub fn close(&mut self, fd: Fd) -> (r: Result<(), FsError>)
        ensures
            (final(self)@, r) == old(self)@.close_op(fd),
            final(self).clock() == old(self).clock(),
    {
        match self.fd_table.remove(&fd) {
            Some(_) => Ok(()),
            None => Err(FsError::BadFileDescriptor),
        }
    }

    /// The metadata of the entry at `path`.
    pub fn stat(&self, path: &str) -> (r: Result<Metadata, FsError>)
        ensures
            r == self@.stat_op(path@),
    {
        if path.is_empty() {
            return Err(FsError::InvalidArgument);
        }
        let comps = split_path(path);
        if !self.has_inode(self.root_inode) {
            return Err(FsError::NotFound);
        }
        match self.walk_all(self.root_inode, &comps) {
            Err(e) => Err(e),
            Ok(id) => Ok(self.inode_table.get(&id).unwrap().metadata),
        }
    }

    /// The metadata of the inode behind `fd`.
    pub fn fstat(&self, fd: Fd) -> (r: Result<Metadata, FsError>)
        ensures
            r == self@.fstat_op(fd),
    {
        let id = match self.fd_table.get(&fd) {
            Some(h) => h.inode_id,
            None => return Err(FsError::BadFileDescriptor),
        };
        match self.inode_table.get(&id) {
            Some(n) => Ok(n.metadata),
            None => Err(FsError::NotFound),
        }
    }

    /// Move the position of `fd`: to `offset` (`whence` 0), by `offset` (1),
    /// or to the end of the file plus `offset` (2). Returns the new position.
    /// Whether writing `len` bytes through `fd` keeps every position within
    /// the address range; true also when the write is refused anyway.
    pub fn write_fits(&self, fd: Fd, len: usize) -> (r: bool)
        ensures
            r == self@.write_in_range(fd, self@.write_pos(fd), len as int),
    {
        match self.fd_inode(fd, O_RDONLY) {
            Err(_) => true,
            Ok(h) => {
                let pos = if h.flags & O_APPEND != 0 {
                    self.file_len(h.inode_id)
                } else {
                    h.position as usize
                };
                len <= usize::MAX - pos
            },
        }
    }

    /// Whether appending `len` bytes through `fd` keeps every position within
    /// the address range; true also when the write is refused anyway.
    pub fn append_fits(&self, fd: Fd, len: usize) -> (r: bool)
        ensures
            r == self@.write_in_range(
                fd,
                self@.file_data(self@.fds[fd].inode_id).len() as int,
                len as int,
            ),
    {
        match self.fd_inode(fd, O_RDONLY) {
            Err(_) => true,
            Ok(h) => len <= usize::MAX - self.file_len(h.inode_id),
        }
    }

    /// Whether a seek on `fd` lands within `i64`; true also when the seek is
    /// refused anyway.
    pub fn seek_fits(&self, fd: Fd, offset: i64, whence: i32) -> (r: bool)
        ensures
            r == self@.seek_in_range(fd, offset, whence),
    {
        let h = match self.fd_table.get(&fd) {
            Some(h) => *h,
            None => return true,
        };
        if !self.is_file(h.inode_id) || (whence != 1 && whence != 2) {
            return true;
        }
        let base: i128 = if whence == 1 {
            (h.position as i64) as i128
        } else {
            (self.file_len(h.inode_id) as i64) as i128
        };
        let target: i128 = base + offset as i128;
        i64::MIN as i128 <= target && target <= i64::MAX as i128
    }

    pub fn seek(&mut self, fd: Fd, offset: i64, whence: i32) -> (r: Result<u64, FsError>)
        requires
            old(self)@.seek_in_range(fd, offset, whence),
        ensures
            (final(self)@, r) == old(self)@.seek_op(fd, offset, whence),
            final(self).clock() == old(self).clock(),
    {
        let h = match self.fd_table.get(&fd) {
            Some(h) => *h,
            None => return Err(FsError::BadFileDescriptor),
        };
        if !self.has_inode(h.inode_id) {
            return Err(FsError::NotFound);
        }
        if !self.is_file(h.inode_id) {
            return Err(FsError::BadFileDescriptor);
        }
        let new_pos: i64 = if whence == 0 {
            offset
        } else if whence == 1 {
            (h.position as i64) + offset
        } else if whence == 2 {
            (self.file_len(h.inode_id) as i64) + offset
        } else {
            return Err(FsError::InvalidArgument);
        };
        if new_pos < 0 {
            return Err(FsError::InvalidArgument);
        }
        let pos = new_pos as u64;
        self.put_fd(fd, FileHandle { position: pos, ..h });
        Ok(pos)
    }

    // -------------------------------------------------------------------------
    // Directory operations
    // -------------------------------------------------------------------------

    /// The directory holding the last of `comps`, walking from the root.
    fn parent_of(&self, comps: &Vec<String>) -> (r: Result<InodeId, FsError>)
        requires
            comps@.len() > 0,
        ensures
            r == self@.parent_of(strings_view(comps@)),
            r matches Ok(id) ==> self@.inodes.contains_key(id),
    {
        if !self.has_inode(self.root_inode) {
            return Err(FsError::NotFound);
        }
        let n = comps.len();
        assert(strings_view(comps@).drop_last() =~= strings_view(comps@).subrange(0, n - 1));
        self.walk_dirs(self.root_inode, comps, n - 1)
    }

    /// Remove `name` from the directory `p`, stamping it with a fresh timestamp.
    fn remove_entry(&mut self, p: InodeId, name: &String) -> (t: Ghost<u64>)
        requires
            old(self)@.inodes.contains_key(p),
            old(self)@.inodes[p].content is Dir,
            old(self)@.wf(),
        ensures
            final(self)@ == old(self)@.remove_entry(p, name@, t@),
            final(self)@.wf(),
            T::keeps_time() ==> t@ == old(self).clock().next_stamp() && final(self).clock() == old(
                self,
            ).clock().ticked(),
    {
        let ghost s0 = self@;
        let node = self.take_inode(p);
        let Inode { id: nid, metadata, content } = node;
        let t = self.time_provider.now();
        let content = match content {
            FileContent::Dir(mut entries) => {
                entries.remove(name);
                FileContent::Dir(entries)
            },
            FileContent::File(st) => FileContent::File(st),
        };
        let metadata = Metadata { modified: t, ..metadata };
        self.put_inode(p, Inode { id: nid, metadata, content });
        assert(self@.inodes =~= s0.remove_entry(p, name@, t).inodes);
        Ghost(t)
    }

    /// Create the directory `path`; its parent must exist.
    pub fn mkdir(&mut self, path: &str) -> (r: Result<(), FsError>)
        requires
            old(self)@.wf(),
        ensures
            final(self)@.wf(),
            exists|t: u64| #[trigger] old(self)@.mkdir_op(path@, t) == (final(self)@, r),
            T::keeps_time() ==> old(self)@.mkdir_op(path@, old(self).clock().next_stamp()) == (final(self)@, r),
            T::keeps_time() ==> final(self).clock() == ticked_if(old(self).clock(), r is Ok),
    {
        let ghost s0 = self@;
        let comps = split_path(path);
        if path.is_empty() || comps.len() == 0 {
            assert(s0.mkdir_op(path@, 0) == (self@, Err::<(), FsError>(FsError::InvalidArgument)));
            return Err(FsError::InvalidArgument);
        }
        let p = match self.parent_of(&comps) {
            Err(e) => {
                assert(s0.mkdir_op(path@, 0) == (self@, Err::<(), FsError>(e)));
                return Err(e);
            },
            Ok(p) => p,
        };
        let n = comps.len();
        assert(strings_view(comps@).last() == comps@[n - 1]@);
        let (r, t) = self.create_inode(p, &comps[n - 1], true);
        let r = match r {
            Ok(_) => Ok(()),
            Err(e) => Err(e),
        };
        assert(s0.mkdir_op(path@, t@) == (self@, r));
        r
    }

    /// Create the directory `path` and any missing ancestors.
    pub fn mkdir_p(&mut self, path: &str) -> (r: Result<(), FsError>)
        requires
            old(self)@.wf(),
        ensures
            final(self)@.wf(),
            exists|ts: Seq<u64>| #[trigger] old(self)@.mkdir_p_op(path@, ts) == (final(self)@, r),
            T::keeps_time() ==> old(self)@.mkdir_p_op(
                path@,
                old(self)@.mkdir_p_op_times(path@, old(self).clock()).0,
            ) == (final(self)@, r),
            T::keeps_time() ==> final(self).clock() == old(self)@.mkdir_p_op_times(
                path@,
                old(self).clock(),
            ).1,
    {
        let ghost s0 = self@;
        let ghost c0 = self.clock();
        if path.is_empty() {
            assert(s0.mkdir_p_op(path@, seq![]) == (self@, Err::<(), FsError>(FsError::InvalidArgument)));
            return Err(FsError::InvalidArgument);
        }
        let comps = split_path(path);
        let ghost cs = strings_view(comps@);
        if comps.len() == 0 {
            assert(s0.mkdir_p_op(path@, seq![]) == (self@, Ok::<(), FsError>(())));
            return Ok(());
        }
        if !self.has_inode(self.root_inode) {
            assert(s0.mkdir_p_op(path@, seq![]) == (self@, Err::<(), FsError>(FsError::NotFound)));
            return Err(FsError::NotFound);
        }
        let mut cur = self.root_inode;
        let mut i: usize = 0;
        let ghost mut ts: Seq<u64> = seq![];
        assert(cs.subrange(0, cs.len() as int) =~= cs);
        assert(ts + seq![] =~= ts);
        assert(ts + s0.mkdir_p_times(s0.root, cs, c0).0 =~= s0.mkdir_p_times(s0.root, cs, c0).0);
        while i < comps.len()
            invariant
                i <= comps@.len(),
                cs == strings_view(comps@),
                cs == crate::path::components(path@),
                path@.len() > 0,
                cs.len() > 0,
                s0 == old(self)@,
                ts.len() == i,
                self@.wf(),
                self@.inodes.contains_key(cur),
                s0.wf(),
                s0.inodes.contains_key(s0.root),
                forall|rest: Seq<u64>| #[trigger]
                    s0.mkdir_p_walk(s0.root, cs, ts + rest) == self@.mkdir_p_walk(
                        cur,
                        cs.subrange(i as int, cs.len() as int),
                        rest,
                    ),
                c0 == old(self).clock(),
                T::keeps_time() ==> s0.mkdir_p_times(s0.root, cs, c0) == (
                    ts + self@.mkdir_p_times(cur, cs.subrange(i as int, cs.len() as int), self.clock()).0,
                    self@.mkdir_p_times(cur, cs.subrange(i as int, cs.len() as int), self.clock()).1,
                ),
            decreases comps@.len() - i,
        {
            let ghost sub = cs.subrange(i as int, cs.len() as int);
            let ghost before = self@;
            let ghost cb = self.clock();
            assert(sub.drop_first() =~= cs.subrange(i + 1, cs.len() as int));
            assert(sub[0] == comps@[i as int]@);
            match self.find(cur, &comps[i]) {
                Ok(next) => {
                    if self.is_file(next) {
                        proof {
                            let full = ts + Seq::<u64>::empty();
                            assert(s0.mkdir_p_walk(s0.root, cs, full) == (self@, Err::<(), FsError>(FsError::NotADirectory)));
                            assert(s0.mkdir_p_op(path@, full) == (self@, Err::<(), FsError>(FsError::NotADirectory)));
                        }
                        return Err(FsError::NotADirectory);
                    }
                    proof {
                        assert forall|rest: Seq<u64>| #[trigger]
                            s0.mkdir_p_walk(s0.root, cs, ts.push(0) + rest) == self@.mkdir_p_walk(
                                next,
                                cs.subrange(i + 1, cs.len() as int),
                                rest,
                            ) by {
                            assert(ts.push(0) + rest =~= ts + (seq![0u64] + rest));
                            assert((seq![0u64] + rest).drop_first() =~= rest);
                        }
                        if T::keeps_time() {
                            let inner = self@.mkdir_p_times(next, cs.subrange(i + 1, cs.len() as int), cb);
                            assert(before.mkdir_p_times(cur, sub, cb) == (seq![0u64] + inner.0, inner.1));
                            assert(ts + (seq![0u64] + inner.0) =~= ts.push(0) + inner.0);
                        }
                        ts = ts.push(0);
                    }
                    cur = next;
                },
                Err(e) => {
                    if e == FsError::NotFound {
                        let (r, t) = self.create_inode(cur, &comps[i], true);
                        match r {
                            Err(e2) => {
                                proof {
                                    let full = ts + seq![t@];
                                    assert(full =~= ts + (seq![t@] + seq![]));
                                    assert(s0.mkdir_p_walk(s0.root, cs, full) == (self@, Err::<(), FsError>(e2)));
                                    assert(s0.mkdir_p_op(path@, full) == (self@, Err::<(), FsError>(e2)));
                                }
                                return Err(e2);
                            },
                            Ok(next) => {
                                proof {
                                    assert forall|rest: Seq<u64>| #[trigger]
                                        s0.mkdir_p_walk(s0.root, cs, ts.push(t@) + rest)
                                            == self@.mkdir_p_walk(
                                            next,
                                            cs.subrange(i + 1, cs.len() as int),
                                            rest,
                                        ) by {
                                        assert(ts.push(t@) + rest =~= ts + (seq![t@] + rest));
                                        assert((seq![t@] + rest).drop_first() =~= rest);
                                        assert((seq![t@] + rest)[0] == t@);
                                    }
                                    if T::keeps_time() {
                                        let inner = self@.mkdir_p_times(
                                            next,
                                            cs.subrange(i + 1, cs.len() as int),
                                            self.clock(),
                                        );
                                        assert(before.mkdir_p_times(cur, sub, cb) == (
                                            seq![cb.next_stamp()] + inner.0,
                                            inner.1,
                                        ));
                                        assert(ts + (seq![t@] + inner.0) =~= ts.push(t@) + inner.0);
                                    }
                                    ts = ts.push(t@);
                                }
                                cur = next;
                            },
                        }
                    } else {
                        proof {
                            let full = ts + Seq::<u64>::empty();
                            assert(s0.mkdir_p_walk(s0.root, cs, full) == (self@, Err::<(), FsError>(e)));
                            assert(s0.mkdir_p_op(path@, full) == (self@, Err::<(), FsError>(e)));
                        }
                        return Err(e);
                    }
                },
            }
            i = i + 1;
        }
        proof {
            assert(cs.subrange(cs.len() as int, cs.len() as int) =~= Seq::<Seq<char>>::empty());
            assert(s0.mkdir_p_walk(s0.root, cs, ts + seq![]) == (self@, Ok::<(), FsError>(())));
            assert(self@.mkdir_p_times(cur, Seq::<Seq<char>>::empty(), self.clock()).0 =~= Seq::<u64>::empty());
            assert(ts + seq![] =~= ts);
            assert(s0.mkdir_p_op(path@, ts) == (self@, Ok::<(), FsError>(())));
        }
        Ok(())
    }

    /// Remove the file at `path` from its directory.
    pub fn unlink(&mut self, path: &str) -> (r: Result<(), FsError>)
        requires
            old(self)@.wf(),
        ensures
            final(self)@.wf(),
            exists|t: u64| #[trigger] old(self)@.unlink_op(path@, t) == (final(self)@, r),
            T::keeps_time() ==> old(self)@.unlink_op(path@, old(self).clock().next_stamp()) == (final(self)@, r),
            T::keeps_time() ==> final(self).clock() == ticked_if(old(self).clock(), r is Ok),
    {
        let ghost s0 = self@;
        let comps = split_path(path);
        if path.is_empty() || comps.len() == 0 {
            assert(s0.unlink_op(path@, 0) == (self@, Err::<(), FsError>(FsError::InvalidArgument)));
            return Err(FsError::InvalidArgument);
        }
        let p = match self.parent_of(&comps) {
            Err(e) => {
                assert(s0.unlink_op(path@, 0) == (self@, Err::<(), FsError>(e)));
                return Err(e);
            },
            Ok(p) => p,
        };
        let n = comps.len();
        assert(strings_view(comps@).last() == comps@[n - 1]@);
        let target = match self.find(p, &comps[n - 1]) {
            Err(e) => {
                assert(s0.unlink_op(path@, 0) == (self@, Err::<(), FsError>(e)));
                return Err(e);
            },
            Ok(t) => t,
        };
        if !self.is_file(target) {
            assert(s0.unlink_op(path@, 0) == (self@, Err::<(), FsError>(FsError::IsADirectory)));
            return Err(FsError::IsADirectory);
        }
        let t = self.remove_entry(p, &comps[n - 1]);
        assert(s0.unlink_op(path@, t@) == (self@, Ok::<(), FsError>(())));
        Ok(())
    }

    /// Remove the empty directory at `path`.
    pub fn rmdir(&mut self, path: &str) -> (r: Result<(), FsError>)
        requires
            old(self)@.wf(),
        ensures
            final(self)@.wf(),
            exists|t: u64| #[trigger] old(self)@.rmdir_op(path@, t) == (final(self)@, r),
            T::keeps_time() ==> old(self)@.rmdir_op(path@, old(self).clock().next_stamp()) == (final(self)@, r),
            T::keeps_time() ==> final(self).clock() == ticked_if(old(self).clock(), r is Ok),
    {
        let ghost s0 = self@;
        let comps = split_path(path);
        if path.is_empty() || comps.len() == 0 {
            assert(s0.rmdir_op(path@, 0) == (self@, Err::<(), FsError>(FsError::InvalidArgument)));
            return Err(FsError::InvalidArgument);
        }
        let p = match self.parent_of(&comps) {
            Err(e) => {
                assert(s0.rmdir_op(path@, 0) == (self@, Err::<(), FsError>(e)));
                return Err(e);
            },
            Ok(p) => p,
        };
        let n = comps.len();
        assert(strings_view(comps@).last() == comps@[n - 1]@);
        let target = match self.find(p, &comps[n - 1]) {
            Err(e) => {
                assert(s0.rmdir_op(path@, 0) == (self@, Err::<(), FsError>(e)));
                return Err(e);
            },
            Ok(t) => t,
        };
        let empty = match &self.inode_table.get(&target).unwrap().content {
            FileContent::File(_) => {
                assert(s0.rmdir_op(path@, 0) == (self@, Err::<(), FsError>(FsError::NotADirectory)));
                return Err(FsError::NotADirectory);
            },
            FileContent::Dir(entries) => entries.is_empty(),
        };
        if !empty {
            assert(s0.rmdir_op(path@, 0) == (self@, Err::<(), FsError>(FsError::NotEmpty)));
            return Err(FsError::NotEmpty);
        }
        let t = self.remove_entry(p, &comps[n - 1]);
        assert(s0.rmdir_op(path@, t@) == (self@, Ok::<(), FsError>(())));
        Ok(())
    }

    /// The names in the directory at `path`, in increasing order.
    pub fn readdir(&self, path: &str) -> (r: Result<Vec<String>, FsError>)
        ensures
            match self@.readdir_target(path@) {
                Err(e) => r == Err::<Vec<String>, FsError>(e),
                Ok(id) => r matches Ok(v) && names_sorted(strings_view(v@)) && strings_view(
                    v@,
                ).to_set() == self@.dir_entries(id).dom(),
            },
    {
        if path.is_empty() {
            return Err(FsError::InvalidArgument);
        }
        let comps = split_path(path);
        if !self.has_inode(self.root_inode) {
            return Err(FsError::NotFound);
        }
        let id = match self.walk_all(self.root_inode, &comps) {
            Err(e) => return Err(e),
            Ok(id) => id,
        };
        match &self.inode_table.get(&id).unwrap().content {
            FileContent::Dir(entries) => Ok(entries.names()),
            FileContent::File(_) => Err(FsError::NotADirectory),
        }
    }

    /// The entries of the directory open as `fd`, in name order, as
    /// `(name, is_dir)`; entries whose inode is missing are left out.
    pub fn readdir_fd(&self, fd: Fd) -> (r: Result<Vec<(String, bool)>, FsError>)
        ensures
            !self@.fds.contains_key(fd) ==> r == Err::<Vec<(String, bool)>, FsError>(
                FsError::BadFileDescriptor,
            ),
            self@.fds.contains_key(fd) && !self@.inodes.contains_key(self@.fds[fd].inode_id) ==> r
                == Err::<Vec<(String, bool)>, FsError>(FsError::NotFound),
            self@.fds.contains_key(fd) && self@.is_file(self@.fds[fd].inode_id) ==> r == Err::<
                Vec<(String, bool)>,
                FsError,
            >(FsError::NotADirectory),
            self@.fds.contains_key(fd) && self@.inodes.contains_key(self@.fds[fd].inode_id)
                && !self@.is_file(self@.fds[fd].inode_id) ==> (r matches Ok(v) && listing_matches(
                self@,
                self@.dir_entries(self@.fds[fd].inode_id),
                v@,
            )),
    {
        let id = match self.fd_table.get(&fd) {
            Some(h) => h.inode_id,
            None => return Err(FsError::BadFileDescriptor),
        };
        let entries = match self.inode_table.get(&id) {
            None => return Err(FsError::NotFound),
            Some(n) => match &n.content {
                FileContent::File(_) => return Err(FsError::NotADirectory),
                FileContent::Dir(d) => d.to_vec(),
            },
        };
        let ghost m = entries_map(entries@);
        let mut out: Vec<(String, bool)> = Vec::new();
        let mut i: usize = 0;
        while i < entries.len()
            invariant
                i <= entries@.len(),
                entries_sorted(entries@),
                m == entries_map(entries@),
                forall|j: int, k: int|
                    0 <= j < out@.len() && i <= k < entries@.len() ==> name_lt(
                        #[trigger] out@[j].0@,
                        #[trigger] entries@[k].0@,
                    ),
                names_sorted(listing_names(out@)),
                forall|k: Seq<char>|
                    #![trigger listing_names(out@).contains(k)]
                    listing_names(out@).contains(k) <==> exists|idx: int|
                        0 <= idx < i && #[trigger] entries@[idx].0@ == k
                            && self@.inodes.contains_key(entries@[idx].1),
                forall|j: int|
                    0 <= j < out@.len() ==> m.contains_key(#[trigger] out@[j].0@)
                        && self@.inodes.contains_key(m[out@[j].0@]) && out@[j].1
                        == self@.inodes[m[out@[j].0@]].meta.is_dir,
            decreases entries@.len() - i,
        {
            let child = entries[i].1;
            proof {
                lemma_entries_map_at(entries@, i as int);
            }
            match self.inode_table.get(&child) {
                Some(n) => {
                    let ghost prev = out@;
                    out.push((entries[i].0.clone(), n.metadata.is_dir));
                    proof {
                        assert(listing_names(out@) =~= listing_names(prev).push(entries@[i as int].0@));
                        assert forall|k: Seq<char>|
                            listing_names(out@).contains(k) <==> exists|idx: int|
                                0 <= idx < i + 1 && #[trigger] entries@[idx].0@ == k
                                    && self@.inodes.contains_key(entries@[idx].1) by {
                            let ln = listing_names(out@);
                            let lp = listing_names(prev);
                            if ln.contains(k) {
                                let j = choose|j: int| 0 <= j < ln.len() && ln[j] == k;
                                if j < lp.len() {
                                    assert(lp[j] == k);
                                    assert(lp.contains(k));
                                    let idx = choose|idx: int|
                                        0 <= idx < i && #[trigger] entries@[idx].0@ == k
                                            && self@.inodes.contains_key(entries@[idx].1);
                                    assert(entries@[idx].0@ == k);
                                } else {
                                    assert(entries@[i as int].0@ == k);
                                }
                            }
                            if exists|idx: int|
                                0 <= idx < i + 1 && #[trigger] entries@[idx].0@ == k
                                    && self@.inodes.contains_key(entries@[idx].1) {
                                let idx = choose|idx: int|
                                    0 <= idx < i + 1 && #[trigger] entries@[idx].0@ == k
                                        && self@.inodes.contains_key(entries@[idx].1);
                                if idx < i {
                                    assert(lp.contains(k));
                                    let j = choose|j: int| 0 <= j < lp.len() && lp[j] == k;
                                    assert(ln[j] == k);
                                } else {
                                    assert(ln[ln.len() - 1] == k);
                                }
                            }
                        }
                    }
                },
                None => {
                    proof {
                        assert forall|k: Seq<char>|
                            listing_names(out@).contains(k) <==> exists|idx: int|
                                0 <= idx < i + 1 && #[trigger] entries@[idx].0@ == k
                                    && self@.inodes.contains_key(entries@[idx].1) by {
                            if exists|idx: int|
                                0 <= idx < i + 1 && #[trigger] entries@[idx].0@ == k
                                    && self@.inodes.contains_key(entries@[idx].1) {
                                let idx = choose|idx: int|
                                    0 <= idx < i + 1 && #[trigger] entries@[idx].0@ == k
                                        && self@.inodes.contains_key(entries@[idx].1);
                                if idx == i {
                                    lemma_entries_map_at(entries@, idx);
                                }
                            }
                        }
                    }
                },
            }
            i = i + 1;
        }
        proof {
            assert forall|k: Seq<char>|
                listing_names(out@).contains(k) <==> (m.contains_key(k) && self@.inodes.contains_key(
                    m[k],
                )) by {
                if m.contains_key(k) {
                    let idx = choose|idx: int|
                        0 <= idx < entries@.len() && #[trigger] entries@[idx].0@ == k;
                    lemma_entries_map_at(entries@, idx);
                }
                if listing_names(out@).contains(k) {
                    let idx = choose|idx: int|
                        0 <= idx < entries@.len() && #[trigger] entries@[idx].0@ == k
                            && self@.inodes.contains_key(entries@[idx].1);
                    lemma_entries_map_at(entries@, idx);
                }
            }
        }
        Ok(out)
    }

    /// Whether two component lists name the same path.
    fn same_components(a: &Vec<String>, b: &Vec<String>) -> (r: bool)
        ensures
            r == (strings_view(a@) == strings_view(b@)),
    {
        if a.len() != b.len() {
            assert(strings_view(a@).len() != strings_view(b@).len());
            return false;
        }
        let mut i: usize = 0;
        while i < a.len()
            invariant
                i <= a@.len(),
                a@.len() == b@.len(),
                forall|j: int| 0 <= j < i ==> a@[j]@ == b@[j]@,
            decreases a@.len() - i,
        {
            if !a[i].eq(&b[i]) {
                assert(strings_view(a@)[i as int] != strings_view(b@)[i as int]);
                return false;
            }
            i = i + 1;
        }
        assert(strings_view(a@) =~= strings_view(b@));
        true
    }

    /// Move the entry at `old_path` to `new_path`. An existing destination is
    /// replaced when its kind matches and, for a directory, when it is empty.
    pub fn rename(&mut self, old_path: &str, new_path: &str) -> (r: Result<(), FsError>)
        requires
            old(self)@.wf(),
        ensures
            final(self)@.wf(),
            exists|t: u64| #[trigger]
                old(self)@.rename_op(old_path@, new_path@, t) == (final(self)@, r),
            T::keeps_time() ==> old(self)@.rename_op(
                old_path@,
                new_path@,
                old(self).clock().next_stamp(),
            ) == (final(self)@, r),
            T::keeps_time() ==> final(self).clock() == ticked_if(
                old(self).clock(),
                old(self)@.rename_moves(old_path@, new_path@),
            ),
    {
        let ghost s0 = self@;
        if old_path.is_empty() || new_path.is_empty() {
            assert(s0.rename_op(old_path@, new_path@, 0) == (self@, Err::<(), FsError>(FsError::InvalidArgument)));
            return Err(FsError::InvalidArgument);
        }
        let oc = split_path(old_path);
        let nc = split_path(new_path);
        if oc.len() == 0 || nc.len() == 0 {
            assert(s0.rename_op(old_path@, new_path@, 0) == (self@, Err::<(), FsError>(FsError::InvalidArgument)));
            return Err(FsError::InvalidArgument);
        }
        if Self::same_components(&oc, &nc) {
            assert(s0.rename_op(old_path@, new_path@, 0) == (self@, Ok::<(), FsError>(())));
            return Ok(());
        }
        let op = match self.parent_of(&oc) {
            Err(e) => {
                assert(s0.rename_op(old_path@, new_path@, 0) == (self@, Err::<(), FsError>(e)));
                return Err(e);
            },
            Ok(p) => p,
        };
        let on = oc.len();
        let nn = nc.len();
        assert(strings_view(oc@).last() == oc@[on - 1]@);
        assert(strings_view(nc@).last() == nc@[nn - 1]@);
        let old_name = &oc[on - 1];
        let new_name = &nc[nn - 1];
        let src = match self.find(op, old_name) {
            Err(e) => {
                assert(s0.rename_op(old_path@, new_path@, 0) == (self@, Err::<(), FsError>(e)));
                return Err(e);
            },
            Ok(c) => c,
        };
        let src_is_dir = self.inode_table.get(&src).unwrap().metadata.is_dir;
        assert(strings_view(nc@).drop_last() =~= strings_view(nc@).subrange(0, nn - 1));
        let np = match self.walk_dirs(self.root_inode, &nc, nn - 1) {
            Err(e) => {
                assert(s0.rename_op(old_path@, new_path@, 0) == (self@, Err::<(), FsError>(e)));
                return Err(e);
            },
            Ok(p) => p,
        };
        if let Ok(dest) = self.find(np, new_name) {
            let d = self.inode_table.get(&dest).unwrap();
            let dest_is_dir = d.metadata.is_dir;
            if src_is_dir && !dest_is_dir {
                assert(s0.rename_op(old_path@, new_path@, 0) == (self@, Err::<(), FsError>(FsError::NotADirectory)));
                return Err(FsError::NotADirectory);
            }
            if !src_is_dir && dest_is_dir {
                assert(s0.rename_op(old_path@, new_path@, 0) == (self@, Err::<(), FsError>(FsError::IsADirectory)));
                return Err(FsError::IsADirectory);
            }
            let nonempty = match &d.content {
                FileContent::Dir(entries) => !entries.is_empty(),
                FileContent::File(_) => false,
            };
            if dest_is_dir && nonempty {
                assert(s0.rename_op(old_path@, new_path@, 0) == (self@, Err::<(), FsError>(FsError::NotEmpty)));
                return Err(FsError::NotEmpty);
            }
        }
        assert(s0.rename_dest_error(np, new_name@, s0.inodes[src].meta.is_dir) is None);
        let op_id = self.inode_table.get(&op).unwrap().id;
        let np_id = self.inode_table.get(&np).unwrap().id;
        let t = self.time_provider.now();
        if op_id == np_id {
            let node = self.take_inode(op);
            let Inode { id: nid, metadata, content } = node;
            let content = match content {
                FileContent::Dir(mut entries) => {
                    let moved = entries.remove(old_name);
                    let id = moved.unwrap();
                    entries.insert(new_name.clone(), id);
                    FileContent::Dir(entries)
                },
                FileContent::File(st) => FileContent::File(st),
            };
            let metadata = Metadata { modified: t, ..metadata };
            self.put_inode(op, Inode { id: nid, metadata, content });
            assert(self@.inodes =~= s0.rename_move(op, old_name@, np, new_name@, t).0.inodes);
            assert(s0.rename_op(old_path@, new_path@, t) == (self@, Ok::<(), FsError>(())));
            Ok(())
        } else {
            let node = self.take_inode(op);
            let Inode { id: oid, metadata: ometa, content: ocontent } = node;
            let mut moved: InodeId = 0;
            let ocontent = match ocontent {
                FileContent::Dir(mut entries) => {
                    moved = entries.remove(old_name).unwrap();
                    FileContent::Dir(entries)
                },
                FileContent::File(st) => FileContent::File(st),
            };
            let ometa = Metadata { modified: t, ..ometa };
            self.put_inode(op, Inode { id: oid, metadata: ometa, content: ocontent });
            let ghost s1 = self@;
            assert(s1.inodes =~= s0.remove_entry(op, old_name@, t).inodes);
            assert(moved == s0.dir_entries(op)[old_name@]);
            let node = self.take_inode(np);
            let Inode { id: nid, metadata: nmeta, content: ncontent } = node;
            match ncontent {
                FileContent::Dir(mut entries) => {
                    entries.insert(new_name.clone(), moved);
                    let nmeta = Metadata { modified: t, ..nmeta };
                    self.put_inode(np, Inode { id: nid, metadata: nmeta, content: FileContent::Dir(entries) });
                    assert(self@.inodes =~= s0.rename_move(op, old_name@, np, new_name@, t).0.inodes);
                    assert(s0.rename_op(old_path@, new_path@, t) == (self@, Ok::<(), FsError>(())));
                    Ok(())
                },
                FileContent::File(st) => {
                    self.put_inode(np, Inode { id: nid, metadata: nmeta, content: FileContent::File(st) });
                    assert(self@.inodes =~= s1.inodes);
                    assert(s0.rename_op(old_path@, new_path@, t) == (self@, Err::<(), FsError>(FsError::NotADirectory)));
                    Err(FsError::NotADirectory)
                },
            }
        }
    }
}

impl Fs<MonotonicCounter> {
    /// An empty filesystem whose timestamps come from a fresh counter.
    pub fn new() -> (fs: Self)
        ensures
            fs@.wf(),
            fs@.root == 0,
            fs@.next_inode == 1,
            fs@.next_fd == 3,
            fs@.fds == Map::<Fd, FileHandle>::empty(),
            fs@.inodes.dom() == set![0u64],
            fs@.inodes[0].id == 0,
            fs@.inodes[0].content == ContentView::Dir(Map::empty()),
            fs@.inodes[0].meta.is_dir,
            fs@.inodes[0].meta.size == 0,
            fs@.inodes[0].meta.created == fs@.inodes[0].meta.modified,
            fs@.inodes[0].meta.permissions == crate::inode::DIR_PERMISSIONS,
            fs@.inodes[0].meta.created == 0,
            fs.clock().peek() == 1,
    {
        let c = MonotonicCounter::new();
        proof {
            c.lemma_counter_stamps();
        }
        Self::with_time_provider(c)
    }
}

} // verus!
