//! The mathematical model of the filesystem and of each of its operations.
//!
//! Every operation is a function from a state (and its arguments, and the
//! timestamps the time provider hands out) to the next state and a result.
//! The executable `Fs` is proved to follow these functions exactly.

use crate::handle::FileHandle;
use crate::inode::{fresh_metadata, ContentView, InodeView, Metadata};
use crate::storage::{read_count, read_into_spec, resize_spec, write_spec};
use crate::types::{access_mode, Fd, FsError, InodeId, O_APPEND, O_CREAT, O_RDONLY, O_RDWR, O_TRUNC, O_WRONLY};
use crate::time::TimeProvider;
use vstd::prelude::*;

verus! {

/// The whole filesystem as mathematical values.
#[verifier::ext_equal]
pub struct FsView {
    pub next_inode: InodeId,
    pub next_fd: Fd,
    pub fds: Map<Fd, FileHandle>,
    pub inodes: Map<InodeId, InodeView>,
    pub root: InodeId,
}

/// `x + 1`, wrapping to 0 after the maximum.
pub open spec fn next_u64(x: u64) -> u64 {
    if x == u64::MAX { 0 } else { (x + 1) as u64 }
}

/// `x + 1`, wrapping to 0 after the maximum.
pub open spec fn next_u32(x: u32) -> u32 {
    if x == u32::MAX { 0 } else { (x + 1) as u32 }
}

/// `a + b` in wrapping `u64` arithmetic, for `0 <= b <= u64::MAX`.
pub open spec fn add_wrap(a: u64, b: int) -> u64 {
    if a + b > u64::MAX {
        (a + b - 0x1_0000_0000_0000_0000) as u64
    } else {
        (a + b) as u64
    }
}

/// Whether `flags` ask for `flag`.
pub open spec fn has_flag(flags: u32, flag: u32) -> bool {
    flags & flag != 0
}

impl FsView {
    /// Every inode is stored under its own id.
    pub open spec fn wf(self) -> bool {
        forall|k: InodeId| #[trigger] self.inodes.contains_key(k) ==> self.inodes[k].id == k
    }

    /// Whether `id` names a regular file.
    pub open spec fn is_file(self, id: InodeId) -> bool {
        self.inodes.contains_key(id) && self.inodes[id].content is File
    }

    /// The bytes of the file `id` (empty for anything that is not a file).
    pub open spec fn file_data(self, id: InodeId) -> Seq<u8> {
        match self.inodes[id].content {
            ContentView::File(d) => d,
            ContentView::Dir(_) => Seq::empty(),
        }
    }

    /// The entries of the directory `id` (empty for anything that is not a directory).
    pub open spec fn dir_entries(self, id: InodeId) -> Map<Seq<char>, InodeId> {
        match self.inodes[id].content {
            ContentView::File(_) => Map::empty(),
            ContentView::Dir(m) => m,
        }
    }

    /// Replace the inode `id`.
    pub open spec fn set_inode(self, id: InodeId, n: InodeView) -> FsView {
        FsView { inodes: self.inodes.insert(id, n), ..self }
    }

    /// Replace the handle `fd`.
    pub open spec fn set_fd(self, fd: Fd, h: FileHandle) -> FsView {
        FsView { fds: self.fds.insert(fd, h), ..self }
    }

    /// Look up `name` in the directory `parent` (which is in the table).
    pub open spec fn find(self, parent: InodeId, name: Seq<char>) -> Result<InodeId, FsError> {
        match self.inodes[parent].content {
            ContentView::Dir(m) => if m.contains_key(name) && self.inodes.contains_key(m[name]) {
                Ok(m[name])
            } else {
                Err(FsError::NotFound)
            },
            ContentView::File(_) => Err(FsError::NotADirectory),
        }
    }

    /// Follow `comps` from `cur`, requiring each step to reach a directory.
    pub open spec fn walk_dirs(self, cur: InodeId, comps: Seq<Seq<char>>) -> Result<InodeId, FsError>
        decreases comps.len(),
    {
        if comps.len() == 0 {
            Ok(cur)
        } else {
            match self.find(cur, comps[0]) {
                Err(e) => Err(e),
                Ok(next) => if self.is_file(next) {
                    Err(FsError::NotADirectory)
                } else {
                    self.walk_dirs(next, comps.drop_first())
                },
            }
        }
    }

    /// Follow `comps` from `cur`, looking each name up in turn.
    pub open spec fn walk_all(self, cur: InodeId, comps: Seq<Seq<char>>) -> Result<InodeId, FsError>
        decreases comps.len(),
    {
        if comps.len() == 0 {
            Ok(cur)
        } else {
            match self.find(cur, comps[0]) {
                Err(e) => Err(e),
                Ok(next) => self.walk_all(next, comps.drop_first()),
            }
        }
    }

    /// Create an entry `name` in the directory `parent`, stamped `t`.
    pub open spec fn create_op(self, parent: InodeId, name: Seq<char>, is_dir: bool, t: u64) -> (
        FsView,
        Result<InodeId, FsError>,
    ) {
        let p = self.inodes[parent];
        match p.content {
            ContentView::File(_) => (self, Err(FsError::NotADirectory)),
            ContentView::Dir(m) => if m.contains_key(name) {
                (self, Err(FsError::AlreadyExists))
            } else {
                let id = self.next_inode;
                let node = InodeView {
                    id,
                    meta: Metadata { created: t, modified: t, ..fresh_metadata(is_dir) },
                    content: if is_dir {
                        ContentView::Dir(Map::empty())
                    } else {
                        ContentView::File(Seq::empty())
                    },
                };
                let p2 = InodeView {
                    meta: Metadata { modified: t, ..p.meta },
                    content: ContentView::Dir(m.insert(name, id)),
                    ..p
                };
                let s1 = FsView { next_inode: next_u64(id), ..self.set_inode(parent, p2) };
                (s1.set_inode(id, node), Ok(id))
            },
        }
    }

    /// Hand out the next descriptor for a handle on `id`.
    pub open spec fn open_fd(self, id: InodeId, flags: u32) -> (FsView, Result<Fd, FsError>) {
        let fd = self.next_fd;
        (
            FsView {
                next_fd: next_u32(fd),
                ..self.set_fd(fd, FileHandle { inode_id: id, position: 0, flags })
            },
            Ok(fd),
        )
    }

    /// Open the entry `comps` below the directory `start`. `t1` stamps a
    /// created file, `t2` a truncation.
    pub open spec fn open_from(
        self,
        start: InodeId,
        comps: Seq<Seq<char>>,
        flags: u32,
        t1: u64,
        t2: u64,
    ) -> (FsView, Result<Fd, FsError>) {
        match self.walk_dirs(start, comps.drop_last()) {
            Err(e) => (self, Err(e)),
            Ok(p) => {
                let name = comps.last();
                let (s1, found) = match self.find(p, name) {
                    Ok(c) => (self, Ok(c)),
                    Err(e) => if e == FsError::NotFound && has_flag(flags, O_CREAT) {
                        self.create_op(p, name, false, t1)
                    } else {
                        (self, Err(e))
                    },
                };
                match found {
                    Err(e) => (s1, Err(e)),
                    Ok(c) => {
                        let node = s1.inodes[c];
                        let mode = access_mode(flags);
                        if node.content is Dir && (mode == O_WRONLY || mode == O_RDWR || has_flag(
                            flags,
                            O_TRUNC,
                        )) {
                            (s1, Err(FsError::IsADirectory))
                        } else if has_flag(flags, O_TRUNC) && mode == O_RDONLY {
                            (s1, Err(FsError::InvalidArgument))
                        } else {
                            let s2 = if has_flag(flags, O_TRUNC) && node.content is File {
                                s1.set_inode(
                                    c,
                                    InodeView {
                                        meta: Metadata { size: 0, modified: t2, ..node.meta },
                                        content: ContentView::File(Seq::empty()),
                                        ..node
                                    },
                                )
                            } else {
                                s1
                            };
                            s2.open_fd(s2.inodes[c].id, flags)
                        }
                    },
                }
            },
        }
    }

    /// `open_path_with_flags(path, flags)`.
    pub open spec fn open_path_op(self, path: Seq<char>, flags: u32, t1: u64, t2: u64) -> (
        FsView,
        Result<Fd, FsError>,
    ) {
        let comps = crate::path::components(path);
        if path.len() == 0 {
            (self, Err(FsError::InvalidArgument))
        } else if comps.len() == 0 {
            self.open_fd(self.root, flags)
        } else if !self.inodes.contains_key(self.root) {
            (self, Err(FsError::NotFound))
        } else {
            self.open_from(self.root, comps, flags, t1, t2)
        }
    }

    /// `open_at(dir_fd, path, flags)`.
    pub open spec fn open_at_op(
        self,
        dir_fd: Fd,
        path: Seq<char>,
        flags: u32,
        t1: u64,
        t2: u64,
    ) -> (FsView, Result<Fd, FsError>) {
        let comps = crate::path::components(path);
        if path.len() > 0 && path[0] == '/' {
            (self, Err(FsError::InvalidArgument))
        } else if !self.fds.contains_key(dir_fd) {
            (self, Err(FsError::BadFileDescriptor))
        } else if !self.inodes.contains_key(self.fds[dir_fd].inode_id) {
            (self, Err(FsError::NotFound))
        } else if self.is_file(self.fds[dir_fd].inode_id) {
            (self, Err(FsError::NotADirectory))
        } else if path.len() == 0 || comps.len() == 0 {
            (self, Err(FsError::InvalidArgument))
        } else {
            self.open_from(self.fds[dir_fd].inode_id, comps, flags, t1, t2)
        }
    }

    /// Checks shared by the descriptor-based data operations: the handle of
    /// `fd` and, when the access mode allows the operation, its inode.
    pub open spec fn fd_inode(self, fd: Fd, denied_mode: u32) -> Result<InodeId, FsError> {
        if !self.fds.contains_key(fd) {
            Err(FsError::BadFileDescriptor)
        } else if access_mode(self.fds[fd].flags) == denied_mode {
            Err(FsError::PermissionDenied)
        } else if !self.inodes.contains_key(self.fds[fd].inode_id) {
            Err(FsError::NotFound)
        } else if !self.is_file(self.fds[fd].inode_id) {
            Err(FsError::BadFileDescriptor)
        } else {
            Ok(self.fds[fd].inode_id)
        }
    }

    /// Write `data` at `pos` into the file behind `fd` and move `fd` to `new_pos`.
    pub open spec fn write_file_at(
        self,
        fd: Fd,
        id: InodeId,
        pos: int,
        data: Seq<u8>,
        new_pos: u64,
        t: u64,
    ) -> FsView {
        let node = self.inodes[id];
        let new_data = write_spec(self.file_data(id), pos, data);
        let s1 = self.set_inode(
            id,
            InodeView {
                meta: Metadata { size: new_data.len() as u64, modified: t, ..node.meta },
                content: ContentView::File(new_data),
                ..node
            },
        );
        s1.set_fd(fd, FileHandle { position: new_pos, ..self.fds[fd] })
    }

    /// The offset a `write` on `fd` starts at.
    pub open spec fn write_pos(self, fd: Fd) -> int {
        let id = self.fds[fd].inode_id;
        if has_flag(self.fds[fd].flags, O_APPEND) {
            self.file_data(id).len() as int
        } else {
            (self.fds[fd].position as usize) as int
        }
    }

    /// `write(fd, data)`.
    pub open spec fn write_op(self, fd: Fd, data: Seq<u8>, t: u64) -> (FsView, Result<usize, FsError>) {
        match self.fd_inode(fd, O_RDONLY) {
            Err(e) => (self, Err(e)),
            Ok(id) => (
                self.write_file_at(
                    fd,
                    id,
                    self.write_pos(fd),
                    data,
                    (self.write_pos(fd) + data.len()) as u64,
                    t,
                ),
                Ok(data.len() as usize),
            ),
        }
    }

    /// `write_at(fd, offset, data)`.
    pub open spec fn write_at_op(self, fd: Fd, offset: u64, data: Seq<u8>, t: u64) -> (
        FsView,
        Result<usize, FsError>,
    ) {
        match self.fd_inode(fd, O_RDONLY) {
            Err(e) => (self, Err(e)),
            Ok(id) => (
                self.write_file_at(
                    fd,
                    id,
                    (offset as usize) as int,
                    data,
                    add_wrap(offset, data.len() as int),
                    t,
                ),
                Ok(data.len() as usize),
            ),
        }
    }

    /// `append_write(fd, data)`.
    pub open spec fn append_write_op(self, fd: Fd, data: Seq<u8>, t: u64) -> (
        FsView,
        Result<usize, FsError>,
    ) {
        match self.fd_inode(fd, O_RDONLY) {
            Err(e) => (self, Err(e)),
            Ok(id) => (
                self.write_file_at(
                    fd,
                    id,
                    self.file_data(id).len() as int,
                    data,
                    (self.file_data(id).len() + data.len()) as u64,
                    t,
                ),
                Ok(data.len() as usize),
            ),
        }
    }

    /// Whether a data write of `len` bytes on `fd` starting at `pos` stays
    /// within the address range (always true for an `fd` that a write rejects).
    pub open spec fn write_in_range(self, fd: Fd, pos: int, len: int) -> bool {
        self.fd_inode(fd, O_RDONLY) is Ok ==> pos + len <= usize::MAX
    }

    /// `read(fd, out)` at `pos`: the new state, the buffer after the read and the result.
    pub open spec fn read_at_pos(self, fd: Fd, pos: u64, out: Seq<u8>) -> (
        FsView,
        Seq<u8>,
        Result<usize, FsError>,
    ) {
        match self.fd_inode(fd, O_WRONLY) {
            Err(e) => (self, out, Err(e)),
            Ok(id) => {
                let data = self.file_data(id);
                let n = read_count(data.len() as int, (pos as usize) as int, out.len() as int);
                (
                    self.set_fd(fd, FileHandle { position: add_wrap(pos, n), ..self.fds[fd] }),
                    read_into_spec(data, (pos as usize) as int, out),
                    Ok(n as usize),
                )
            },
        }
    }

    /// `read(fd, out)`: reads at the current position.
    pub open spec fn read_op(self, fd: Fd, out: Seq<u8>) -> (FsView, Seq<u8>, Result<usize, FsError>) {
        self.read_at_pos(fd, if self.fds.contains_key(fd) { self.fds[fd].position } else { 0 }, out)
    }

    /// `ftruncate(fd, size)`.
    pub open spec fn ftruncate_op(self, fd: Fd, size: u64, t: u64) -> (FsView, Result<(), FsError>) {
        match self.fd_inode(fd, O_RDONLY) {
            Err(e) => (self, Err(e)),
            Ok(id) => {
                let node = self.inodes[id];
                (
                    self.set_inode(
                        id,
                        InodeView {
                            meta: Metadata { size, modified: t, ..node.meta },
                            content: ContentView::File(
                                resize_spec(self.file_data(id), (size as usize) as int),
                            ),
                            ..node
                        },
                    ),
                    Ok(()),
                )
            },
        }
    }

    /// `close(fd)`.
    pub open spec fn close_op(self, fd: Fd) -> (FsView, Result<(), FsError>) {
        if self.fds.contains_key(fd) {
            (FsView { fds: self.fds.remove(fd), ..self }, Ok(()))
        } else {
            (self, Err(FsError::BadFileDescriptor))
        }
    }

    /// `stat(path)`.
    pub open spec fn stat_op(self, path: Seq<char>) -> Result<Metadata, FsError> {
        if path.len() == 0 {
            Err(FsError::InvalidArgument)
        } else if !self.inodes.contains_key(self.root) {
            Err(FsError::NotFound)
        } else {
            match self.walk_all(self.root, crate::path::components(path)) {
                Err(e) => Err(e),
                Ok(id) => Ok(self.inodes[id].meta),
            }
        }
    }

    /// `fstat(fd)`.
    pub open spec fn fstat_op(self, fd: Fd) -> Result<Metadata, FsError> {
        if !self.fds.contains_key(fd) {
            Err(FsError::BadFileDescriptor)
        } else if !self.inodes.contains_key(self.fds[fd].inode_id) {
            Err(FsError::NotFound)
        } else {
            Ok(self.inodes[self.fds[fd].inode_id].meta)
        }
    }

    /// The position a seek on `fd` lands on, before the sign check.
    pub open spec fn seek_target(self, fd: Fd, offset: i64, whence: i32) -> int {
        let h = self.fds[fd];
        if whence == 0 {
            offset as int
        } else if whence == 1 {
            (h.position as i64) + offset
        } else {
            (self.file_data(h.inode_id).len() as i64) + offset
        }
    }

    /// Whether a seek stays within `i64` arithmetic.
    pub open spec fn seek_in_range(self, fd: Fd, offset: i64, whence: i32) -> bool {
        (self.fds.contains_key(fd) && self.is_file(self.fds[fd].inode_id) && (whence == 1
            || whence == 2)) ==> i64::MIN <= self.seek_target(fd, offset, whence) <= i64::MAX
    }

    /// `seek(fd, offset, whence)`.
    pub open spec fn seek_op(self, fd: Fd, offset: i64, whence: i32) -> (FsView, Result<u64, FsError>) {
        if !self.fds.contains_key(fd) {
            (self, Err(FsError::BadFileDescriptor))
        } else if !self.inodes.contains_key(self.fds[fd].inode_id) {
            (self, Err(FsError::NotFound))
        } else if !self.is_file(self.fds[fd].inode_id) {
            (self, Err(FsError::BadFileDescriptor))
        } else if whence != 0 && whence != 1 && whence != 2 {
            (self, Err(FsError::InvalidArgument))
        } else if self.seek_target(fd, offset, whence) < 0 {
            (self, Err(FsError::InvalidArgument))
        } else {
            let pos = self.seek_target(fd, offset, whence) as u64;
            (self.set_fd(fd, FileHandle { position: pos, ..self.fds[fd] }), Ok(pos))
        }
    }

    /// The directory that the last component of `comps` lives in, starting at the root.
    pub open spec fn parent_of(self, comps: Seq<Seq<char>>) -> Result<InodeId, FsError> {
        if !self.inodes.contains_key(self.root) {
            Err(FsError::NotFound)
        } else {
            self.walk_dirs(self.root, comps.drop_last())
        }
    }

    /// `mkdir(path)`.
    pub open spec fn mkdir_op(self, path: Seq<char>, t: u64) -> (FsView, Result<(), FsError>) {
        let comps = crate::path::components(path);
        if path.len() == 0 || comps.len() == 0 {
            (self, Err(FsError::InvalidArgument))
        } else {
            match self.parent_of(comps) {
                Err(e) => (self, Err(e)),
                Ok(p) => {
                    let (s1, r) = self.create_op(p, comps.last(), true, t);
                    (s1, match r {
                        Ok(_) => Ok(()),
                        Err(e) => Err(e),
                    })
                },
            }
        }
    }

    /// Walk `comps` from `cur`, creating missing directories; `ts[i]` stamps
    /// the directory created for `comps[i]`.
    pub open spec fn mkdir_p_walk(self, cur: InodeId, comps: Seq<Seq<char>>, ts: Seq<u64>) -> (
        FsView,
        Result<(), FsError>,
    )
        decreases comps.len(),
    {
        if comps.len() == 0 {
            (self, Ok(()))
        } else {
            match self.find(cur, comps[0]) {
                Ok(next) => if self.is_file(next) {
                    (self, Err(FsError::NotADirectory))
                } else {
                    self.mkdir_p_walk(next, comps.drop_first(), ts.drop_first())
                },
                Err(e) => if e == FsError::NotFound {
                    let (s1, r) = self.create_op(cur, comps[0], true, ts[0]);
                    match r {
                        Err(e2) => (s1, Err(e2)),
                        Ok(next) => s1.mkdir_p_walk(next, comps.drop_first(), ts.drop_first()),
                    }
                } else {
                    (self, Err(e))
                },
            }
        }
    }

    /// `mkdir_p(path)`.
    pub open spec fn mkdir_p_op(self, path: Seq<char>, ts: Seq<u64>) -> (FsView, Result<(), FsError>) {
        let comps = crate::path::components(path);
        if path.len() == 0 {
            (self, Err(FsError::InvalidArgument))
        } else if comps.len() == 0 {
            (self, Ok(()))
        } else if !self.inodes.contains_key(self.root) {
            (self, Err(FsError::NotFound))
        } else {
            self.mkdir_p_walk(self.root, comps, ts)
        }
    }

    /// Remove `name` from the directory `p`, stamping it `t`.
    pub open spec fn remove_entry(self, p: InodeId, name: Seq<char>, t: u64) -> FsView {
        let node = self.inodes[p];
        self.set_inode(
            p,
            InodeView {
                meta: Metadata { modified: t, ..node.meta },
                content: ContentView::Dir(self.dir_entries(p).remove(name)),
                ..node
            },
        )
    }

    /// `unlink(path)`.
    pub open spec fn unlink_op(self, path: Seq<char>, t: u64) -> (FsView, Result<(), FsError>) {
        let comps = crate::path::components(path);
        if path.len() == 0 || comps.len() == 0 {
            (self, Err(FsError::InvalidArgument))
        } else {
            match self.parent_of(comps) {
                Err(e) => (self, Err(e)),
                Ok(p) => match self.find(p, comps.last()) {
                    Err(e) => (self, Err(e)),
                    Ok(target) => if self.inodes[target].content is Dir {
                        (self, Err(FsError::IsADirectory))
                    } else {
                        (self.remove_entry(p, comps.last(), t), Ok(()))
                    },
                },
            }
        }
    }

    /// `rmdir(path)`.
    pub open spec fn rmdir_op(self, path: Seq<char>, t: u64) -> (FsView, Result<(), FsError>) {
        let comps = crate::path::components(path);
        if path.len() == 0 || comps.len() == 0 {
            (self, Err(FsError::InvalidArgument))
        } else {
            match self.parent_of(comps) {
                Err(e) => (self, Err(e)),
                Ok(p) => match self.find(p, comps.last()) {
                    Err(e) => (self, Err(e)),
                    Ok(target) => if self.is_file(target) {
                        (self, Err(FsError::NotADirectory))
                    } else if self.dir_entries(target) != Map::<Seq<char>, InodeId>::empty() {
                        (self, Err(FsError::NotEmpty))
                    } else {
                        (self.remove_entry(p, comps.last(), t), Ok(()))
                    },
                },
            }
        }
    }

    /// The directory that `path` names, from the root.
    pub open spec fn readdir_target(self, path: Seq<char>) -> Result<InodeId, FsError> {
        if path.len() == 0 {
            Err(FsError::InvalidArgument)
        } else if !self.inodes.contains_key(self.root) {
            Err(FsError::NotFound)
        } else {
            match self.walk_all(self.root, crate::path::components(path)) {
                Err(e) => Err(e),
                Ok(id) => if self.is_file(id) {
                    Err(FsError::NotADirectory)
                } else {
                    Ok(id)
                },
            }
        }
    }

    /// Whether the destination of a rename rules it out, and with which error.
    pub open spec fn rename_dest_error(self, np: InodeId, new_name: Seq<char>, src_is_dir: bool) -> Option<FsError> {
        match self.find(np, new_name) {
            Err(_) => None,
            Ok(dest) => {
                let d = self.inodes[dest];
                if src_is_dir && !d.meta.is_dir {
                    Some(FsError::NotADirectory)
                } else if !src_is_dir && d.meta.is_dir {
                    Some(FsError::IsADirectory)
                } else if d.meta.is_dir && (d.content matches ContentView::Dir(m) && m
                    != Map::<Seq<char>, InodeId>::empty()) {
                    Some(FsError::NotEmpty)
                } else {
                    None
                }
            },
        }
    }

    /// Move the entry `old_name` of directory `op` to `new_name` in `np`, stamping `t`.
    pub open spec fn rename_move(
        self,
        op: InodeId,
        old_name: Seq<char>,
        np: InodeId,
        new_name: Seq<char>,
        t: u64,
    ) -> (FsView, Result<(), FsError>) {
        let id = self.dir_entries(op)[old_name];
        if self.inodes[op].id == self.inodes[np].id {
            let node = self.inodes[op];
            (
                self.set_inode(
                    op,
                    InodeView {
                        meta: Metadata { modified: t, ..node.meta },
                        content: ContentView::Dir(
                            self.dir_entries(op).remove(old_name).insert(new_name, id),
                        ),
                        ..node
                    },
                ),
                Ok(()),
            )
        } else {
            let s1 = self.remove_entry(op, old_name, t);
            let nn = s1.inodes[np];
            if nn.content is File {
                (s1, Err(FsError::NotADirectory))
            } else {
                (
                    s1.set_inode(
                        np,
                        InodeView {
                            meta: Metadata { modified: t, ..nn.meta },
                            content: ContentView::Dir(s1.dir_entries(np).insert(new_name, id)),
                            ..nn
                        },
                    ),
                    Ok(()),
                )
            }
        }
    }

    /// `rename(old_path, new_path)`.
    pub open spec fn rename_op(self, old_path: Seq<char>, new_path: Seq<char>, t: u64) -> (
        FsView,
        Result<(), FsError>,
    ) {
        let oc = crate::path::components(old_path);
        let nc = crate::path::components(new_path);
        if old_path.len() == 0 || new_path.len() == 0 || oc.len() == 0 || nc.len() == 0 {
            (self, Err(FsError::InvalidArgument))
        } else if oc == nc {
            (self, Ok(()))
        } else {
            match self.parent_of(oc) {
                Err(e) => (self, Err(e)),
                Ok(op) => match self.find(op, oc.last()) {
                    Err(e) => (self, Err(e)),
                    Ok(src) => match self.walk_dirs(self.root, nc.drop_last()) {
                        Err(e) => (self, Err(e)),
                        Ok(np) => match self.rename_dest_error(
                            np,
                            nc.last(),
                            self.inodes[src].meta.is_dir,
                        ) {
                            Some(e) => (self, Err(e)),
                            None => self.rename_move(op, oc.last(), np, nc.last(), t),
                        },
                    },
                },
            }
        }
    }

    // -------------------------------------------------------------------------
    // Which operations record a time
    // -------------------------------------------------------------------------

    /// Whether `open_from` creates the file, recording a creation time.
    pub open spec fn open_from_creates(self, start: InodeId, comps: Seq<Seq<char>>, flags: u32) -> bool {
        match self.walk_dirs(start, comps.drop_last()) {
            Err(_) => false,
            Ok(p) => match self.find(p, comps.last()) {
                Ok(_) => false,
                Err(e) => e == FsError::NotFound && has_flag(flags, O_CREAT) && self.create_op(
                    p,
                    comps.last(),
                    false,
                    0,
                ).1 is Ok,
            },
        }
    }

    /// Whether `open_from` empties the file, recording a modification time.
    pub open spec fn open_from_truncates(self, start: InodeId, comps: Seq<Seq<char>>, flags: u32) -> bool {
        self.open_from(start, comps, flags, 0, 0).1 is Ok && has_flag(flags, O_TRUNC)
    }

    /// Whether `open_path_op` creates and whether it empties a file.
    pub open spec fn open_path_stamps(self, path: Seq<char>, flags: u32) -> (bool, bool) {
        let comps = crate::path::components(path);
        if path.len() == 0 || comps.len() == 0 || !self.inodes.contains_key(self.root) {
            (false, false)
        } else {
            (
                self.open_from_creates(self.root, comps, flags),
                self.open_from_truncates(self.root, comps, flags),
            )
        }
    }

    /// Whether `open_at_op` creates and whether it empties a file.
    pub open spec fn open_at_stamps(self, dir_fd: Fd, path: Seq<char>, flags: u32) -> (bool, bool) {
        let comps = crate::path::components(path);
        if (path.len() > 0 && path[0] == '/') || !self.fds.contains_key(dir_fd)
            || !self.inodes.contains_key(self.fds[dir_fd].inode_id) || self.is_file(
            self.fds[dir_fd].inode_id,
        ) || path.len() == 0 || comps.len() == 0 {
            (false, false)
        } else {
            (
                self.open_from_creates(self.fds[dir_fd].inode_id, comps, flags),
                self.open_from_truncates(self.fds[dir_fd].inode_id, comps, flags),
            )
        }
    }

    /// Whether `rename_op` gets as far as moving the entry, recording a time.
    pub open spec fn rename_moves(self, old_path: Seq<char>, new_path: Seq<char>) -> bool {
        let oc = crate::path::components(old_path);
        let nc = crate::path::components(new_path);
        &&& old_path.len() > 0 && new_path.len() > 0 && oc.len() > 0 && nc.len() > 0
        &&& oc != nc
        &&& self.parent_of(oc) matches Ok(op)
        &&& self.find(op, oc.last()) matches Ok(src)
        &&& self.walk_dirs(self.root, nc.drop_last()) matches Ok(np)
        &&& self.rename_dest_error(np, nc.last(), self.inodes[src].meta.is_dir) is None
    }

    /// The times `mkdir_p_walk` records when they come from the source `c`,
    /// and the source afterwards: each created directory takes the next
    /// stamp.
    pub open spec fn mkdir_p_times<T: TimeProvider>(self, cur: InodeId, comps: Seq<Seq<char>>, c: T) -> (
        Seq<u64>,
        T,
    )
        decreases comps.len(),
    {
        if comps.len() == 0 {
            (seq![], c)
        } else {
            match self.find(cur, comps[0]) {
                Ok(next) => if self.is_file(next) {
                    (seq![], c)
                } else {
                    let (ts, c2) = self.mkdir_p_times(next, comps.drop_first(), c);
                    (seq![0u64] + ts, c2)
                },
                Err(e) => if e == FsError::NotFound {
                    let (s1, r) = self.create_op(cur, comps[0], true, c.next_stamp());
                    match r {
                        Err(_) => (seq![c.next_stamp()], c),
                        Ok(next) => {
                            let (ts, c2) = s1.mkdir_p_times(next, comps.drop_first(), c.ticked());
                            (seq![c.next_stamp()] + ts, c2)
                        },
                    }
                } else {
                    (seq![], c)
                },
            }
        }
    }

    /// The times `mkdir_p_op` records when they come from the source `c`,
    /// and the source afterwards.
    pub open spec fn mkdir_p_op_times<T: TimeProvider>(self, path: Seq<char>, c: T) -> (Seq<u64>, T) {
        let comps = crate::path::components(path);
        if path.len() == 0 || comps.len() == 0 || !self.inodes.contains_key(self.root) {
            (seq![], c)
        } else {
            self.mkdir_p_times(self.root, comps, c)
        }
    }
}

} // verus!
