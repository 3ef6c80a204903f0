//! What reading, writing and opening do, stated over their inputs and
//! results: where a descriptor's position ends up, which bytes a read
//! returns, which bytes a write leaves in the file, and when an open is
//! refused.

use vstd::prelude::*;
use crate::fs_spec::{has_flag, FsView};
use crate::handle::FileHandle;
use crate::inode::ContentView;
use crate::types::{access_mode, Fd, FsError, O_APPEND, O_CREAT, O_RDONLY, O_RDWR, O_TRUNC, O_WRONLY};

verus! {

/// A successful read of `n` bytes at the descriptor's position `p` returns
/// the file's bytes `p .. p + n` in the front of the buffer and leaves the
/// rest of the buffer as it was; it reads as many bytes as asked for or up
/// to the end of the file, and moves the position to `p + n`. Nothing else
/// changes.
pub proof fn law_read_advances(s: FsView, fd: Fd, out: Seq<u8>)
    requires
        s.fd_inode(fd, O_WRONLY) is Ok,
        s.fds[fd].position <= usize::MAX,
        s.file_data(s.fds[fd].inode_id).len() <= usize::MAX,
    ensures
        ({
            let p = s.fds[fd].position as int;
            let data = s.file_data(s.fds[fd].inode_id);
            let (s2, got, r) = s.read_op(fd, out);
            r matches Ok(n) && {
                &&& n <= out.len()
                &&& p < data.len() ==> p + n <= data.len()
                &&& p >= data.len() ==> n == 0
                &&& n == out.len() || p + n >= data.len()
                &&& got.len() == out.len()
                &&& forall|i: int| 0 <= i < n ==> #[trigger] got[i] == data[p + i]
                &&& forall|i: int| n <= i < out.len() ==> #[trigger] got[i] == out[i]
                &&& s2.fds.contains_key(fd)
                &&& s2.fds[fd].position == p + n
                &&& s2.fds[fd].inode_id == s.fds[fd].inode_id
                &&& s2.fds[fd].flags == s.fds[fd].flags
                &&& s2.fds.dom() == s.fds.dom()
                &&& forall|g: Fd| g != fd && #[trigger] s.fds.contains_key(g) ==> s2.fds[g] == s.fds[g]
                &&& s2.inodes == s.inodes
            }
        }),
{
    let p = s.fds[fd].position;
    let (s2, got, r) = s.read_op(fd, out);
    assert(s2.fds.dom() =~= s.fds.dom());
}

/// A successful `read_at` of `n` bytes at `offset` returns the file's bytes
/// `offset .. offset + n` in the front of the buffer, reads as many bytes as
/// asked for or up to the end of the file, and leaves the descriptor's
/// position at `offset + n`.
pub proof fn law_read_at_reads_there(s: FsView, fd: Fd, offset: u64, out: Seq<u8>)
    requires
        s.fd_inode(fd, O_WRONLY) is Ok,
        offset <= usize::MAX,
        s.file_data(s.fds[fd].inode_id).len() <= usize::MAX,
    ensures
        ({
            let data = s.file_data(s.fds[fd].inode_id);
            let (s2, got, r) = s.read_at_pos(fd, offset, out);
            r matches Ok(n) && {
                &&& n <= out.len()
                &&& offset < data.len() ==> offset + n <= data.len()
                &&& offset >= data.len() ==> n == 0
                &&& n == out.len() || offset + n >= data.len()
                &&& got.len() == out.len()
                &&& forall|i: int| 0 <= i < n ==> #[trigger] got[i] == data[offset + i]
                &&& forall|i: int| n <= i < out.len() ==> #[trigger] got[i] == out[i]
                &&& s2.fds[fd] == FileHandle { position: (offset + n) as u64, ..s.fds[fd] }
                &&& s2.inodes == s.inodes
            }
        }),
{
}

/// Two reads in a row return consecutive bytes of the file: the second
/// starts where the first stopped.
pub proof fn law_reads_are_consecutive(s: FsView, fd: Fd, o1: Seq<u8>, o2: Seq<u8>)
    requires
        s.fd_inode(fd, O_WRONLY) is Ok,
        s.file_data(s.fds[fd].inode_id).len() <= usize::MAX,
        s.fds[fd].position <= s.file_data(s.fds[fd].inode_id).len(),
    ensures
        ({
            let p = s.fds[fd].position as int;
            let data = s.file_data(s.fds[fd].inode_id);
            let (s1, g1, r1) = s.read_op(fd, o1);
            let (s2, g2, r2) = s1.read_op(fd, o2);
            r1 matches Ok(n1) && r2 matches Ok(n2) && {
                &&& s2.fds[fd].position == p + n1 + n2
                &&& forall|i: int| 0 <= i < n1 ==> #[trigger] g1[i] == data[p + i]
                &&& forall|i: int| 0 <= i < n2 ==> #[trigger] g2[i] == data[p + n1 + i]
            }
        }),
{
    law_read_advances(s, fd, o1);
    let s1 = s.read_op(fd, o1).0;
    assert(s1.fd_inode(fd, O_WRONLY) == s.fd_inode(fd, O_WRONLY));
    assert(s1.file_data(s1.fds[fd].inode_id) == s.file_data(s.fds[fd].inode_id));
    law_read_advances(s1, fd, o2);
}

/// What a write of `data` at `pos` through `fd` leaves: the file holds
/// `data` at `pos .. pos + data.len()`, keeps its other bytes, reads as
/// zeros in a gap it opened past the old end, and is as long as the longer
/// of its old length and `pos + data.len()`.
pub open spec fn wrote(old_data: Seq<u8>, new_data: Seq<u8>, pos: int, data: Seq<u8>) -> bool {
    &&& new_data.len() == if pos + data.len() > old_data.len() {
        pos + data.len()
    } else {
        old_data.len() as int
    }
    &&& forall|i: int| 0 <= i < data.len() ==> #[trigger] new_data[pos + i] == data[i]
    &&& forall|i: int|
        0 <= i < new_data.len() && !(pos <= i < pos + data.len()) ==> #[trigger] new_data[i] == if i
            < old_data.len() {
            old_data[i]
        } else {
            0u8
        }
}

/// A successful `write_at` of `data` at `offset` writes all of it there and
/// leaves the descriptor's position at `offset + data.len()`; the other
/// descriptors and the other inodes stay as they were.
pub proof fn law_write_at_advances(s: FsView, fd: Fd, offset: u64, data: Seq<u8>, t: u64)
    requires
        s.fd_inode(fd, O_RDONLY) is Ok,
        offset + data.len() <= usize::MAX,
    ensures
        ({
            let id = s.fds[fd].inode_id;
            let (s2, r) = s.write_at_op(fd, offset, data, t);
            &&& r == Ok::<usize, FsError>(data.len() as usize)
            &&& s2.fds[fd].position == offset + data.len()
            &&& s2.fds[fd].inode_id == id
            &&& s2.fds[fd].flags == s.fds[fd].flags
            &&& wrote(s.file_data(id), s2.file_data(id), offset as int, data)
            &&& s2.fds.dom() == s.fds.dom()
            &&& forall|g: Fd| g != fd && #[trigger] s.fds.contains_key(g) ==> s2.fds[g] == s.fds[g]
            &&& s2.inodes.dom() == s.inodes.dom()
            &&& forall|k: u64| k != id && #[trigger] s.inodes.contains_key(k) ==> s2.inodes[k]
                == s.inodes[k]
        }),
{
    let id = s.fds[fd].inode_id;
    let s2 = s.write_at_op(fd, offset, data, t).0;
    assert(s2.fds.dom() =~= s.fds.dom());
    assert(s2.inodes.dom() =~= s.inodes.dom());
}

/// A successful `write` of `data` writes all of it where the descriptor
/// stands (at the end of the file for a descriptor opened to append) and
/// moves the position past it.
pub proof fn law_write_advances(s: FsView, fd: Fd, data: Seq<u8>, t: u64)
    requires
        s.fd_inode(fd, O_RDONLY) is Ok,
        (if has_flag(s.fds[fd].flags, O_APPEND) {
            s.file_data(s.fds[fd].inode_id).len() as int
        } else {
            s.fds[fd].position as int
        }) + data.len() <= usize::MAX,
    ensures
        ({
            let id = s.fds[fd].inode_id;
            let pos = if has_flag(s.fds[fd].flags, O_APPEND) {
                s.file_data(id).len() as int
            } else {
                s.fds[fd].position as int
            };
            let (s2, r) = s.write_op(fd, data, t);
            &&& r == Ok::<usize, FsError>(data.len() as usize)
            &&& s2.fds[fd].position == pos + data.len()
            &&& wrote(s.file_data(id), s2.file_data(id), pos, data)
            &&& s2.fds.dom() == s.fds.dom()
            &&& forall|g: Fd| g != fd && #[trigger] s.fds.contains_key(g) ==> s2.fds[g] == s.fds[g]
        }),
{
    let s2 = s.write_op(fd, data, t).0;
    assert(s2.fds.dom() =~= s.fds.dom());
}

/// A successful `append_write` puts `data` after the file's last byte and
/// leaves the position at the new end of the file.
pub proof fn law_append_goes_to_the_end(s: FsView, fd: Fd, data: Seq<u8>, t: u64)
    requires
        s.fd_inode(fd, O_RDONLY) is Ok,
        s.file_data(s.fds[fd].inode_id).len() + data.len() <= usize::MAX,
    ensures
        ({
            let id = s.fds[fd].inode_id;
            let old_data = s.file_data(id);
            let (s2, r) = s.append_write_op(fd, data, t);
            &&& r == Ok::<usize, FsError>(data.len() as usize)
            &&& s2.file_data(id) == old_data + data
            &&& s2.fds[fd].position == old_data.len() + data.len()
        }),
{
    let id = s.fds[fd].inode_id;
    let s2 = s.append_write_op(fd, data, t).0;
    assert(s2.file_data(id) =~= s.file_data(id) + data);
}

/// A walk by names that succeeds passes only through directories, so it is
/// also the walk through directories up to its last step.
proof fn lemma_walk_all_through_dirs(s: FsView, cur: u64, comps: Seq<Seq<char>>)
    requires
        comps.len() > 0,
        s.walk_all(cur, comps) is Ok,
    ensures
        s.walk_dirs(cur, comps.drop_last()) == s.walk_all(cur, comps.drop_last()),
        s.walk_all(cur, comps.drop_last()) matches Ok(p) && s.find(p, comps.last()) == s.walk_all(
            cur,
            comps,
        ),
    decreases comps.len(),
{
    if comps.len() > 1 {
        let next = s.find(cur, comps[0])->Ok_0;
        let rest = comps.drop_first();
        assert(s.walk_all(cur, comps) == s.walk_all(next, rest));
        if s.is_file(next) {
            assert(s.find(next, rest[0]) is Err);
            assert(false);
        }
        lemma_walk_all_through_dirs(s, next, rest);
        assert(comps.drop_last()[0] == comps[0]);
        assert(comps.drop_last().drop_first() =~= rest.drop_last());
        assert(rest.last() == comps.last());
    } else {
        assert(comps.drop_last() =~= Seq::<Seq<char>>::empty());
        assert(s.walk_all(cur, comps) == s.walk_all(s.find(cur, comps[0])->Ok_0, comps.drop_first()))
            by {
            assert(s.find(cur, comps[0]) is Ok);
        }
        assert(comps.drop_first() =~= Seq::<Seq<char>>::empty());
        assert(comps.last() == comps[0]);
    }
}

/// An open below `start` whose target is a directory is refused with
/// `IsADirectory`, and changes nothing, when it asks for write access or to
/// truncate.
pub proof fn law_open_from_refuses_writable_directory(
    s: FsView,
    start: u64,
    comps: Seq<Seq<char>>,
    flags: u32,
    t1: u64,
    t2: u64,
)
    requires
        comps.len() > 0,
        s.walk_all(start, comps) matches Ok(id) && s.inodes.contains_key(id) && s.inodes[id].content is Dir,
        access_mode(flags) == O_WRONLY || access_mode(flags) == O_RDWR || has_flag(flags, O_TRUNC),
    ensures
        s.open_from(start, comps, flags, t1, t2) == (s, Err::<Fd, FsError>(FsError::IsADirectory)),
{
    lemma_walk_all_through_dirs(s, start, comps);
}

/// Opening a path that names a directory, other than the root itself, with
/// write access or to truncate is refused with `IsADirectory` and hands out
/// no descriptor.
pub proof fn law_open_path_refuses_writable_directory(
    s: FsView,
    path: Seq<char>,
    flags: u32,
    t1: u64,
    t2: u64,
)
    requires
        s.inodes.contains_key(s.root),
        crate::path::components(path).len() > 0,
        s.walk_all(s.root, crate::path::components(path)) matches Ok(id) && s.inodes.contains_key(id)
            && s.inodes[id].content is Dir,
        access_mode(flags) == O_WRONLY || access_mode(flags) == O_RDWR || has_flag(flags, O_TRUNC),
    ensures
        s.open_path_op(path, flags, t1, t2) == (s, Err::<Fd, FsError>(FsError::IsADirectory)),
{
    let comps = crate::path::components(path);
    if path.len() == 0 {
        assert(crate::path::split_scan(path) == (Seq::<Seq<char>>::empty(), Seq::<char>::empty()));
    }
    law_open_from_refuses_writable_directory(s, s.root, comps, flags, t1, t2);
}

/// Opening, relative to a directory descriptor, a path that names a
/// directory with write access or to truncate is refused with
/// `IsADirectory` and hands out no descriptor.
pub proof fn law_open_at_refuses_writable_directory(
    s: FsView,
    dir_fd: Fd,
    path: Seq<char>,
    flags: u32,
    t1: u64,
    t2: u64,
)
    requires
        !(path.len() > 0 && path[0] == '/'),
        s.fds.contains_key(dir_fd),
        s.inodes.contains_key(s.fds[dir_fd].inode_id),
        !s.is_file(s.fds[dir_fd].inode_id),
        crate::path::components(path).len() > 0,
        s.walk_all(s.fds[dir_fd].inode_id, crate::path::components(path)) matches Ok(id)
            && s.inodes.contains_key(id) && s.inodes[id].content is Dir,
        access_mode(flags) == O_WRONLY || access_mode(flags) == O_RDWR || has_flag(flags, O_TRUNC),
    ensures
        s.open_at_op(dir_fd, path, flags, t1, t2) == (s, Err::<Fd, FsError>(FsError::IsADirectory)),
{
    let comps = crate::path::components(path);
    if path.len() == 0 {
        assert(crate::path::split_scan(path) == (Seq::<Seq<char>>::empty(), Seq::<char>::empty()));
    }
    law_open_from_refuses_writable_directory(s, s.fds[dir_fd].inode_id, comps, flags, t1, t2);
}


/// A seek to `offset` from the start (`whence` 0), from the current
/// position (1) or from the end of the file (2) lands there: the position
/// becomes that target and is returned. A target before the start of the
/// file, or another `whence`, is refused with `InvalidArgument` and moves
/// nothing.
pub proof fn law_seek_lands_on_target(s: FsView, fd: Fd, offset: i64, whence: i32)
    requires
        s.fds.contains_key(fd),
        s.is_file(s.fds[fd].inode_id),
        s.fds[fd].position <= i64::MAX,
        s.file_data(s.fds[fd].inode_id).len() <= i64::MAX,
    ensures
        ({
            let base: int = if whence == 0 {
                0
            } else if whence == 1 {
                s.fds[fd].position as int
            } else {
                s.file_data(s.fds[fd].inode_id).len() as int
            };
            let target = base + offset;
            let (s2, r) = s.seek_op(fd, offset, whence);
            &&& whence != 0 && whence != 1 && whence != 2 ==> s2 == s && r == Err::<u64, FsError>(
                FsError::InvalidArgument,
            )
            &&& (whence == 0 || whence == 1 || whence == 2) && target < 0 ==> s2 == s && r == Err::<
                u64,
                FsError,
            >(FsError::InvalidArgument)
            &&& (whence == 0 || whence == 1 || whence == 2) && target >= 0 ==> {
                &&& r == Ok::<u64, FsError>(target as u64)
                &&& s2.fds[fd] == FileHandle { position: target as u64, ..s.fds[fd] }
                &&& s2.fds.dom() == s.fds.dom()
                &&& forall|g: Fd| g != fd && #[trigger] s.fds.contains_key(g) ==> s2.fds[g]
                    == s.fds[g]
                &&& s2.inodes == s.inodes
            }
        }),
{
    let s2 = s.seek_op(fd, offset, whence).0;
    assert(s2.fds.dom() =~= s.fds.dom());
}

/// A successful `ftruncate` to `size` makes the file `size` bytes long,
/// keeping its bytes below `size` and reading as zeros past its old end;
/// the descriptor's position does not move.
pub proof fn law_ftruncate_sets_length(s: FsView, fd: Fd, size: u64, t: u64)
    requires
        s.fd_inode(fd, O_RDONLY) is Ok,
        size <= usize::MAX,
    ensures
        ({
            let id = s.fds[fd].inode_id;
            let old_data = s.file_data(id);
            let (s2, r) = s.ftruncate_op(fd, size, t);
            &&& r == Ok::<(), FsError>(())
            &&& s2.file_data(id).len() == size
            &&& forall|i: int| 0 <= i < size ==> #[trigger] s2.file_data(id)[i] == if i
                < old_data.len() {
                old_data[i]
            } else {
                0u8
            }
            &&& s2.inodes[id].meta.size == size
            &&& s2.fds == s.fds
        }),
{
}

/// A descriptor opened for writing only cannot read, and one opened for
/// reading only cannot write, append or truncate: each is refused with
/// `PermissionDenied` and changes nothing.
pub proof fn law_access_mode_is_enforced(s: FsView, fd: Fd, out: Seq<u8>, data: Seq<u8>, offset: u64, size: u64, t: u64)
    requires
        s.fds.contains_key(fd),
    ensures
        access_mode(s.fds[fd].flags) == O_WRONLY ==> s.read_op(fd, out) == (s, out, Err::<usize, FsError>(
            FsError::PermissionDenied,
        )),
        access_mode(s.fds[fd].flags) == O_RDONLY ==> {
            &&& s.write_op(fd, data, t) == (s, Err::<usize, FsError>(FsError::PermissionDenied))
            &&& s.write_at_op(fd, offset, data, t) == (s, Err::<usize, FsError>(FsError::PermissionDenied))
            &&& s.append_write_op(fd, data, t) == (s, Err::<usize, FsError>(FsError::PermissionDenied))
            &&& s.ftruncate_op(fd, size, t) == (s, Err::<(), FsError>(FsError::PermissionDenied))
        },
{
}

/// A walk by names that ends at a directory is a walk through directories.
proof fn lemma_walk_all_to_dir(s: FsView, cur: u64, comps: Seq<Seq<char>>)
    requires
        s.walk_all(cur, comps) matches Ok(p) && s.inodes.contains_key(p) && s.inodes[p].content is Dir,
    ensures
        s.walk_dirs(cur, comps) == s.walk_all(cur, comps),
    decreases comps.len(),
{
    if comps.len() > 0 {
        let next = s.find(cur, comps[0])->Ok_0;
        let rest = comps.drop_first();
        assert(s.walk_all(cur, comps) == s.walk_all(next, rest));
        if s.is_file(next) {
            if rest.len() > 0 {
                assert(s.find(next, rest[0]) is Err);
            } else {
                assert(s.walk_all(next, rest) == Ok::<u64, FsError>(next));
            }
            assert(false);
        }
        lemma_walk_all_to_dir(s, next, rest);
    }
}

/// Opening an existing file by its path hands out the next descriptor,
/// on that file, at position 0, with the flags asked for; with `O_TRUNC`
/// (and write access) the file is emptied, otherwise its bytes stay. Asking
/// to truncate with read-only access is refused with `InvalidArgument`.
pub proof fn law_open_existing_file(s: FsView, path: Seq<char>, flags: u32, t1: u64, t2: u64)
    requires
        s.wf(),
        s.inodes.contains_key(s.root),
        crate::path::components(path).len() > 0,
        s.walk_all(s.root, crate::path::components(path)) matches Ok(id) && s.is_file(id),
    ensures
        ({
            let id = s.walk_all(s.root, crate::path::components(path))->Ok_0;
            let (s2, r) = s.open_path_op(path, flags, t1, t2);
            &&& has_flag(flags, O_TRUNC) && access_mode(flags) == O_RDONLY ==> s2 == s && r == Err::<
                Fd,
                FsError,
            >(FsError::InvalidArgument)
            &&& !(has_flag(flags, O_TRUNC) && access_mode(flags) == O_RDONLY) ==> {
                &&& r == Ok::<Fd, FsError>(s.next_fd)
                &&& s2.fds[s.next_fd] == FileHandle { inode_id: id, position: 0, flags }
                &&& s2.file_data(id) == if has_flag(flags, O_TRUNC) {
                    Seq::<u8>::empty()
                } else {
                    s.file_data(id)
                }
                &&& s2.inodes.dom() == s.inodes.dom()
                &&& forall|g: Fd| g != s.next_fd && #[trigger] s.fds.contains_key(g) ==> s2.fds[g]
                    == s.fds[g]
            }
        }),
{
    let comps = crate::path::components(path);
    if path.len() == 0 {
        assert(crate::path::split_scan(path) == (Seq::<Seq<char>>::empty(), Seq::<char>::empty()));
    }
    lemma_walk_all_through_dirs(s, s.root, comps);
    let s2 = s.open_path_op(path, flags, t1, t2).0;
    assert(s2.inodes.dom() =~= s.inodes.dom());
}

/// Opening a missing file whose directory exists: without `O_CREAT` it is
/// refused with `NotFound` and nothing changes; with `O_CREAT` a new empty
/// file is made under the next inode number, entered in the directory under
/// the path's last name, and the next descriptor is handed out on it at
/// position 0 (unless truncation is asked for with read-only access).
pub proof fn law_open_missing_file(s: FsView, path: Seq<char>, flags: u32, t1: u64, t2: u64)
    requires
        s.inodes.contains_key(s.root),
        crate::path::components(path).len() > 0,
        s.walk_all(s.root, crate::path::components(path).drop_last()) matches Ok(p)
            && s.inodes.contains_key(p) && s.inodes[p].content is Dir
            && !s.dir_entries(p).contains_key(crate::path::components(path).last()),
        !s.inodes.contains_key(s.next_inode),
    ensures
        ({
            let comps = crate::path::components(path);
            let p = s.walk_all(s.root, comps.drop_last())->Ok_0;
            let id = s.next_inode;
            let (s2, r) = s.open_path_op(path, flags, t1, t2);
            &&& !has_flag(flags, O_CREAT) ==> s2 == s && r == Err::<Fd, FsError>(FsError::NotFound)
            &&& has_flag(flags, O_CREAT) && !(has_flag(flags, O_TRUNC) && access_mode(flags)
                == O_RDONLY) ==> {
                &&& r == Ok::<Fd, FsError>(s.next_fd)
                &&& s2.inodes.contains_key(id)
                &&& s2.inodes[id].content == ContentView::File(Seq::empty())
                &&& s2.dir_entries(p) == s.dir_entries(p).insert(comps.last(), id)
                &&& s2.fds[s.next_fd] == FileHandle { inode_id: id, position: 0, flags }
            }
        }),
{
    let comps = crate::path::components(path);
    if path.len() == 0 {
        assert(crate::path::split_scan(path) == (Seq::<Seq<char>>::empty(), Seq::<char>::empty()));
    }
    lemma_walk_all_to_dir(s, s.root, comps.drop_last());
    let p = s.walk_all(s.root, comps.drop_last())->Ok_0;
    assert(s.find(p, comps.last()) == Err::<u64, FsError>(FsError::NotFound));
}


/// Directory changes that the target's kind forbids are refused and change
/// nothing: creating a name that exists (`AlreadyExists`), unlinking a
/// directory (`IsADirectory`), removing a file as a directory
/// (`NotADirectory`) or a directory that still has entries (`NotEmpty`).
pub proof fn law_directory_changes_refused(s: FsView, path: Seq<char>, t: u64)
    requires
        s.inodes.contains_key(s.root),
        crate::path::components(path).len() > 0,
        s.walk_all(s.root, crate::path::components(path)) matches Ok(id) && s.inodes.contains_key(id),
    ensures
        ({
            let id = s.walk_all(s.root, crate::path::components(path))->Ok_0;
            &&& s.mkdir_op(path, t) == (s, Err::<(), FsError>(FsError::AlreadyExists))
            &&& s.inodes[id].content is Dir ==> s.unlink_op(path, t) == (s, Err::<(), FsError>(
                FsError::IsADirectory,
            ))
            &&& s.inodes[id].content is File ==> s.rmdir_op(path, t) == (s, Err::<(), FsError>(
                FsError::NotADirectory,
            ))
            &&& s.inodes[id].content is Dir && s.dir_entries(id) != Map::<Seq<char>, u64>::empty()
                ==> s.rmdir_op(path, t) == (s, Err::<(), FsError>(FsError::NotEmpty))
        }),
{
    let comps = crate::path::components(path);
    if path.len() == 0 {
        assert(crate::path::split_scan(path) == (Seq::<Seq<char>>::empty(), Seq::<char>::empty()));
    }
    lemma_walk_all_through_dirs(s, s.root, comps);
}


/// A file's recorded size is its length after every change of its bytes:
/// a write, a positioned write, an append and a truncation.
pub proof fn law_size_follows_length(s: FsView, fd: Fd, data: Seq<u8>, offset: u64, size: u64, t: u64)
    requires
        s.fd_inode(fd, O_RDONLY) is Ok,
    ensures
        ({
            let id = s.fds[fd].inode_id;
            &&& s.write_op(fd, data, t).0.inodes[id].meta.size == s.write_op(
                fd,
                data,
                t,
            ).0.file_data(id).len() as u64
            &&& s.write_at_op(fd, offset, data, t).0.inodes[id].meta.size == s.write_at_op(
                fd,
                offset,
                data,
                t,
            ).0.file_data(id).len() as u64
            &&& s.append_write_op(fd, data, t).0.inodes[id].meta.size == s.append_write_op(
                fd,
                data,
                t,
            ).0.file_data(id).len() as u64
            &&& size <= usize::MAX ==> s.ftruncate_op(fd, size, t).0.inodes[id].meta.size
                == s.ftruncate_op(fd, size, t).0.file_data(id).len()
        }),
{
}


/// Closing an open descriptor succeeds and forgets only that descriptor:
/// the other descriptors and every file stay as they were. Closing one
/// that is not open is refused with `BadFileDescriptor` and changes
/// nothing.
pub proof fn law_close_forgets_only_the_descriptor(s: FsView, fd: Fd)
    ensures
        s.fds.contains_key(fd) ==> {
            let (s2, r) = s.close_op(fd);
            &&& r == Ok::<(), FsError>(())
            &&& !s2.fds.contains_key(fd)
            &&& s2.fds.dom() == s.fds.dom().remove(fd)
            &&& forall|g: Fd| g != fd && #[trigger] s.fds.contains_key(g) ==> s2.fds[g] == s.fds[g]
            &&& s2.inodes == s.inodes
            &&& s2.next_fd == s.next_fd
        },
        !s.fds.contains_key(fd) ==> s.close_op(fd) == (s, Err::<(), FsError>(
            FsError::BadFileDescriptor,
        )),
{
    let s2 = s.close_op(fd).0;
    assert(s.fds.contains_key(fd) ==> s2.fds.dom() =~= s.fds.dom().remove(fd));
}

} // verus!
