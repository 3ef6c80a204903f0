//! The filesystem as a guest sees it through the in-process adapter: guest
//! descriptors, paths relative to the root descriptor, guest error codes.
//! Descriptor 0 is the root directory; paths given with it are made
//! absolute, paths given with another descriptor are refused except where
//! the filesystem can resolve them below that descriptor.

use vstd::prelude::*;
use crate::adapter::{
    convert_flags, fs_error_to_wasi, guest_open_flags, make_descriptor_stat_with_times,
    to_error_code, DescriptorStat, DescriptorType, WasiErrorCode,
};
use crate::fs::Fs;
use crate::fs_spec::FsView;
use crate::inode::Metadata;
use crate::path::{normalize_path, trim_leading_slashes};
use crate::server::zeros;
use crate::time::TimeProvider;
use crate::types::{Fd, FsError, O_RDONLY};
use crate::vfs_state::{allocated, fresh_table, VfsState, VfsStateView};
use crate::fs::{listing_matches, listing_names};
use crate::hooks::FsDirectoryEntryStreamWrapper;
use crate::inode::names_sorted;
use crate::path::{str_chars, strings_view};

verus! {

/// The absolute form of a path given with the root descriptor.
pub open spec fn absolute(path: Seq<char>) -> Seq<char> {
    seq!['/'] + trim_leading_slashes(path)
}

/// The kind of an entry with metadata `m`.
pub open spec fn kind_of(m: Metadata) -> DescriptorType {
    if m.is_dir {
        DescriptorType::Directory
    } else {
        DescriptorType::RegularFile
    }
}

/// The stat a guest gets for metadata `m` of an entry of kind `k`.
pub open spec fn stat_of(k: DescriptorType, m: Metadata) -> DescriptorStat {
    DescriptorStat {
        type_: k,
        link_count: 1,
        size: m.size,
        data_access_timestamp: Some(m.created),
        data_modification_timestamp: Some(m.modified),
        status_change_timestamp: Some(m.modified),
    }
}

/// A filesystem result with the error as the guest sees it.
pub open spec fn guest_result<A>(r: Result<A, FsError>) -> Result<A, WasiErrorCode> {
    match r {
        Ok(a) => Ok(a),
        Err(e) => Err(fs_error_to_wasi(e)),
    }
}

/// The filesystem descriptor behind guest descriptor `handle`.
pub open spec fn guest_fd(t: VfsStateView, handle: u32) -> Result<Fd, WasiErrorCode> {
    if t.to_fd.contains_key(handle) {
        Ok(t.to_fd[handle])
    } else {
        Err(WasiErrorCode::BadDescriptor)
    }
}

/// What reading `length` bytes at `offset` through `handle` does and gives:
/// a seek to the offset, a read into a buffer of that length, the bytes
/// read and whether fewer came than asked for.
pub open spec fn guest_read_op(t: VfsStateView, f: FsView, handle: u32, length: u64, offset: u64) -> (
    FsView,
    Result<(Seq<u8>, bool), WasiErrorCode>,
) {
    match guest_fd(t, handle) {
        Err(e) => (f, Err(e)),
        Ok(fd) => {
            let (f1, sr) = f.seek_op(fd, offset as i64, 0);
            match sr {
                Err(e) => (f1, Err(fs_error_to_wasi(e))),
                Ok(_) => {
                    let (f2, out, rr) = f1.read_op(fd, zeros((length as usize) as nat));
                    match rr {
                        Err(e) => (f2, Err(fs_error_to_wasi(e))),
                        Ok(n) => (f2, Ok((out.take(n as int), n < (length as usize)))),
                    }
                },
            }
        },
    }
}

/// Whether a write of `len` bytes at `offset` through `handle` stays
/// within the address range once the seek to `offset` succeeded.
pub open spec fn guest_write_in_range(t: VfsStateView, f: FsView, handle: u32, offset: u64, len: int) -> bool {
    match guest_fd(t, handle) {
        Err(_) => true,
        Ok(fd) => {
            let f1 = f.seek_op(fd, offset as i64, 0).0;
            f.seek_op(fd, offset as i64, 0).1 is Ok ==> f1.write_in_range(fd, f1.write_pos(fd), len)
        },
    }
}

/// Whether opening `path` with `handle` opens the root directory itself:
/// an empty path, `.`, or `/` given with the root descriptor.
pub open spec fn opens_root(handle: u32, path: Seq<char>) -> bool {
    path.len() == 0 || path == seq!['.'] || (handle == 0 && path == seq!['/'])
}

/// After an open that gave `ro`, the table `t2` and the reply `r`: a new
/// guest descriptor for the opened descriptor, or the error.
pub open spec fn registered_open(
    t: VfsStateView,
    ro: Result<Fd, FsError>,
    r: Result<u32, WasiErrorCode>,
    t2: VfsStateView,
) -> bool {
    match ro {
        Err(e) => r == Err::<u32, WasiErrorCode>(fs_error_to_wasi(e)) && t2 == t,
        Ok(fd) => r == Ok::<u32, WasiErrorCode>(t.next) && t2 == allocated(t, fd),
    }
}

/// The entries of the root directory, as `(name, is_dir)`: its names in
/// increasing order, each marked by whether its path stats as a directory.
pub open spec fn root_listing(f: FsView, id: u64, v: Seq<(String, bool)>) -> bool {
    &&& names_sorted(listing_names(v))
    &&& listing_names(v).to_set() == f.dir_entries(id).dom()
    &&& forall|j: int|
        0 <= j < v.len() ==> (#[trigger] v[j]).1 == (f.stat_op("/"@ + v[j].0@) matches Ok(m)
            && m.is_dir)
}

/// The filesystem with a guest descriptor table.
pub struct VfsAdapter<T: TimeProvider> {
    pub state: VfsState,
    pub fs: Fs<T>,
}

impl<T: TimeProvider> VfsAdapter<T> {
    /// An adapter over `fs` whose table holds only the root descriptor.
    pub fn new(fs: Fs<T>) -> (a: Self)
        ensures
            a.state.view() == fresh_table(),
            a.fs@ == fs@,
    {
        VfsAdapter { state: VfsState::new(), fs }
    }

    /// The kind of the entry behind `handle`; the root is a directory.
    pub fn get_type(&self, handle: u32) -> (r: Result<DescriptorType, WasiErrorCode>)
        ensures
            r == (if handle == 0 {
                Ok(DescriptorType::Directory)
            } else {
                match guest_fd(self.state.view(), handle) {
                    Err(e) => Err(e),
                    Ok(fd) => match self.fs@.fstat_op(fd) {
                        Err(e) => Err(fs_error_to_wasi(e)),
                        Ok(m) => Ok(kind_of(m)),
                    },
                }
            }),
    {
        if handle == 0 {
            return Ok(DescriptorType::Directory);
        }
        let fd = self.state.get_fd(handle)?;
        match self.fs.fstat(fd) {
            Err(e) => Err(to_error_code(e)),
            Ok(m) => Ok(
                if m.is_dir {
                    DescriptorType::Directory
                } else {
                    DescriptorType::RegularFile
                },
            ),
        }
    }

    /// Set the size of the file behind `handle`.
    pub fn set_size(&mut self, handle: u32, size: u64) -> (r: Result<(), WasiErrorCode>)
        requires
            old(self).fs@.wf(),
        ensures
            final(self).fs@.wf(),
            final(self).state.view() == old(self).state.view(),
            match guest_fd(old(self).state.view(), handle) {
                Err(e) => r == Err::<(), WasiErrorCode>(e) && final(self).fs@ == old(self).fs@,
                Ok(fd) => exists|t: u64|
                    #[trigger] old(self).fs@.ftruncate_op(fd, size, t) == (
                        final(self).fs@,
                        old(self).fs@.ftruncate_op(fd, size, t).1,
                    ) && r == guest_result(old(self).fs@.ftruncate_op(fd, size, t).1),
            },
    {
        let fd = self.state.get_fd(handle)?;
        match self.fs.ftruncate(fd, size) {
            Ok(()) => Ok(()),
            Err(e) => Err(to_error_code(e)),
        }
    }

    /// Read up to `length` bytes at `offset` through `handle`; also whether
    /// the read came short.
    pub fn read(&mut self, handle: u32, length: u64, offset: u64) -> (r: Result<
        (Vec<u8>, bool),
        WasiErrorCode,
    >)
        ensures
            final(self).state.view() == old(self).state.view(),
            final(self).fs@ == guest_read_op(
                old(self).state.view(),
                old(self).fs@,
                handle,
                length,
                offset,
            ).0,
            match guest_read_op(old(self).state.view(), old(self).fs@, handle, length, offset).1 {
                Err(e) => r == Err::<(Vec<u8>, bool), WasiErrorCode>(e),
                Ok((bytes, short)) => r matches Ok((v, b)) && v@ == bytes && b == short,
            },
    {
        let fd = self.state.get_fd(handle)?;
        #[verifier::truncate]
        let pos: i64 = offset as i64;
        match self.fs.seek(fd, pos, 0) {
            Err(e) => {
                return Err(to_error_code(e));
            },
            Ok(_) => {},
        }
        #[verifier::truncate]
        let want: usize = length as usize;
        let mut buf = vec![0u8; want];
        assert(buf@ =~= zeros(want as nat));
        let n = match self.fs.read(fd, &mut buf) {
            Err(e) => {
                return Err(to_error_code(e));
            },
            Ok(n) => n,
        };
        let ghost full = buf@;
        buf.truncate(n);
        assert(buf@ =~= full.take(n as int));
        Ok((buf, n < want))
    }

    /// Write `buffer` at `offset` through `handle`; the number of bytes
    /// written.
    pub fn write(&mut self, handle: u32, buffer: &[u8], offset: u64) -> (r: Result<u64, WasiErrorCode>)
        requires
            old(self).fs@.wf(),
            guest_write_in_range(old(self).state.view(), old(self).fs@, handle, offset, buffer@.len() as int),
        ensures
            final(self).fs@.wf(),
            final(self).state.view() == old(self).state.view(),
            match guest_fd(old(self).state.view(), handle) {
                Err(e) => r == Err::<u64, WasiErrorCode>(e) && final(self).fs@ == old(self).fs@,
                Ok(fd) => {
                    let (f1, sr) = old(self).fs@.seek_op(fd, offset as i64, 0);
                    match sr {
                        Err(e) => r == Err::<u64, WasiErrorCode>(fs_error_to_wasi(e)) && final(self).fs@ == f1,
                        Ok(_) => exists|t: u64|
                            #[trigger] f1.write_op(fd, buffer@, t) == (
                                final(self).fs@,
                                f1.write_op(fd, buffer@, t).1,
                            ) && r == match f1.write_op(fd, buffer@, t).1 {
                                Ok(n) => Ok::<u64, WasiErrorCode>(n as u64),
                                Err(e) => Err(fs_error_to_wasi(e)),
                            },
                    }
                },
            },
    {
        let fd = self.state.get_fd(handle)?;
        #[verifier::truncate]
        let pos: i64 = offset as i64;
        match self.fs.seek(fd, pos, 0) {
            Err(e) => {
                return Err(to_error_code(e));
            },
            Ok(_) => {},
        }
        match self.fs.write(fd, buffer) {
            Err(e) => Err(to_error_code(e)),
            Ok(n) => Ok(n as u64),
        }
    }

    /// The stat of the entry behind `handle`.
    pub fn stat(&self, handle: u32) -> (r: Result<DescriptorStat, WasiErrorCode>)
        ensures
            r == (if handle == 0 {
                match self.fs@.stat_op("/"@) {
                    Err(e) => Err(fs_error_to_wasi(e)),
                    Ok(m) => Ok(stat_of(DescriptorType::Directory, m)),
                }
            } else {
                match guest_fd(self.state.view(), handle) {
                    Err(e) => Err(e),
                    Ok(fd) => match self.fs@.fstat_op(fd) {
                        Err(e) => Err(fs_error_to_wasi(e)),
                        Ok(m) => Ok(stat_of(kind_of(m), m)),
                    },
                }
            }),
    {
        if handle == 0 {
            return match self.fs.stat("/") {
                Err(e) => Err(to_error_code(e)),
                Ok(m) => Ok(make_descriptor_stat_with_times(DescriptorType::Directory, &m)),
            };
        }
        let fd = self.state.get_fd(handle)?;
        match self.fs.fstat(fd) {
            Err(e) => Err(to_error_code(e)),
            Ok(m) => {
                let k = if m.is_dir {
                    DescriptorType::Directory
                } else {
                    DescriptorType::RegularFile
                };
                Ok(make_descriptor_stat_with_times(k, &m))
            },
        }
    }

    /// The stat of the entry at `path` below the root descriptor; other
    /// descriptors are not supported.
    pub fn stat_at(&self, handle: u32, path: &str) -> (r: Result<DescriptorStat, WasiErrorCode>)
        ensures
            r == (if handle != 0 {
                Err(WasiErrorCode::Unsupported)
            } else {
                match self.fs@.stat_op(absolute(path@)) {
                    Err(e) => Err(fs_error_to_wasi(e)),
                    Ok(m) => Ok(stat_of(kind_of(m), m)),
                }
            }),
    {
        if handle != 0 {
            return Err(WasiErrorCode::Unsupported);
        }
        let full = normalize_path(path);
        match self.fs.stat(full.as_str()) {
            Err(e) => Err(to_error_code(e)),
            Ok(m) => {
                let k = if m.is_dir {
                    DescriptorType::Directory
                } else {
                    DescriptorType::RegularFile
                };
                Ok(make_descriptor_stat_with_times(k, &m))
            },
        }
    }

    /// Create the directory `path` below the root descriptor; its parent
    /// must exist. Other descriptors are not supported.
    pub fn create_directory_at(&mut self, handle: u32, path: &str) -> (r: Result<(), WasiErrorCode>)
        requires
            old(self).fs@.wf(),
        ensures
            final(self).fs@.wf(),
            final(self).state.view() == old(self).state.view(),
            handle != 0 ==> r == Err::<(), WasiErrorCode>(WasiErrorCode::Unsupported) && final(self).fs@ == old(self).fs@,
            handle == 0 ==> exists|t: u64|
                #[trigger] old(self).fs@.mkdir_op(absolute(path@), t) == (
                    final(self).fs@,
                    old(self).fs@.mkdir_op(absolute(path@), t).1,
                ) && r == guest_result(old(self).fs@.mkdir_op(absolute(path@), t).1),
    {
        if handle != 0 {
            return Err(WasiErrorCode::Unsupported);
        }
        let full = normalize_path(path);
        let ghost f0 = self.fs@;
        let u = self.fs.mkdir(full.as_str());
        let ghost t = choose|t: u64| #[trigger] f0.mkdir_op(full@, t) == (self.fs@, u);
        assert(f0.mkdir_op(absolute(path@), t) == (self.fs@, u));
        match u {
            Ok(()) => Ok(()),
            Err(e) => Err(to_error_code(e)),
        }
    }

    /// Remove the empty directory `path` below the root descriptor. Other
    /// descriptors are not supported.
    pub fn remove_directory_at(&mut self, handle: u32, path: &str) -> (r: Result<(), WasiErrorCode>)
        requires
            old(self).fs@.wf(),
        ensures
            final(self).fs@.wf(),
            final(self).state.view() == old(self).state.view(),
            handle != 0 ==> r == Err::<(), WasiErrorCode>(WasiErrorCode::Unsupported) && final(self).fs@ == old(self).fs@,
            handle == 0 ==> exists|t: u64|
                #[trigger] old(self).fs@.rmdir_op(absolute(path@), t) == (
                    final(self).fs@,
                    old(self).fs@.rmdir_op(absolute(path@), t).1,
                ) && r == guest_result(old(self).fs@.rmdir_op(absolute(path@), t).1),
    {
        if handle != 0 {
            return Err(WasiErrorCode::Unsupported);
        }
        let full = normalize_path(path);
        let ghost f0 = self.fs@;
        let u = self.fs.rmdir(full.as_str());
        let ghost t = choose|t: u64| #[trigger] f0.rmdir_op(full@, t) == (self.fs@, u);
        assert(f0.rmdir_op(absolute(path@), t) == (self.fs@, u));
        match u {
            Ok(()) => Ok(()),
            Err(e) => Err(to_error_code(e)),
        }
    }

    /// Remove the file `path` below the root descriptor. Other descriptors
    /// are not supported.
    pub fn unlink_file_at(&mut self, handle: u32, path: &str) -> (r: Result<(), WasiErrorCode>)
        requires
            old(self).fs@.wf(),
        ensures
            final(self).fs@.wf(),
            final(self).state.view() == old(self).state.view(),
            handle != 0 ==> r == Err::<(), WasiErrorCode>(WasiErrorCode::Unsupported) && final(self).fs@ == old(self).fs@,
            handle == 0 ==> exists|t: u64|
                #[trigger] old(self).fs@.unlink_op(absolute(path@), t) == (
                    final(self).fs@,
                    old(self).fs@.unlink_op(absolute(path@), t).1,
                ) && r == guest_result(old(self).fs@.unlink_op(absolute(path@), t).1),
    {
        if handle != 0 {
            return Err(WasiErrorCode::Unsupported);
        }
        let full = normalize_path(path);
        let ghost f0 = self.fs@;
        let u = self.fs.unlink(full.as_str());
        let ghost t = choose|t: u64| #[trigger] f0.unlink_op(full@, t) == (self.fs@, u);
        assert(f0.unlink_op(absolute(path@), t) == (self.fs@, u));
        match u {
            Ok(()) => Ok(()),
            Err(e) => Err(to_error_code(e)),
        }
    }

    /// Rename `old_path` below the root descriptor to `new_path`, also
    /// taken from the root. Other descriptors are not supported.
    pub fn rename_at(&mut self, handle: u32, old_path: &str, new_path: &str) -> (r: Result<
        (),
        WasiErrorCode,
    >)
        requires
            old(self).fs@.wf(),
        ensures
            final(self).fs@.wf(),
            final(self).state.view() == old(self).state.view(),
            handle != 0 ==> r == Err::<(), WasiErrorCode>(WasiErrorCode::Unsupported) && final(self).fs@ == old(self).fs@,
            handle == 0 ==> exists|t: u64|
                #[trigger] old(self).fs@.rename_op(absolute(old_path@), absolute(new_path@), t) == (
                    final(self).fs@,
                    old(self).fs@.rename_op(absolute(old_path@), absolute(new_path@), t).1,
                ) && r == guest_result(
                    old(self).fs@.rename_op(absolute(old_path@), absolute(new_path@), t).1,
                ),
    {
        if handle != 0 {
            return Err(WasiErrorCode::Unsupported);
        }
        let old_full = normalize_path(old_path);
        let new_full = normalize_path(new_path);
        let ghost f0 = self.fs@;
        let u = self.fs.rename(old_full.as_str(), new_full.as_str());
        let ghost t = choose|t: u64| #[trigger] f0.rename_op(old_full@, new_full@, t) == (self.fs@, u);
        assert(f0.rename_op(absolute(old_path@), absolute(new_path@), t) == (self.fs@, u));
        match u {
            Ok(()) => Ok(()),
            Err(e) => Err(to_error_code(e)),
        }
    }

    /// Open `path` through `handle` with the given access and open flags and
    /// hand out a guest descriptor for it. An empty path, `.`, or `/` with
    /// the root descriptor opens the root directory for reading; other
    /// paths are absolute from the root descriptor and relative to any
    /// other directory descriptor.
    pub fn open_at(
        &mut self,
        handle: u32,
        path: &str,
        read: bool,
        write: bool,
        create: bool,
        truncate: bool,
    ) -> (r: Result<u32, WasiErrorCode>)
        requires
            old(self).fs@.wf(),
            old(self).state.view().next < u32::MAX,
        ensures
            final(self).fs@.wf(),
            opens_root(handle, path@) ==> exists|t1: u64, t2: u64|
                #[trigger] old(self).fs@.open_path_op("/"@, O_RDONLY, t1, t2) == (
                    final(self).fs@,
                    old(self).fs@.open_path_op("/"@, O_RDONLY, t1, t2).1,
                ) && registered_open(
                    old(self).state.view(),
                    old(self).fs@.open_path_op("/"@, O_RDONLY, t1, t2).1,
                    r,
                    final(self).state.view(),
                ),
            !opens_root(handle, path@) ==> match guest_fd(old(self).state.view(), handle) {
                Err(e) => r == Err::<u32, WasiErrorCode>(e) && final(self).fs@ == old(self).fs@
                    && final(self).state.view() == old(self).state.view(),
                Ok(dir_fd) => {
                    let flags = guest_open_flags(read, write, create, truncate);
                    if handle == 0 {
                        exists|t1: u64, t2: u64|
                            #[trigger] old(self).fs@.open_path_op(absolute(path@), flags, t1, t2)
                                == (
                                final(self).fs@,
                                old(self).fs@.open_path_op(absolute(path@), flags, t1, t2).1,
                            ) && registered_open(
                                old(self).state.view(),
                                old(self).fs@.open_path_op(absolute(path@), flags, t1, t2).1,
                                r,
                                final(self).state.view(),
                            )
                    } else {
                        exists|t1: u64, t2: u64|
                            #[trigger] old(self).fs@.open_at_op(dir_fd, path@, flags, t1, t2) == (
                                final(self).fs@,
                                old(self).fs@.open_at_op(dir_fd, path@, flags, t1, t2).1,
                            ) && registered_open(
                                old(self).state.view(),
                                old(self).fs@.open_at_op(dir_fd, path@, flags, t1, t2).1,
                                r,
                                final(self).state.view(),
                            )
                    }
                },
            },
    {
        let cs = str_chars(path);
        let root = cs.len() == 0 || (cs.len() == 1 && cs[0] == '.') || (handle == 0 && cs.len()
            == 1 && cs[0] == '/');
        assert(root == opens_root(handle, path@)) by {
            if cs@.len() == 1 {
                assert(cs@ =~= seq![cs@[0]]);
            }
        }
        let ghost f0 = self.fs@;
        if root {
            let ro = self.fs.open_path_with_flags("/", O_RDONLY);
            let ghost (t1, t2) = choose|t1: u64, t2: u64| #[trigger] f0.open_path_op("/"@, O_RDONLY, t1, t2) == (self.fs@, ro);
            assert(f0.open_path_op("/"@, O_RDONLY, t1, t2) == (self.fs@, ro));
            return match ro {
                Err(e) => Err(to_error_code(e)),
                Ok(fd) => Ok(self.state.allocate_descriptor(fd)),
            };
        }
        let dir_fd = self.state.get_fd(handle)?;
        let flags = convert_flags(read, write, create, truncate);
        if handle == 0 {
            let full = normalize_path(path);
            let ro = self.fs.open_path_with_flags(full.as_str(), flags);
            let ghost (t1, t2) = choose|t1: u64, t2: u64| #[trigger] f0.open_path_op(full@, flags, t1, t2) == (self.fs@, ro);
            assert(f0.open_path_op(absolute(path@), flags, t1, t2) == (self.fs@, ro));
            match ro {
                Err(e) => Err(to_error_code(e)),
                Ok(fd) => Ok(self.state.allocate_descriptor(fd)),
            }
        } else {
            let ro = self.fs.open_at(dir_fd, path, flags);
            let ghost (t1, t2) = choose|t1: u64, t2: u64| #[trigger] f0.open_at_op(dir_fd, path@, flags, t1, t2) == (self.fs@, ro);
            assert(f0.open_at_op(dir_fd, path@, flags, t1, t2) == (self.fs@, ro));
            match ro {
                Err(e) => Err(to_error_code(e)),
                Ok(fd) => Ok(self.state.allocate_descriptor(fd)),
            }
        }
    }

    /// The entries of the directory behind `handle`, after `.` and `..`,
    /// as a stream. For the root they are its names in increasing order,
    /// each marked by whether its path is a directory; for another
    /// descriptor they are the directory's listing.
    pub fn read_directory(&self, handle: u32) -> (r: Result<
        FsDirectoryEntryStreamWrapper,
        WasiErrorCode,
    >)
        ensures
            r matches Ok(st) ==> {
                &&& st.position == 0
                &&& st.entries@.len() >= 2
                &&& st.entries@[0].0@ == "."@ && st.entries@[0].1
                &&& st.entries@[1].0@ == ".."@ && st.entries@[1].1
            },
            handle == 0 ==> match self.fs@.readdir_target("/"@) {
                Err(e) => r == Err::<FsDirectoryEntryStreamWrapper, WasiErrorCode>(
                    fs_error_to_wasi(e),
                ),
                Ok(id) => r matches Ok(st) && root_listing(
                    self.fs@,
                    id,
                    st.entries@.subrange(2, st.entries@.len() as int),
                ),
            },
            handle != 0 ==> match guest_fd(self.state.view(), handle) {
                Err(e) => r == Err::<FsDirectoryEntryStreamWrapper, WasiErrorCode>(e),
                Ok(fd) => {
                    let f = self.fs@;
                    if !f.fds.contains_key(fd) {
                        r == Err::<FsDirectoryEntryStreamWrapper, WasiErrorCode>(
                            WasiErrorCode::BadDescriptor,
                        )
                    } else if !f.inodes.contains_key(f.fds[fd].inode_id) {
                        r == Err::<FsDirectoryEntryStreamWrapper, WasiErrorCode>(
                            WasiErrorCode::NoEntry,
                        )
                    } else if f.is_file(f.fds[fd].inode_id) {
                        r == Err::<FsDirectoryEntryStreamWrapper, WasiErrorCode>(
                            WasiErrorCode::NotDirectory,
                        )
                    } else {
                        r matches Ok(st) && listing_matches(
                            f,
                            f.dir_entries(f.fds[fd].inode_id),
                            st.entries@.subrange(2, st.entries@.len() as int),
                        )
                    }
                },
            },
    {
        let entries: Vec<(String, bool)> = if handle == 0 {
            let names = match self.fs.readdir("/") {
                Err(e) => {
                    return Err(to_error_code(e));
                },
                Ok(v) => v,
            };
            let mut out: Vec<(String, bool)> = Vec::new();
            let mut i: usize = 0;
            while i < names.len()
                invariant
                    i <= names@.len(),
                    out@.len() == i,
                    forall|j: int|
                        0 <= j < i ==> (#[trigger] out@[j]).0@ == names@[j]@ && out@[j].1 == (
                        self.fs@.stat_op("/"@ + names@[j]@) matches Ok(m) && m.is_dir),
                decreases names@.len() - i,
            {
                let mut p = String::from_str("/");
                p.append(names[i].as_str());
                let is_dir = match self.fs.stat(p.as_str()) {
                    Ok(m) => m.is_dir,
                    Err(_) => false,
                };
                out.push((names[i].clone(), is_dir));
                i = i + 1;
            }
            assert(listing_names(out@) =~= strings_view(names@));
            out
        } else {
            let fd = self.state.get_fd(handle)?;
            match self.fs.readdir_fd(fd) {
                Err(e) => {
                    return Err(to_error_code(e));
                },
                Ok(v) => v,
            }
        };
        let mut full: Vec<(String, bool)> = Vec::new();
        full.push((String::from_str("."), true));
        full.push((String::from_str(".."), true));
        let mut k: usize = 0;
        while k < entries.len()
            invariant
                k <= entries@.len(),
                full@.len() == k + 2,
                full@[0].0@ == "."@ && full@[0].1,
                full@[1].0@ == ".."@ && full@[1].1,
                forall|j: int| 0 <= j < k ==> (#[trigger] full@[j + 2]).0@ == entries@[j].0@ && full@[j + 2].1 == entries@[j].1,
            decreases entries@.len() - k,
        {
            full.push((entries[k].0.clone(), entries[k].1));
            k = k + 1;
        }
        assert(listing_names(full@.subrange(2, full@.len() as int)) =~= listing_names(entries@));
        Ok(FsDirectoryEntryStreamWrapper::new(full))
    }

    /// A value that changes when the entry behind `handle` changes: its
    /// size and modification time.
    pub fn metadata_hash(&self, handle: u32) -> (r: Result<(u64, u64), WasiErrorCode>)
        ensures
            r == match guest_fd(self.state.view(), handle) {
                Err(e) => Err(e),
                Ok(fd) => match self.fs@.fstat_op(fd) {
                    Err(e) => Err(fs_error_to_wasi(e)),
                    Ok(m) => Ok((m.size, m.modified)),
                },
            },
    {
        let fd = self.state.get_fd(handle)?;
        match self.fs.fstat(fd) {
            Err(e) => Err(to_error_code(e)),
            Ok(m) => Ok((m.size, m.modified)),
        }
    }

    /// The same for the entry at `path` below the root descriptor; other
    /// descriptors are not supported.
    pub fn metadata_hash_at(&self, handle: u32, path: &str) -> (r: Result<(u64, u64), WasiErrorCode>)
        ensures
            r == (if handle != 0 {
                Err(WasiErrorCode::Unsupported)
            } else {
                match self.fs@.stat_op(absolute(path@)) {
                    Err(e) => Err(fs_error_to_wasi(e)),
                    Ok(m) => Ok((m.size, m.modified)),
                }
            }),
    {
        if handle != 0 {
            return Err(WasiErrorCode::Unsupported);
        }
        let full = normalize_path(path);
        match self.fs.stat(full.as_str()) {
            Err(e) => Err(to_error_code(e)),
            Ok(m) => Ok((m.size, m.modified)),
        }
    }
}

// ---------------------------------------------------------------------------
// Streams on a file
// ---------------------------------------------------------------------------

/// What reading `len` bytes at `offset` through `fd` does and gives: a
/// seek and a read; `None` when either fails.
pub open spec fn stream_read_op(f: FsView, fd: Fd, offset: u64, len: u64) -> (FsView, Option<Seq<u8>>) {
    let (f1, sr) = f.seek_op(fd, offset as i64, 0);
    match sr {
        Err(_) => (f1, None),
        Ok(_) => {
            let (f2, out, rr) = f1.read_op(fd, zeros((len as usize) as nat));
            match rr {
                Err(_) => (f2, None),
                Ok(n) => (f2, Some(out.take(n as int))),
            }
        },
    }
}

/// Whether a write of `len` bytes at `offset` through `fd` stays within
/// the address range once the seek succeeded.
pub open spec fn stream_write_in_range(f: FsView, fd: Fd, offset: u64, len: int) -> bool {
    let f1 = f.seek_op(fd, offset as i64, 0).0;
    f.seek_op(fd, offset as i64, 0).1 is Ok ==> f1.write_in_range(fd, f1.write_pos(fd), len)
}

/// A stream on an open file of the filesystem: each read or write goes to
/// the stream's own offset, which then moves past the bytes moved.
pub struct FileStream {
    pub fd: Fd,
    pub offset: u64,
}

impl FileStream {
    /// A stream on `fd` at `offset`.
    pub fn new(fd: Fd, offset: u64) -> (s: Self)
        ensures
            s.fd == fd,
            s.offset == offset,
    {
        FileStream { fd, offset }
    }

    /// Read up to `len` bytes at the stream's offset; `None` when the
    /// filesystem refuses.
    pub fn read<T: TimeProvider>(&mut self, fs: &mut Fs<T>, len: u64) -> (r: Option<Vec<u8>>)
        requires
            old(self).offset + (len as usize) <= u64::MAX,
        ensures
            final(self).fd == old(self).fd,
            final(fs)@ == stream_read_op(old(fs)@, old(self).fd, old(self).offset, len).0,
            match stream_read_op(old(fs)@, old(self).fd, old(self).offset, len).1 {
                None => r is None && final(self).offset == old(self).offset,
                Some(bytes) => r matches Some(v) && v@ == bytes && final(self).offset == old(self).offset + bytes.len(),
            },
    {
        #[verifier::truncate]
        let pos: i64 = self.offset as i64;
        match fs.seek(self.fd, pos, 0) {
            Err(_) => {
                return None;
            },
            Ok(_) => {},
        }
        #[verifier::truncate]
        let want: usize = len as usize;
        let mut buf = vec![0u8; want];
        assert(buf@ =~= zeros(want as nat));
        let n = match fs.read(self.fd, &mut buf) {
            Err(_) => {
                return None;
            },
            Ok(n) => n,
        };
        let ghost full = buf@;
        buf.truncate(n);
        assert(buf@ =~= full.take(n as int));
        self.offset = self.offset + n as u64;
        Some(buf)
    }

    /// Write `contents` at the stream's offset; whether it succeeded.
    pub fn write<T: TimeProvider>(&mut self, fs: &mut Fs<T>, contents: &[u8]) -> (ok: bool)
        requires
            old(fs)@.wf(),
            stream_write_in_range(old(fs)@, old(self).fd, old(self).offset, contents@.len() as int),
            old(self).offset + contents@.len() <= u64::MAX,
        ensures
            final(fs)@.wf(),
            final(self).fd == old(self).fd,
            ({
                let (f1, sr) = old(fs)@.seek_op(old(self).fd, old(self).offset as i64, 0);
                match sr {
                    Err(_) => !ok && final(fs)@ == f1 && final(self).offset == old(self).offset,
                    Ok(_) => exists|t: u64|
                        #[trigger] f1.write_op(old(self).fd, contents@, t) == (
                            final(fs)@,
                            f1.write_op(old(self).fd, contents@, t).1,
                        ) && match f1.write_op(old(self).fd, contents@, t).1 {
                            Ok(n) => ok && final(self).offset == old(self).offset + n,
                            Err(_) => !ok && final(self).offset == old(self).offset,
                        },
                }
            }),
    {
        #[verifier::truncate]
        let pos: i64 = self.offset as i64;
        match fs.seek(self.fd, pos, 0) {
            Err(_) => {
                return false;
            },
            Ok(_) => {},
        }
        let ghost f1 = fs@;
        let w = fs.write(self.fd, contents);
        let ghost t = choose|t: u64| #[trigger] f1.write_op(self.fd, contents@, t) == (fs@, w);
        assert(f1.write_op(self.fd, contents@, t) == (fs@, w));
        match w {
            Err(_) => false,
            Ok(n) => {
                self.offset = self.offset + n as u64;
                true
            },
        }
    }

    /// Skip `len` bytes.
    pub fn skip(&mut self, len: u64) -> (n: u64)
        requires
            old(self).offset + len <= u64::MAX,
        ensures
            n == len,
            final(self).offset == old(self).offset + len,
            final(self).fd == old(self).fd,
    {
        self.offset = self.offset + len;
        len
    }

    /// How many bytes a write may hand over at once.
    pub fn check_write(&self) -> (n: u64)
        ensures
            n == 4096,
    {
        4096
    }
}

} // verus!
