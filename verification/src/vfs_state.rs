//! The descriptor table of the in-process adapter: which filesystem
//! descriptor and path each guest descriptor stands for, and which were
//! written since they were last synchronised.

use std::collections::{HashMap, HashSet};
use vstd::prelude::*;
use crate::adapter::WasiErrorCode;
use crate::fs::Fs;
use crate::time::TimeProvider;
use crate::types::Fd;

verus! {

broadcast use vstd::std_specs::hash::group_hash_axioms;

/// The table as mathematical values.
pub struct VfsStateView {
    /// Filesystem descriptor of each guest descriptor.
    pub to_fd: Map<u32, Fd>,
    /// Guest descriptor of each filesystem descriptor.
    pub to_desc: Map<Fd, u32>,
    /// Path each guest descriptor was opened at, where known.
    pub paths: Map<u32, Seq<char>>,
    /// Guest descriptors written since they were last synchronised.
    pub dirty: Set<u32>,
    /// The next guest descriptor to hand out.
    pub next: u32,
}

/// A table holding only the root directory, as guest descriptor 0 on
/// filesystem descriptor 0.
pub open spec fn fresh_table() -> VfsStateView {
    VfsStateView {
        to_fd: map![0u32 => 0u32],
        to_desc: map![0u32 => 0u32],
        paths: Map::empty(),
        dirty: Set::empty(),
        next: 1,
    }
}

/// The table after the next guest descriptor was handed out for `fd`.
pub open spec fn allocated(s: VfsStateView, fd: Fd) -> VfsStateView {
    VfsStateView {
        to_fd: s.to_fd.insert(s.next, fd),
        to_desc: s.to_desc.insert(fd, s.next),
        next: (s.next + 1) as u32,
        ..s
    }
}

/// The table after forgetting guest descriptor `d`: its descriptor, the
/// reverse entry of that descriptor and its path.
pub open spec fn released(s: VfsStateView, d: u32) -> VfsStateView {
    VfsStateView {
        to_fd: s.to_fd.remove(d),
        to_desc: if s.to_fd.contains_key(d) {
            s.to_desc.remove(s.to_fd[d])
        } else {
            s.to_desc
        },
        paths: s.paths.remove(d),
        ..s
    }
}

/// The guest descriptors of the in-process adapter.
pub struct VfsState {
    descriptor_to_fd: HashMap<u32, Fd>,
    fd_to_descriptor: HashMap<Fd, u32>,
    descriptor_to_path: HashMap<u32, String>,
    dirty_descriptors: HashSet<u32>,
    next_descriptor: u32,
}

impl VfsState {
    /// The table as mathematical values.
    pub closed spec fn view(&self) -> VfsStateView {
        VfsStateView {
            to_fd: self.descriptor_to_fd@,
            to_desc: self.fd_to_descriptor@,
            paths: self.descriptor_to_path@.map_values(|p: String| p@),
            dirty: self.dirty_descriptors@,
            next: self.next_descriptor,
        }
    }

    /// A table holding the root directory as guest descriptor 0 on
    /// filesystem descriptor 0.
    pub fn new() -> (s: Self)
        ensures
            s.view() == fresh_table(),
    {
        let mut s = VfsState {
            descriptor_to_fd: HashMap::new(),
            fd_to_descriptor: HashMap::new(),
            descriptor_to_path: HashMap::new(),
            dirty_descriptors: HashSet::new(),
            next_descriptor: 1,
        };
        s.descriptor_to_fd.insert(0, 0);
        s.fd_to_descriptor.insert(0, 0);
        assert(s.view().to_fd =~= map![0u32 => 0u32]);
        assert(s.view().to_desc =~= map![0u32 => 0u32]);
        assert(s.view().paths =~= Map::<u32, Seq<char>>::empty());
        s
    }

    /// Hand out the next guest descriptor for `fd`.
    pub fn allocate_descriptor(&mut self, fd: Fd) -> (d: u32)
        requires
            old(self).view().next < u32::MAX,
        ensures
            d == old(self).view().next,
            final(self).view() == allocated(old(self).view(), fd),
    {
        let d = self.next_descriptor;
        self.next_descriptor = self.next_descriptor + 1;
        self.descriptor_to_fd.insert(d, fd);
        self.fd_to_descriptor.insert(fd, d);
        d
    }

    /// Hand out the next guest descriptor for `fd`, opened at `path`.
    pub fn allocate_descriptor_with_path(&mut self, fd: Fd, path: String) -> (d: u32)
        requires
            old(self).view().next < u32::MAX,
        ensures
            d == old(self).view().next,
            final(self).view() == (VfsStateView {
                paths: old(self).view().paths.insert(d, path@),
                ..allocated(old(self).view(), fd)
            }),
    {
        let ghost p = path@;
        let d = self.allocate_descriptor(fd);
        let ghost before = self.descriptor_to_path@;
        self.descriptor_to_path.insert(d, path);
        assert(self.view().paths =~= old(self).view().paths.insert(d, p)) by {
            assert(self.descriptor_to_path@ == before.insert(d, self.descriptor_to_path@[d]));
        }
        d
    }

    /// The path guest descriptor `d` was opened at, if known.
    pub fn get_path(&self, d: u32) -> (r: Option<&String>)
        ensures
            r is None <==> !self.view().paths.contains_key(d),
            r matches Some(p) ==> p@ == self.view().paths[d],
    {
        self.descriptor_to_path.get(&d)
    }

    /// Record that guest descriptor `d` was written.
    pub fn mark_dirty(&mut self, d: u32)
        ensures
            final(self).view() == (VfsStateView {
                dirty: old(self).view().dirty.insert(d),
                ..old(self).view()
            }),
    {
        self.dirty_descriptors.insert(d);
        assert(self.view().paths =~= old(self).view().paths);
    }

    /// Clear the written mark of `d`; when it was set, the path to
    /// synchronise, if known.
    pub fn sync_if_dirty(&mut self, d: u32) -> (to_sync: Option<String>)
        ensures
            final(self).view() == (VfsStateView {
                dirty: old(self).view().dirty.remove(d),
                ..old(self).view()
            }),
            to_sync is Some <==> old(self).view().dirty.contains(d) && old(
                self,
            ).view().paths.contains_key(d),
            to_sync matches Some(p) ==> p@ == old(self).view().paths[d],
    {
        let was_dirty = self.dirty_descriptors.remove(&d);
        assert(self.view().paths =~= old(self).view().paths);
        if was_dirty {
            match self.descriptor_to_path.get(&d) {
                Some(p) => Some(p.clone()),
                None => None,
            }
        } else {
            None
        }
    }

    /// The filesystem descriptor behind guest descriptor `d`.
    pub fn get_fd(&self, d: u32) -> (r: Result<Fd, WasiErrorCode>)
        ensures
            r == (if self.view().to_fd.contains_key(d) {
                Ok(self.view().to_fd[d])
            } else {
                Err(WasiErrorCode::BadDescriptor)
            }),
    {
        match self.descriptor_to_fd.get(&d) {
            Some(fd) => Ok(*fd),
            None => Err(WasiErrorCode::BadDescriptor),
        }
    }

    /// Forget guest descriptor `d`.
    pub fn release_descriptor(&mut self, d: u32)
        ensures
            final(self).view() == released(old(self).view(), d),
    {
        let ghost before = self.fd_to_descriptor@;
        match self.descriptor_to_fd.remove(&d) {
            Some(fd) => {
                self.fd_to_descriptor.remove(&fd);
            },
            None => {},
        }
        self.descriptor_to_path.remove(&d);
        assert(self.view().paths =~= old(self).view().paths.remove(d));
        assert(self.view().to_desc =~= released(old(self).view(), d).to_desc);
    }

    /// A guest dropped descriptor `d`: unless it is the root, clear its
    /// written mark, close its filesystem descriptor and forget it. Returns
    /// the path to synchronise when it was written.
    pub fn descriptor_dropped<T: TimeProvider>(&mut self, fs: &mut Fs<T>, d: u32) -> (to_sync:
        Option<String>)
        ensures
            d == 0 ==> final(self).view() == old(self).view() && final(fs)@ == old(fs)@
                && to_sync is None,
            d != 0 ==> {
                let s1 = VfsStateView { dirty: old(self).view().dirty.remove(d), ..old(self).view() };
                &&& final(self).view() == released(s1, d)
                &&& final(fs)@ == (if old(self).view().to_fd.contains_key(d) {
                    old(fs)@.close_op(old(self).view().to_fd[d]).0
                } else {
                    old(fs)@
                })
                &&& (to_sync is Some <==> old(self).view().dirty.contains(d) && old(
                    self,
                ).view().paths.contains_key(d))
                &&& (to_sync matches Some(p) ==> p@ == old(self).view().paths[d])
            },
    {
        if d == 0 {
            return None;
        }
        let to_sync = self.sync_if_dirty(d);
        match self.descriptor_to_fd.get(&d) {
            Some(fd) => {
                let _ = fs.close(*fd);
            },
            None => {},
        }
        self.release_descriptor(d);
        to_sync
    }
}

} // verus!
