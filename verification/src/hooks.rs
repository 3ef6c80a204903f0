//! Notifications that the host layer sends to a synchronisation layer when
//! the filesystem changes, and the descriptor records the host keeps.

use vstd::prelude::*;
use crate::types::O_RDONLY;
use crate::path::{normalize_path, trim_leading_slashes};
use crate::server::{join_dir, join_dir_spec};

verus! {

/// How a descriptor was opened, as far as synchronisation cares.
#[derive(Debug, Clone, Copy, PartialEq, Eq, Structural)]
pub enum OpenKind {
    Read,
    Write,
}

impl OpenKind {
    /// `Write` when the access mode of the open flags allows writing.
    pub fn from_fs_flags(flags: u32) -> (k: OpenKind)
        ensures
            k == (if flags & 3 != O_RDONLY {
                OpenKind::Write
            } else {
                OpenKind::Read
            }),
    {
        if flags & 0x3 != O_RDONLY {
            OpenKind::Write
        } else {
            OpenKind::Read
        }
    }

    /// Whether the descriptor may write.
    pub fn is_write(self) -> (r: bool)
        ensures
            r == (self == OpenKind::Write),
    {
        match self {
            OpenKind::Write => true,
            OpenKind::Read => false,
        }
    }
}

/// Errors a notification can report back.
#[derive(Debug, Clone)]
pub enum SyncHookError {
    /// Another instance holds the file's lease.
    Busy,
    /// The remote object changed under the lease; the local copy was
    /// refreshed.
    Conflict,
    /// Any other failure.
    Io(String),
}

/// Receiver of filesystem change notifications.
pub trait SyncHooks {
    /// After a successful write.
    fn on_write(&self, path: &str);

    /// After a file was deleted.
    fn on_delete(&self, path: &str);

    /// After a file was truncated.
    fn on_truncate(&self, path: &str);

    /// Before a read.
    fn on_read(&self, path: &str);

    /// Before a file is opened; an error aborts the open.
    fn on_open(&self, path: &str, kind: OpenKind) -> Result<(), SyncHookError>;

    /// When a descriptor is dropped.
    fn on_close(&self, path: &str, kind: OpenKind) -> (r: Result<(), SyncHookError>)
        default_ensures
            r is Ok,
    {
        Ok(())
    }

    /// On a sync of a descriptor.
    fn on_fsync(&self, path: &str, kind: OpenKind) -> (r: Result<(), SyncHookError>)
        default_ensures
            r is Ok,
    {
        Ok(())
    }

    /// After a directory was created.
    fn on_mkdir(&self, path: &str) -> (r: Result<(), SyncHookError>)
        default_ensures
            r is Ok,
    {
        Ok(())
    }

    /// After a directory was removed.
    fn on_rmdir(&self, path: &str) -> (r: Result<(), SyncHookError>)
        default_ensures
            r is Ok,
    {
        Ok(())
    }
}

/// Notifications that do nothing, for when synchronisation is off.
pub struct NoOpSyncHooks;

impl SyncHooks for NoOpSyncHooks {
    fn on_write(&self, path: &str) {
    }

    fn on_delete(&self, path: &str) {
    }

    fn on_truncate(&self, path: &str) {
    }

    fn on_read(&self, path: &str) {
    }

    fn on_open(&self, path: &str, kind: OpenKind) -> (r: Result<(), SyncHookError>)
        ensures
            r is Ok,
    {
        Ok(())
    }

    fn on_close(&self, path: &str, kind: OpenKind) -> (r: Result<(), SyncHookError>)
        ensures
            r is Ok,
    {
        Ok(())
    }

    fn on_fsync(&self, path: &str, kind: OpenKind) -> (r: Result<(), SyncHookError>)
        ensures
            r is Ok,
    {
        Ok(())
    }

    fn on_mkdir(&self, path: &str) -> (r: Result<(), SyncHookError>)
        ensures
            r is Ok,
    {
        Ok(())
    }

    fn on_rmdir(&self, path: &str) -> (r: Result<(), SyncHookError>)
        ensures
            r is Ok,
    {
        Ok(())
    }
}

/// A descriptor handed to a guest: the filesystem descriptor and, for a
/// directory, its path.
#[derive(Debug, Clone)]
pub struct FsDescriptorWrapper {
    pub fd: u32,
    pub path: Option<String>,
}

impl FsDescriptorWrapper {
    /// The absolute path of `relative` below this descriptor: joined to its
    /// directory path when it has one, taken from the root otherwise.
    pub fn resolve_path(&self, relative: &str) -> (r: String)
        ensures
            r@ == match self.path {
                Some(dir) => join_dir_spec(dir@, relative@),
                None => seq!['/'] + trim_leading_slashes(relative@),
            },
    {
        match &self.path {
            Some(dir) => join_dir(dir.as_str(), relative),
            None => normalize_path(relative),
        }
    }
}

/// A directory listing being read entry by entry.
#[derive(Debug, Clone)]
pub struct FsDirectoryEntryStreamWrapper {
    /// The listing: names and directory marks.
    pub entries: Vec<(String, bool)>,
    /// How many entries were read.
    pub position: usize,
}

impl FsDirectoryEntryStreamWrapper {
    /// A stream at the start of a listing.
    pub fn new(entries: Vec<(String, bool)>) -> (s: Self)
        ensures
            s.entries == entries,
            s.position == 0,
    {
        FsDirectoryEntryStreamWrapper { entries, position: 0 }
    }

    /// The next entry, or `None` at the end of the listing.
    pub fn next_entry(&mut self) -> (r: Option<(String, bool)>)
        ensures
            old(self).position < old(self).entries@.len() ==> (r matches Some(e) && e.0@
                == old(self).entries@[old(self).position as int].0@ && e.1 == old(
                self,
            ).entries@[old(self).position as int].1 && final(self).position == old(self).position
                + 1),
            old(self).position >= old(self).entries@.len() ==> r is None && final(self).position
                == old(self).position,
            final(self).entries == old(self).entries,
    {
        if self.position >= self.entries.len() {
            return None;
        }
        let (name, is_dir) = (self.entries[self.position].0.clone(), self.entries[self.position].1);
        self.position = self.position + 1;
        Some((name, is_dir))
    }
}

/// A descriptor of the RPC adapter held by the host, by its handle.
#[derive(Debug, Clone, Copy, PartialEq, Eq, Structural)]
pub struct RpcDescriptorWrapper(pub u32);

/// A directory stream of the RPC adapter held by the host, by its handle.
#[derive(Debug, Clone, Copy, PartialEq, Eq, Structural)]
pub struct RpcDirectoryEntryStreamWrapper(pub u32);

} // verus!
