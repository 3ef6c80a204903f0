//! Open file handles.

use crate::types::InodeId;
use vstd::prelude::*;

verus! {

/// An open file descriptor: the inode it refers to, the current position and
/// the flags it was opened with.
#[derive(Clone, Copy, Debug, PartialEq, Eq, Structural)]
pub struct FileHandle {
    pub inode_id: InodeId,
    pub position: u64,
    pub flags: u32,
}

impl FileHandle {
    /// A handle on `inode_id` at `position`.
    pub fn new(inode_id: InodeId, position: u64, flags: u32) -> (h: Self)
        ensures
            h == (FileHandle { inode_id, position, flags }),
    {
        FileHandle { inode_id, position, flags }
    }

    /// The current position.
    pub fn get_position(&self) -> (p: u64)
        ensures
            p == self.position,
    {
        self.position
    }

    /// Move to `pos`.
    pub fn set_position(&mut self, pos: u64)
        ensures
            *final(self) == (FileHandle { position: pos, ..*old(self) }),
    {
        self.position = pos;
    }
}

} // verus!
