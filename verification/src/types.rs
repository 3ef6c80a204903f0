//! Shared constants, identifiers and the filesystem error type.

use vstd::prelude::*;

verus! {

/// Identifier of an inode.
pub type InodeId = u64;

/// File descriptor number handed out by `Fs`.
pub type Fd = u32;

/// Size of one storage block in bytes.
pub const BLOCK_SIZE: usize = 4096;

/// Open for reading only.
pub const O_RDONLY: u32 = 0;
/// Open for writing only.
pub const O_WRONLY: u32 = 1;
/// Open for reading and writing.
pub const O_RDWR: u32 = 2;
/// Create the file when it does not exist.
pub const O_CREAT: u32 = 0o100;
/// Truncate the file to zero length on open.
pub const O_TRUNC: u32 = 0o1000;
/// Every write goes to the end of the file.
pub const O_APPEND: u32 = 0o2000;

/// Errors reported by filesystem operations.
#[derive(Debug, Clone, Copy, PartialEq, Eq, Structural)]
pub enum FsError {
    NotFound,
    NotADirectory,
    IsADirectory,
    InvalidArgument,
    BadFileDescriptor,
    PermissionDenied,
    AlreadyExists,
    NotEmpty,
}

/// The access mode bits of open flags.
pub open spec fn access_mode(flags: u32) -> u32 {
    flags & 3
}

/// Extract the access mode (`O_RDONLY`, `O_WRONLY` or `O_RDWR`, or 3) from open flags.
pub fn flags_access_mode(flags: u32) -> (m: u32)
    ensures
        m == access_mode(flags),
        m <= 3,
{
    assert(flags & 3 <= 3) by (bit_vector);
    flags & 3
}

} // verus!
