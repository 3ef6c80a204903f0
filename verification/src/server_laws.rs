//! What the server answers, stated over the request and the state: the
//! wire number of each filesystem error, the reply to a write and to a
//! read, and the refusal of a descriptor it never handed out.

use vstd::prelude::*;
use crate::protocol::{RequestV, ResponseV};
use crate::server::{fs_error_response, handled, ServerView};
use crate::types::{Fd, FsError, O_RDONLY, O_WRONLY};

verus! {

/// The wire number each filesystem error is reported with: not found 1,
/// not a directory 2, is a directory 3, invalid argument 4, bad descriptor
/// 5, permission denied 6, already exists 7, not empty 8.
pub open spec fn fs_error_number(e: FsError) -> i32 {
    match e {
        FsError::NotFound => 1,
        FsError::NotADirectory => 2,
        FsError::IsADirectory => 3,
        FsError::InvalidArgument => 4,
        FsError::BadFileDescriptor => 5,
        FsError::PermissionDenied => 6,
        FsError::AlreadyExists => 7,
        FsError::NotEmpty => 8,
    }
}

/// A filesystem error is answered with an error reply carrying its wire
/// number.
pub proof fn law_fs_error_numbers(e: FsError)
    ensures
        fs_error_response(e) matches ResponseV::Error { code, .. } && code == fs_error_number(e),
{
}

/// A request on a descriptor the filesystem does not have open is answered
/// with the bad-descriptor error and leaves the filesystem as it was.
pub proof fn law_unknown_descriptor_refused(
    s: ServerView,
    req: RequestV,
    sid: Option<Seq<char>>,
    a: Seq<char>,
    s2: ServerView,
    resp: ResponseV,
)
    requires
        handled(s, req, sid, a, s2, resp),
        match req {
            RequestV::Read { fd, .. } => !s.fs.fds.contains_key(fd),
            RequestV::Write { fd, .. } => !s.fs.fds.contains_key(fd),
            RequestV::AppendWrite { fd, .. } => !s.fs.fds.contains_key(fd),
            RequestV::Ftruncate { fd, .. } => !s.fs.fds.contains_key(fd),
            RequestV::Seek { fd, .. } => !s.fs.fds.contains_key(fd),
            RequestV::Fstat { fd } => !s.fs.fds.contains_key(fd),
            RequestV::Close { fd } => !s.fs.fds.contains_key(fd),
            _ => false,
        },
    ensures
        resp matches ResponseV::Error { code, .. } && code == fs_error_number(
            FsError::BadFileDescriptor,
        ),
        s2.fs == s.fs,
{
    match req {
        RequestV::Close { fd } => {
            assert(s.fs.close_op(fd).0 == s.fs);
        },
        _ => {},
    }
}

/// A write through a descriptor open for writing is answered with the
/// number of bytes given, all of them, and leaves the descriptor's position
/// past them.
pub proof fn law_write_reply_counts_all(
    s: ServerView,
    fd: Fd,
    data: Seq<u8>,
    sid: Option<Seq<char>>,
    a: Seq<char>,
    s2: ServerView,
    resp: ResponseV,
)
    requires
        handled(s, RequestV::Write { fd, data }, sid, a, s2, resp),
        s.fs.fd_inode(fd, O_RDONLY) is Ok,
        s.fs.write_pos(fd) + data.len() <= usize::MAX,
    ensures
        resp == (ResponseV::Written { count: data.len() as u64 }),
        s2.fs.fds[fd].position == s.fs.write_pos(fd) + data.len(),
{
}

/// A read of `length` bytes through a descriptor open for reading, at
/// position `p` of a file holding `data`, is answered with the file's bytes
/// from `p` on: `length` of them, or fewer when the file ends first.
pub proof fn law_read_reply_holds_file_bytes(
    s: ServerView,
    fd: Fd,
    length: usize,
    sid: Option<Seq<char>>,
    a: Seq<char>,
    s2: ServerView,
    resp: ResponseV,
)
    requires
        handled(s, RequestV::Read { fd, length }, sid, a, s2, resp),
        s.fs.fd_inode(fd, O_WRONLY) is Ok,
        s.fs.fds[fd].position <= usize::MAX,
        s.fs.file_data(s.fs.fds[fd].inode_id).len() <= usize::MAX,
    ensures
        ({
            let p = s.fs.fds[fd].position as int;
            let data = s.fs.file_data(s.fs.fds[fd].inode_id);
            resp matches ResponseV::Data { bytes } && {
                &&& bytes.len() == if p >= data.len() {
                    0
                } else if length < data.len() - p {
                    length as int
                } else {
                    data.len() - p
                }
                &&& forall|i: int| 0 <= i < bytes.len() ==> #[trigger] bytes[i] == data[p + i]
                &&& s2.fs.fds[fd].position == p + bytes.len()
            }
        }),
{
    let out = crate::server::zeros(length as nat);
    crate::io_laws::law_read_advances(s.fs, fd, out);
}

} // verus!
