//! What a guest of the RPC adapter gets from the server's replies: each
//! operation expects one kind of reply; an error reply gives its guest
//! error code and any other reply an I/O error. Sending the requests and
//! receiving the replies is left to the caller.

use vstd::prelude::*;
use crate::adapter::{
    make_descriptor_stat, rpc_error_to_wasi, rpc_error_wasi, DescriptorStat, DescriptorType,
    WasiErrorCode,
};
use crate::path::normalize_path;
use crate::protocol::{dir_entries_view, ErrorCode, Response};
use crate::vfs_adapter::absolute;

verus! {

/// The path a request carries for `path` given with guest descriptor
/// `handle`: absolute from the root descriptor, as given otherwise.
pub fn guest_path(handle: u32, path: String) -> (p: String)
    ensures
        p@ == (if handle == 0 {
            absolute(path@)
        } else {
            path@
        }),
{
    if handle == 0 {
        normalize_path(path.as_str())
    } else {
        path
    }
}

/// The error a guest gets for a reply of the wrong kind.
pub open spec fn unexpected(resp: Response) -> WasiErrorCode {
    match resp {
        Response::Error { code, .. } => rpc_error_wasi(code),
        _ => WasiErrorCode::Io,
    }
}

/// The guest error of a reply that is not the expected one.
fn reply_error(resp: &Response) -> (e: WasiErrorCode)
    ensures
        e == unexpected(*resp),
{
    match resp {
        Response::Error { code, .. } => rpc_error_to_wasi(*code),
        _ => WasiErrorCode::Io,
    }
}

/// The outcome of a reply to a request that expects a plain success.
pub fn unit_reply(resp: &Response) -> (r: Result<(), WasiErrorCode>)
    ensures
        r == (if resp is Success {
            Ok(())
        } else {
            Err(unexpected(*resp))
        }),
{
    match resp {
        Response::Success => Ok(()),
        _ => Err(reply_error(resp)),
    }
}

/// The outcome of a reply to a seek: any position is a success.
pub fn position_reply(resp: &Response) -> (r: Result<(), WasiErrorCode>)
    ensures
        r == (if resp is Position {
            Ok(())
        } else {
            Err(unexpected(*resp))
        }),
{
    match resp {
        Response::Position { .. } => Ok(()),
        _ => Err(reply_error(resp)),
    }
}

/// The kind of an entry from a reply to an fstat.
pub fn type_reply(resp: &Response) -> (r: Result<DescriptorType, WasiErrorCode>)
    ensures
        r == match *resp {
            Response::Metadata { metadata } => Ok(
                if metadata.is_dir {
                    DescriptorType::Directory
                } else {
                    DescriptorType::RegularFile
                },
            ),
            _ => Err(unexpected(*resp)),
        },
{
    match resp {
        Response::Metadata { metadata } => Ok(
            if metadata.is_dir {
                DescriptorType::Directory
            } else {
                DescriptorType::RegularFile
            },
        ),
        _ => Err(reply_error(resp)),
    }
}

/// The stat of an entry from a reply to a stat or an fstat: kind and size;
/// the protocol carries no times to the guest.
pub fn stat_reply(resp: &Response) -> (r: Result<DescriptorStat, WasiErrorCode>)
    ensures
        r == match *resp {
            Response::Metadata { metadata } => Ok(
                DescriptorStat {
                    type_: if metadata.is_dir {
                        DescriptorType::Directory
                    } else {
                        DescriptorType::RegularFile
                    },
                    link_count: 1,
                    size: metadata.size,
                    data_access_timestamp: None,
                    data_modification_timestamp: None,
                    status_change_timestamp: None,
                },
            ),
            _ => Err(unexpected(*resp)),
        },
{
    match resp {
        Response::Metadata { metadata } => Ok(make_descriptor_stat(metadata.is_dir, metadata.size)),
        _ => Err(reply_error(resp)),
    }
}

/// The bytes of a reply to a read of `length` bytes, and whether fewer
/// came than asked for.
pub fn read_reply(resp: Response, length: u64) -> (r: Result<(Vec<u8>, bool), WasiErrorCode>)
    ensures
        match resp {
            Response::Data { bytes } => r matches Ok((v, short)) && v@ == bytes@ && short == (
            bytes@.len() < (length as usize)),
            _ => r == Err::<(Vec<u8>, bool), WasiErrorCode>(unexpected(resp)),
        },
{
    match resp {
        Response::Data { bytes } => {
            #[verifier::truncate]
            let want: usize = length as usize;
            let short = bytes.len() < want;
            Ok((bytes, short))
        },
        _ => Err(reply_error(&resp)),
    }
}

/// The count of a reply to a write.
pub fn written_reply(resp: &Response) -> (r: Result<u64, WasiErrorCode>)
    ensures
        r == match *resp {
            Response::Written { count } => Ok(count as u64),
            _ => Err(unexpected(*resp)),
        },
{
    match resp {
        Response::Written { count } => Ok(*count as u64),
        _ => Err(reply_error(resp)),
    }
}

/// The entries of a reply to a listing, as names and directory marks.
pub fn entries_reply(resp: &Response) -> (r: Result<Vec<(String, bool)>, WasiErrorCode>)
    ensures
        match *resp {
            Response::DirEntries { entries } => r matches Ok(v) && v@.len() == entries@.len()
                && forall|j: int|
                0 <= j < v@.len() ==> (#[trigger] v@[j]).0@ == dir_entries_view(entries@)[j].0
                    && v@[j].1 == dir_entries_view(entries@)[j].1,
            _ => r == Err::<Vec<(String, bool)>, WasiErrorCode>(unexpected(*resp)),
        },
{
    match resp {
        Response::DirEntries { entries } => {
            let mut out: Vec<(String, bool)> = Vec::new();
            let mut i: usize = 0;
            while i < entries.len()
                invariant
                    i <= entries@.len(),
                    out@.len() == i,
                    forall|j: int|
                        0 <= j < i ==> (#[trigger] out@[j]).0@ == entries@[j].name@ && out@[j].1
                            == entries@[j].is_dir,
                decreases entries@.len() - i,
            {
                out.push((entries[i].name.clone(), entries[i].is_dir));
                i = i + 1;
            }
            Ok(out)
        },
        _ => Err(reply_error(resp)),
    }
}

/// What an open does next after a reply.
#[derive(Debug, Clone, Copy, PartialEq, Eq, Structural)]
pub enum OpenStep {
    /// The server opened the file as this descriptor.
    Opened(u32),
    /// The file is leased elsewhere: wait this many milliseconds and ask
    /// again.
    Retry(u64),
    /// The open failed.
    Failed(WasiErrorCode),
}

/// The next step of an open after `resp`, when `next_delay` is the next
/// wait of the retry schedule (none when it is used up): a busy reply
/// waits and retries while waits are left and fails as busy after.
pub fn open_reply(resp: &Response, next_delay: Option<u64>) -> (s: OpenStep)
    ensures
        s == match *resp {
            Response::Fd { fd } => OpenStep::Opened(fd),
            Response::Error { code: ErrorCode::Busy, .. } => match next_delay {
                Some(ms) => OpenStep::Retry(ms),
                None => OpenStep::Failed(WasiErrorCode::Busy),
            },
            _ => OpenStep::Failed(unexpected(*resp)),
        },
{
    match resp {
        Response::Fd { fd } => OpenStep::Opened(*fd),
        Response::Error { code: ErrorCode::Busy, .. } => match next_delay {
            Some(ms) => OpenStep::Retry(ms),
            None => OpenStep::Failed(WasiErrorCode::Busy),
        },
        _ => OpenStep::Failed(reply_error(resp)),
    }
}

} // verus!
