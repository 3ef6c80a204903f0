//! The request and response messages that clients and the server exchange,
//! the error codes they carry, and version negotiation.

use vstd::prelude::*;
use crate::vfs;
use crate::codec::{encode_request_message, encode_request_message_exec};
use crate::response_codec::{decode_response_message};

verus! {

/// Version of the protocol this library speaks.
pub const PROTOCOL_VERSION: u32 = 1;

/// Default TCP port of the server.
pub const DEFAULT_PORT: u16 = 9000;

/// The protocol version both sides use when a client speaking `client`
/// connects: the client's own version, as long as the server knows it.
pub open spec fn negotiated(client: u32) -> Option<u32> {
    if 1 <= client <= PROTOCOL_VERSION {
        Some(client)
    } else {
        None
    }
}

/// Agree on a protocol version with a client that speaks `client`; `None`
/// when the server cannot serve that client.
pub fn negotiate_version(client: u32) -> (r: Option<u32>)
    ensures
        r == negotiated(client),
{
    if 1 <= client && client <= PROTOCOL_VERSION {
        Some(client)
    } else {
        None
    }
}

/// Error codes carried by error responses.
#[derive(Debug, Clone, Copy, PartialEq, Eq, Structural)]
pub enum ErrorCode {
    NotFound,
    NotADirectory,
    IsADirectory,
    InvalidArgument,
    BadFileDescriptor,
    PermissionDenied,
    AlreadyExists,
    NotEmpty,
    NetworkError,
    ProtocolError,
    SerializationError,
    Io,
    Busy,
    Conflict,
}

impl ErrorCode {
    /// The number that stands for the code on the wire.
    pub open spec fn code_of(self) -> i32 {
        match self {
            ErrorCode::NotFound => 1,
            ErrorCode::NotADirectory => 2,
            ErrorCode::IsADirectory => 3,
            ErrorCode::InvalidArgument => 4,
            ErrorCode::BadFileDescriptor => 5,
            ErrorCode::PermissionDenied => 6,
            ErrorCode::AlreadyExists => 7,
            ErrorCode::NotEmpty => 8,
            ErrorCode::NetworkError => 9,
            ErrorCode::ProtocolError => 10,
            ErrorCode::SerializationError => 11,
            ErrorCode::Io => 12,
            ErrorCode::Busy => 13,
            ErrorCode::Conflict => 14,
        }
    }

    /// The code a wire number stands for, if any.
    pub open spec fn from_code(value: i32) -> Option<ErrorCode> {
        if value == 1 {
            Some(ErrorCode::NotFound)
        } else if value == 2 {
            Some(ErrorCode::NotADirectory)
        } else if value == 3 {
            Some(ErrorCode::IsADirectory)
        } else if value == 4 {
            Some(ErrorCode::InvalidArgument)
        } else if value == 5 {
            Some(ErrorCode::BadFileDescriptor)
        } else if value == 6 {
            Some(ErrorCode::PermissionDenied)
        } else if value == 7 {
            Some(ErrorCode::AlreadyExists)
        } else if value == 8 {
            Some(ErrorCode::NotEmpty)
        } else if value == 9 {
            Some(ErrorCode::NetworkError)
        } else if value == 10 {
            Some(ErrorCode::ProtocolError)
        } else if value == 11 {
            Some(ErrorCode::SerializationError)
        } else if value == 12 {
            Some(ErrorCode::Io)
        } else if value == 13 {
            Some(ErrorCode::Busy)
        } else if value == 14 {
            Some(ErrorCode::Conflict)
        } else {
            None
        }
    }

    /// The human-readable text of the code.
    pub open spec fn text(self) -> Seq<char> {
        match self {
            ErrorCode::NotFound => "Not found"@,
            ErrorCode::NotADirectory => "Not a directory"@,
            ErrorCode::IsADirectory => "Is a directory"@,
            ErrorCode::InvalidArgument => "Invalid argument"@,
            ErrorCode::BadFileDescriptor => "Bad file descriptor"@,
            ErrorCode::PermissionDenied => "Permission denied"@,
            ErrorCode::AlreadyExists => "Already exists"@,
            ErrorCode::NotEmpty => "Directory not empty"@,
            ErrorCode::NetworkError => "Network error"@,
            ErrorCode::ProtocolError => "Protocol error"@,
            ErrorCode::SerializationError => "Serialization error"@,
            ErrorCode::Io => "I/O error"@,
            ErrorCode::Busy => "Resource busy"@,
            ErrorCode::Conflict => "Conflict"@,
        }
    }

    /// The number that stands for the code on the wire.
    pub fn code(&self) -> (r: i32)
        ensures
            r == self.code_of(),
    {
        match self {
            ErrorCode::NotFound => 1,
            ErrorCode::NotADirectory => 2,
            ErrorCode::IsADirectory => 3,
            ErrorCode::InvalidArgument => 4,
            ErrorCode::BadFileDescriptor => 5,
            ErrorCode::PermissionDenied => 6,
            ErrorCode::AlreadyExists => 7,
            ErrorCode::NotEmpty => 8,
            ErrorCode::NetworkError => 9,
            ErrorCode::ProtocolError => 10,
            ErrorCode::SerializationError => 11,
            ErrorCode::Io => 12,
            ErrorCode::Busy => 13,
            ErrorCode::Conflict => 14,
        }
    }

    /// The code a wire number stands for in the client's own table, which
    /// knows the numbers 1 to 11 only: 12 and above are unknown to it.
    pub open spec fn client_code(value: i32) -> Option<ErrorCode> {
        if 1 <= value <= 11 {
            ErrorCode::from_code(value)
        } else {
            None
        }
    }

    /// The code a wire number stands for, as the protocol defines it (1 to
    /// 12, the I/O error being 12) together with the busy (13) and conflict
    /// (14) replies that the server sends for leased files; `None` for an
    /// unknown number.
    pub fn from_i32(value: i32) -> (r: Option<ErrorCode>)
        ensures
            r == ErrorCode::from_code(value),
    {
        if value == 1 {
            Some(ErrorCode::NotFound)
        } else if value == 2 {
            Some(ErrorCode::NotADirectory)
        } else if value == 3 {
            Some(ErrorCode::IsADirectory)
        } else if value == 4 {
            Some(ErrorCode::InvalidArgument)
        } else if value == 5 {
            Some(ErrorCode::BadFileDescriptor)
        } else if value == 6 {
            Some(ErrorCode::PermissionDenied)
        } else if value == 7 {
            Some(ErrorCode::AlreadyExists)
        } else if value == 8 {
            Some(ErrorCode::NotEmpty)
        } else if value == 9 {
            Some(ErrorCode::NetworkError)
        } else if value == 10 {
            Some(ErrorCode::ProtocolError)
        } else if value == 11 {
            Some(ErrorCode::SerializationError)
        } else if value == 12 {
            Some(ErrorCode::Io)
        } else if value == 13 {
            Some(ErrorCode::Busy)
        } else if value == 14 {
            Some(ErrorCode::Conflict)
        } else {
            None
        }
    }

    /// The code a wire number stands for in the client's own table: only
    /// 1 to 11 are known there, and every other number, 12 included, gives
    /// `None`.
    pub fn client_from_i32(value: i32) -> (r: Option<ErrorCode>)
        ensures
            r == ErrorCode::client_code(value),
    {
        if 1 <= value && value <= 11 {
            ErrorCode::from_i32(value)
        } else {
            None
        }
    }

    /// The human-readable text of the code.
    pub fn as_str(&self) -> (r: &'static str)
        ensures
            r@ == self.text(),
    {
        match self {
            ErrorCode::NotFound => "Not found",
            ErrorCode::NotADirectory => "Not a directory",
            ErrorCode::IsADirectory => "Is a directory",
            ErrorCode::InvalidArgument => "Invalid argument",
            ErrorCode::BadFileDescriptor => "Bad file descriptor",
            ErrorCode::PermissionDenied => "Permission denied",
            ErrorCode::AlreadyExists => "Already exists",
            ErrorCode::NotEmpty => "Directory not empty",
            ErrorCode::NetworkError => "Network error",
            ErrorCode::ProtocolError => "Protocol error",
            ErrorCode::SerializationError => "Serialization error",
            ErrorCode::Io => "I/O error",
            ErrorCode::Busy => "Resource busy",
            ErrorCode::Conflict => "Conflict",
        }
    }
}

/// Every code reads back from its wire number, and no two codes share one.
pub proof fn lemma_error_code_roundtrip(c: ErrorCode)
    ensures
        ErrorCode::from_code(c.code_of()) == Some(c),
        1 <= c.code_of() <= 14,
{
}

/// A request from a client.
#[derive(Debug, Clone)]
pub enum Request {
    Connect { version: u32 },
    OpenPath { path: String, flags: u32 },
    OpenAt { dir_fd: u32, path: String, flags: u32 },
    Read { fd: u32, length: usize },
    Write { fd: u32, data: Vec<u8> },
    Close { fd: u32 },
    Seek { fd: u32, offset: i64, whence: i32 },
    Ftruncate { fd: u32, size: u64 },
    Stat { path: String },
    Fstat { fd: u32 },
    Mkdir { path: String },
    MkdirP { path: String },
    Unlink { path: String },
    Readdir { path: String },
    ReaddirFd { fd: u32 },
    Rmdir { path: String },
    AppendWrite { fd: u32, data: Vec<u8> },
    Rename { old_path: String, new_path: String },
    Fsync { fd: u32 },
}

/// A request, with strings and byte buffers as sequences.
pub enum RequestV {
    Connect { version: u32 },
    OpenPath { path: Seq<char>, flags: u32 },
    OpenAt { dir_fd: u32, path: Seq<char>, flags: u32 },
    Read { fd: u32, length: usize },
    Write { fd: u32, data: Seq<u8> },
    Close { fd: u32 },
    Seek { fd: u32, offset: i64, whence: i32 },
    Ftruncate { fd: u32, size: u64 },
    Stat { path: Seq<char> },
    Fstat { fd: u32 },
    Mkdir { path: Seq<char> },
    MkdirP { path: Seq<char> },
    Unlink { path: Seq<char> },
    Readdir { path: Seq<char> },
    ReaddirFd { fd: u32 },
    Rmdir { path: Seq<char> },
    AppendWrite { fd: u32, data: Seq<u8> },
    Rename { old_path: Seq<char>, new_path: Seq<char> },
    Fsync { fd: u32 },
}

impl View for Request {
    type V = RequestV;

    open spec fn view(&self) -> RequestV {
        match *self {
            Request::Connect { version } => RequestV::Connect { version },
            Request::OpenPath { path, flags } => RequestV::OpenPath { path: path@, flags },
            Request::OpenAt { dir_fd, path, flags } => RequestV::OpenAt {
                dir_fd,
                path: path@,
                flags,
            },
            Request::Read { fd, length } => RequestV::Read { fd, length },
            Request::Write { fd, data } => RequestV::Write { fd, data: data@ },
            Request::Close { fd } => RequestV::Close { fd },
            Request::Seek { fd, offset, whence } => RequestV::Seek { fd, offset, whence },
            Request::Ftruncate { fd, size } => RequestV::Ftruncate { fd, size },
            Request::Stat { path } => RequestV::Stat { path: path@ },
            Request::Fstat { fd } => RequestV::Fstat { fd },
            Request::Mkdir { path } => RequestV::Mkdir { path: path@ },
            Request::MkdirP { path } => RequestV::MkdirP { path: path@ },
            Request::Unlink { path } => RequestV::Unlink { path: path@ },
            Request::Readdir { path } => RequestV::Readdir { path: path@ },
            Request::ReaddirFd { fd } => RequestV::ReaddirFd { fd },
            Request::Rmdir { path } => RequestV::Rmdir { path: path@ },
            Request::AppendWrite { fd, data } => RequestV::AppendWrite { fd, data: data@ },
            Request::Rename { old_path, new_path } => RequestV::Rename {
                old_path: old_path@,
                new_path: new_path@,
            },
            Request::Fsync { fd } => RequestV::Fsync { fd },
        }
    }
}

/// Metadata of a file or directory as the protocol reports it.
#[derive(Debug, Clone, Copy, PartialEq, Eq, Structural)]
pub struct FileMetadata {
    pub size: u64,
    pub created: u64,
    pub modified: u64,
    pub is_dir: bool,
}

/// One entry of a directory listing.
#[derive(Debug, Clone)]
pub struct DirEntry {
    pub name: String,
    pub is_dir: bool,
}

/// A listing entry as a name and whether it is a directory.
pub open spec fn dir_entry_view(e: DirEntry) -> (Seq<char>, bool) {
    (e.name@, e.is_dir)
}

/// A listing as names and directory marks.
pub open spec fn dir_entries_view(es: Seq<DirEntry>) -> Seq<(Seq<char>, bool)> {
    es.map_values(|e: DirEntry| dir_entry_view(e))
}

/// A reply of the server.
#[derive(Debug, Clone)]
pub enum Response {
    Connected { session_id: String, version: u32 },
    Success,
    Fd { fd: u32 },
    Data { bytes: Vec<u8> },
    Written { count: usize },
    Position { pos: u64 },
    Metadata { metadata: FileMetadata },
    DirEntries { entries: Vec<DirEntry> },
    Error { code: ErrorCode, message: String },
}

/// A reply as it is carried on the wire: counts as 64-bit numbers, error
/// codes as their wire numbers, strings and buffers as sequences.
pub enum ResponseV {
    Connected { session_id: Seq<char>, version: u32 },
    Success,
    Fd { fd: u32 },
    Data { bytes: Seq<u8> },
    Written { count: u64 },
    Position { pos: u64 },
    Metadata { size: u64, created: u64, modified: u64, is_dir: bool },
    DirEntries { entries: Seq<(Seq<char>, bool)> },
    Error { code: i32, message: Seq<char> },
}

impl View for Response {
    type V = ResponseV;

    open spec fn view(&self) -> ResponseV {
        match *self {
            Response::Connected { session_id, version } => ResponseV::Connected {
                session_id: session_id@,
                version,
            },
            Response::Success => ResponseV::Success,
            Response::Fd { fd } => ResponseV::Fd { fd },
            Response::Data { bytes } => ResponseV::Data { bytes: bytes@ },
            Response::Written { count } => ResponseV::Written { count: count as u64 },
            Response::Position { pos } => ResponseV::Position { pos },
            Response::Metadata { metadata } => ResponseV::Metadata {
                size: metadata.size,
                created: metadata.created,
                modified: metadata.modified,
                is_dir: metadata.is_dir,
            },
            Response::DirEntries { entries } => ResponseV::DirEntries {
                entries: dir_entries_view(entries@),
            },
            Response::Error { code, message } => ResponseV::Error {
                code: code.code_of(),
                message: message@,
            },
        }
    }
}

/// A request together with the session it belongs to.
#[derive(Debug, Clone)]
pub struct RpcRequestMessage {
    pub session_id: Option<String>,
    pub request: Request,
}

/// An optional string as an optional sequence.
pub open spec fn opt_string_view(s: Option<String>) -> Option<Seq<char>> {
    match s {
        Some(s) => Some(s@),
        None => None,
    }
}

/// An optional request as an optional view.
pub open spec fn opt_request_view(q: Option<Request>) -> Option<RequestV> {
    match q {
        Some(q) => Some(q@),
        None => None,
    }
}

impl View for RpcRequestMessage {
    type V = (Option<Seq<char>>, RequestV);

    open spec fn view(&self) -> (Option<Seq<char>>, RequestV) {
        (opt_string_view(self.session_id), self.request@)
    }
}

// ---------------------------------------------------------------------------
// Conversions between these messages and the wire messages
// ---------------------------------------------------------------------------

/// The request carried by a wire request message, with its session; an
/// error when the message carries no request.
pub fn from_proto_request(proto_req: vfs::RpcRequest) -> (r: Result<RpcRequestMessage, &'static str>)
    ensures
        match r {
            Ok(m) => proto_req@.1 == Some(m@.1) && m@.0 == proto_req@.0,
            Err(e) => proto_req@.1 is None && e@ == "Missing request"@,
        },
{
    let vfs::RpcRequest { session_id, request } = proto_req;
    match request {
        Some(request) => Ok(RpcRequestMessage { session_id, request }),
        None => Err("Missing request"),
    }
}

/// The bytes of a request with its session.
pub fn to_proto_request_bytes(rpc_request: &RpcRequestMessage) -> (out: Vec<u8>)
    ensures
        out@ == encode_request_message(rpc_request@.0, Some(rpc_request@.1)),
{
    encode_request_message_exec(&rpc_request.session_id, Some(&rpc_request.request))
}

/// A listing as wire entries.
fn wire_entries(entries: &Vec<DirEntry>) -> (out: Vec<vfs::DirEntry>)
    ensures
        out@.map_values(|e: vfs::DirEntry| vfs::wire_entry_view(e)) == dir_entries_view(entries@),
{
    let mut out: Vec<vfs::DirEntry> = Vec::new();
    let mut i: usize = 0;
    while i < entries.len()
        invariant
            i <= entries@.len(),
            out@.len() == i,
            forall|k: int|
                0 <= k < i ==> vfs::wire_entry_view(#[trigger] out@[k]) == dir_entry_view(
                    entries@[k],
                ),
        decreases entries@.len() - i,
    {
        let e = &entries[i];
        out.push(vfs::DirEntry { name: e.name.clone(), is_dir: e.is_dir });
        i = i + 1;
    }
    assert(out@.map_values(|e: vfs::DirEntry| vfs::wire_entry_view(e)) =~= dir_entries_view(
        entries@,
    ));
    out
}

/// The wire response message carrying a reply.
pub fn to_proto_response(response: Response) -> (r: vfs::RpcResponse)
    ensures
        r@ == Some(response@),
{
    let w = match response {
        Response::Connected { session_id, version } => vfs::rpc_response::Response::Connected(
            vfs::Connected { session_id, version },
        ),
        Response::Success => vfs::rpc_response::Response::Success(vfs::Success {  }),
        Response::Fd { fd } => vfs::rpc_response::Response::Fd(vfs::Fd { fd }),
        Response::Data { bytes } => vfs::rpc_response::Response::Data(vfs::Data { bytes }),
        Response::Written { count } => vfs::rpc_response::Response::Written(
            vfs::Written { count: count as u64 },
        ),
        Response::Position { pos } => vfs::rpc_response::Response::Position(vfs::Position { pos }),
        Response::Metadata { metadata } => vfs::rpc_response::Response::Metadata(
            vfs::MetadataResponse {
                size: metadata.size,
                created: metadata.created,
                modified: metadata.modified,
                is_dir: metadata.is_dir,
            },
        ),
        Response::DirEntries { entries } => vfs::rpc_response::Response::DirEntries(
            vfs::DirEntries { entries: wire_entries(&entries) },
        ),
        Response::Error { code, message } => vfs::rpc_response::Response::Error(
            vfs::Error { code: code.code(), message },
        ),
    };
    vfs::RpcResponse { response: Some(w) }
}

/// A reply as this side reads it from the wire: counts as native sizes
/// and unknown error codes as I/O errors.
pub open spec fn normalized_response(w: ResponseV) -> ResponseV {
    match w {
        ResponseV::Written { count } => ResponseV::Written { count: (count as usize) as u64 },
        ResponseV::Error { code, message } => ResponseV::Error {
            code: match ErrorCode::from_code(code) {
                Some(c) => c.code_of(),
                None => ErrorCode::Io.code_of(),
            },
            message,
        },
        _ => w,
    }
}

/// A listing from wire entries.
fn entries_from_wire(entries: Vec<vfs::DirEntry>) -> (out: Vec<DirEntry>)
    ensures
        dir_entries_view(out@) == entries@.map_values(|e: vfs::DirEntry| vfs::wire_entry_view(e)),
{
    let mut out: Vec<DirEntry> = Vec::new();
    let mut i: usize = 0;
    while i < entries.len()
        invariant
            i <= entries@.len(),
            out@.len() == i,
            forall|k: int|
                0 <= k < i ==> dir_entry_view(#[trigger] out@[k]) == vfs::wire_entry_view(
                    entries@[k],
                ),
        decreases entries@.len() - i,
    {
        let e = &entries[i];
        out.push(DirEntry { name: e.name.clone(), is_dir: e.is_dir });
        i = i + 1;
    }
    assert(dir_entries_view(out@) =~= entries@.map_values(
        |e: vfs::DirEntry| vfs::wire_entry_view(e),
    ));
    out
}

/// The reply carried by a wire reply.
fn response_from_wire(w: vfs::rpc_response::Response) -> (r: Response)
    ensures
        r@ == normalized_response(w@),
{
    match w {
        vfs::rpc_response::Response::Connected(c) => Response::Connected {
            session_id: c.session_id,
            version: c.version,
        },
        vfs::rpc_response::Response::Success(_) => Response::Success,
        vfs::rpc_response::Response::Fd(f) => Response::Fd { fd: f.fd },
        vfs::rpc_response::Response::Data(d) => Response::Data { bytes: d.bytes },
        vfs::rpc_response::Response::Written(c) => Response::Written { count: c.count as usize },
        vfs::rpc_response::Response::Position(p) => Response::Position { pos: p.pos },
        vfs::rpc_response::Response::Metadata(m) => Response::Metadata {
            metadata: FileMetadata {
                size: m.size,
                created: m.created,
                modified: m.modified,
                is_dir: m.is_dir,
            },
        },
        vfs::rpc_response::Response::DirEntries(d) => Response::DirEntries {
            entries: entries_from_wire(d.entries),
        },
        vfs::rpc_response::Response::Error(e) => {
            let code = match ErrorCode::from_i32(e.code) {
                Some(c) => c,
                None => ErrorCode::Io,
            };
            Response::Error { code, message: e.message }
        },
    }
}

/// The reply carried by the bytes of a response message; a serialization
/// error when the bytes are not a response message or carry no reply.
pub fn from_proto_response_bytes(data: &[u8]) -> (r: Result<Response, ErrorCode>)
    ensures
        match r {
            Ok(resp) => decode_response_message(data@) matches Some(Some(w)) && resp@
                == normalized_response(w),
            Err(e) => e == ErrorCode::SerializationError && !(decode_response_message(
                data@,
            ) matches Some(Some(_))),
        },
{
    let proto = match vfs::RpcResponse::decode(data) {
        Ok(p) => p,
        Err(_) => return Err(ErrorCode::SerializationError),
    };
    match proto.response {
        Some(w) => Ok(response_from_wire(w)),
        None => Err(ErrorCode::SerializationError),
    }
}

// ---------------------------------------------------------------------------
// Framing on a byte stream
// ---------------------------------------------------------------------------

/// The four bytes of `n`, most significant first.
pub open spec fn be32(n: u32) -> Seq<u8> {
    seq![(n >> 24u32) as u8, ((n >> 16u32) & 0xff) as u8, ((n >> 8u32) & 0xff) as u8, (n & 0xff) as u8]
}

/// The number four bytes stand for, most significant first.
pub open spec fn be32_value(b: Seq<u8>) -> int {
    b[0] * 16777216 + b[1] * 65536 + b[2] * 256 + b[3]
}

/// A message framed for a stream: its length in four bytes, most
/// significant first (the length taken modulo 2^32), then the message.
pub fn frame_message(data: &[u8]) -> (out: Vec<u8>)
    ensures
        out@ == be32(data@.len() as u32) + data@,
{
    #[verifier::truncate]
    let n: u32 = data.len() as u32;
    let mut out: Vec<u8> = Vec::new();
    out.push((n >> 24u32) as u8);
    out.push(((n >> 16u32) & 0xff) as u8);
    out.push(((n >> 8u32) & 0xff) as u8);
    out.push((n & 0xff) as u8);
    let mut i: usize = 0;
    while i < data.len()
        invariant
            i <= data@.len(),
            out@ == be32(n) + data@.take(i as int),
        decreases data@.len() - i,
    {
        out.push(data[i]);
        assert(data@.take(i + 1) =~= data@.take(i as int).push(data@[i as int]));
        assert(out@ =~= be32(n) + data@.take(i + 1));
        i = i + 1;
    }
    assert(data@.take(data@.len() as int) =~= data@);
    out
}

/// The length a frame header announces.
pub fn frame_length(header: [u8; 4]) -> (n: u32)
    ensures
        n == be32_value(header@),
        be32(n) == header@,
{
    let n: u32 = (header[0] as u32) * 16777216 + (header[1] as u32) * 65536 + (header[2] as u32)
        * 256 + (header[3] as u32);
    let (b0, b1, b2, b3) = (header[0], header[1], header[2], header[3]);
    assert(be32(n) =~= seq![b0, b1, b2, b3]) by {
        assert((n >> 24u32) as u8 == b0 && ((n >> 16u32) & 0xff) as u8 == b1 && ((n >> 8u32) & 0xff) as u8 == b2 && (n & 0xff) as u8 == b3) by (bit_vector)
            requires
                n == (b0 as u32) * 16777216 + (b1 as u32) * 65536 + (b2 as u32) * 256 + (b3 as u32);
    }
    assert(header@ =~= seq![b0, b1, b2, b3]);
    n
}

} // verus!
