//! The messages as they travel on the wire, one struct per message of the
//! wire schema, with their encoding to and decoding from bytes.

use vstd::prelude::*;
use crate::protocol::{Request, RequestV, ResponseV, opt_string_view, opt_request_view};
use crate::codec::{
    decode_request_message, decode_request_message_exec, encode_request_message,
    encode_request_message_exec,
};
use crate::response_codec::{
    decode_response_message, decode_response_message_exec, encode_response_message,
    encode_response_message_exec,
};

pub mod rpc_response;

verus! {

/// The bytes given to a decoder were not a well-formed message.
#[derive(Debug, Clone, Copy, PartialEq, Eq, Structural)]
pub struct DecodeError;

/// A request message: the session id, if any, and the request, if any.
#[derive(Debug, Clone)]
pub struct RpcRequest {
    pub session_id: Option<String>,
    pub request: Option<Request>,
}

impl View for RpcRequest {
    type V = (Option<Seq<char>>, Option<RequestV>);

    open spec fn view(&self) -> (Option<Seq<char>>, Option<RequestV>) {
        (opt_string_view(self.session_id), opt_request_view(self.request))
    }
}

/// A response message: the reply, if any.
#[derive(Debug, Clone)]
pub struct RpcResponse {
    pub response: Option<rpc_response::Response>,
}

/// An optional reply as an optional view.
pub open spec fn opt_response_view(r: Option<rpc_response::Response>) -> Option<ResponseV> {
    match r {
        Some(r) => Some(r@),
        None => None,
    }
}

impl View for RpcResponse {
    type V = Option<ResponseV>;

    open spec fn view(&self) -> Option<ResponseV> {
        opt_response_view(self.response)
    }
}

/// Reply to a successful connect: the session id and the agreed version.
#[derive(Debug, Clone)]
pub struct Connected {
    pub session_id: String,
    pub version: u32,
}

/// Reply to a request that succeeded without a result.
#[derive(Debug, Clone, Copy, PartialEq, Eq, Structural)]
pub struct Success {}

/// Reply carrying a file descriptor.
#[derive(Debug, Clone, Copy, PartialEq, Eq, Structural)]
pub struct Fd {
    pub fd: u32,
}

/// Reply carrying bytes that were read.
#[derive(Debug, Clone)]
pub struct Data {
    pub bytes: Vec<u8>,
}

/// Reply carrying the number of bytes written.
#[derive(Debug, Clone, Copy, PartialEq, Eq, Structural)]
pub struct Written {
    pub count: u64,
}

/// Reply carrying a file position.
#[derive(Debug, Clone, Copy, PartialEq, Eq, Structural)]
pub struct Position {
    pub pos: u64,
}

/// Reply carrying metadata.
#[derive(Debug, Clone, Copy, PartialEq, Eq, Structural)]
pub struct MetadataResponse {
    pub size: u64,
    pub created: u64,
    pub modified: u64,
    pub is_dir: bool,
}

/// One entry of a listing.
#[derive(Debug, Clone)]
pub struct DirEntry {
    pub name: String,
    pub is_dir: bool,
}

/// A listing entry as a name and a directory mark.
pub open spec fn wire_entry_view(e: DirEntry) -> (Seq<char>, bool) {
    (e.name@, e.is_dir)
}

/// Reply carrying a listing.
#[derive(Debug, Clone)]
pub struct DirEntries {
    pub entries: Vec<DirEntry>,
}

/// Reply carrying an error: its code number and a message.
#[derive(Debug, Clone)]
pub struct Error {
    pub code: i32,
    pub message: String,
}

impl RpcRequest {
    /// The bytes of this message.
    pub fn encode_to_vec(&self) -> (out: Vec<u8>)
        ensures
            out@ == encode_request_message(self@.0, self@.1),
    {
        let req = match &self.request {
            Some(r) => Some(r),
            None => None,
        };
        encode_request_message_exec(&self.session_id, req)
    }

    /// Read a request message from bytes.
    pub fn decode(buf: &[u8]) -> (r: Result<RpcRequest, DecodeError>)
        ensures
            match r {
                Ok(m) => decode_request_message(buf@) == Some(m@),
                Err(_) => decode_request_message(buf@) is None,
            },
    {
        match decode_request_message_exec(buf) {
            Some((session_id, request)) => Ok(RpcRequest { session_id, request }),
            None => Err(DecodeError),
        }
    }
}

impl RpcResponse {
    /// The bytes of this message.
    pub fn encode_to_vec(&self) -> (out: Vec<u8>)
        ensures
            out@ == encode_response_message(self@),
    {
        let r = match &self.response {
            Some(r) => Some(r),
            None => None,
        };
        encode_response_message_exec(r)
    }

    /// Read a response message from bytes.
    pub fn decode(buf: &[u8]) -> (r: Result<RpcResponse, DecodeError>)
        ensures
            match r {
                Ok(m) => decode_response_message(buf@) == Some(m@),
                Err(_) => decode_response_message(buf@) is None,
            },
    {
        match decode_response_message_exec(buf) {
            Some(response) => Ok(RpcResponse { response }),
            None => Err(DecodeError),
        }
    }
}

} // verus!
