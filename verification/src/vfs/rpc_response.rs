//! The alternatives of a response message.

use vstd::prelude::*;
use crate::protocol::ResponseV;
use crate::vfs::{
    Connected, Data, DirEntries, Error, Fd, MetadataResponse, Position, Success, Written,
    wire_entry_view,
};

verus! {

/// The reply a response message carries.
#[derive(Debug, Clone)]
pub enum Response {
    Connected(Connected),
    Success(Success),
    Fd(Fd),
    Data(Data),
    Written(Written),
    Position(Position),
    Metadata(MetadataResponse),
    DirEntries(DirEntries),
    Error(Error),
}

impl View for Response {
    type V = ResponseV;

    open spec fn view(&self) -> ResponseV {
        match *self {
            Response::Connected(c) => ResponseV::Connected {
                session_id: c.session_id@,
                version: c.version,
            },
            Response::Success(_) => ResponseV::Success,
            Response::Fd(f) => ResponseV::Fd { fd: f.fd },
            Response::Data(d) => ResponseV::Data { bytes: d.bytes@ },
            Response::Written(w) => ResponseV::Written { count: w.count },
            Response::Position(p) => ResponseV::Position { pos: p.pos },
            Response::Metadata(m) => ResponseV::Metadata {
                size: m.size,
                created: m.created,
                modified: m.modified,
                is_dir: m.is_dir,
            },
            Response::DirEntries(d) => ResponseV::DirEntries {
                entries: d.entries@.map_values(|e: crate::vfs::DirEntry| wire_entry_view(e)),
            },
            Response::Error(e) => ResponseV::Error { code: e.code, message: e.message@ },
        }
    }
}

} // verus!
