//! The bytes requests and replies travel as, stated field by field in the
//! terms of the protobuf wire format: a field is its key (the field number
//! times eight plus the wire type, as a varint) followed by a varint value
//! or by a length and that many bytes. Each law pins the field number and
//! the wire type of every field of every message.

use vstd::prelude::*;
use vstd::utf8::*;
use crate::codec::{encode_request_message, request_items};
use crate::protocol::{RequestV, ResponseV};
use crate::response_codec::{encode_response_message, entries_items, entry_items, response_items};
use crate::wire::{item_bytes, items_bytes, lemma_items_bytes_small, varint_bytes, Item};

verus! {

/// The protobuf varint of `v`: seven bits a byte, least significant first,
/// the top bit set on every byte but the last.
pub open spec fn pb_varint(v: nat) -> Seq<u8>
    decreases v,
{
    if v < 128 {
        seq![v as u8]
    } else {
        seq![(v % 128 + 128) as u8] + pb_varint(v / 128)
    }
}

/// A varint field (wire type 0) numbered `num`.
pub open spec fn pb_uint(num: nat, v: nat) -> Seq<u8> {
    pb_varint(num * 8) + pb_varint(v)
}

/// A length-delimited field (wire type 2) numbered `num`.
pub open spec fn pb_len(num: nat, p: Seq<u8>) -> Seq<u8> {
    pb_varint(num * 8 + 2) + pb_varint(p.len()) + p
}

/// A string field numbered `num`, as UTF-8.
pub open spec fn pb_str(num: nat, s: Seq<char>) -> Seq<u8> {
    pb_len(num, encode_utf8(s))
}

/// A boolean field numbered `num`.
pub open spec fn pb_bool(num: nat, b: bool) -> Seq<u8> {
    pb_uint(
        num,
        if b {
            1
        } else {
            0
        },
    )
}

/// The schema of the request message: the field number that carries each
/// kind of request, and the fields of its nested message.
pub open spec fn request_schema(r: RequestV) -> (nat, Seq<u8>) {
    match r {
        RequestV::Connect { version } => (2, pb_uint(1, version as nat)),
        RequestV::OpenPath { path, flags } => (3, pb_str(1, path) + pb_uint(2, flags as nat)),
        RequestV::OpenAt { dir_fd, path, flags } => (
            4,
            pb_uint(1, dir_fd as nat) + pb_str(2, path) + pb_uint(3, flags as nat),
        ),
        RequestV::Read { fd, length } => (5, pb_uint(1, fd as nat) + pb_uint(2, length as nat)),
        RequestV::Write { fd, data } => (6, pb_uint(1, fd as nat) + pb_len(2, data)),
        RequestV::Close { fd } => (7, pb_uint(1, fd as nat)),
        RequestV::Seek { fd, offset, whence } => (
            8,
            pb_uint(1, fd as nat) + pb_uint(2, (offset as u64) as nat) + pb_uint(
                3,
                (whence as u64) as nat,
            ),
        ),
        RequestV::Ftruncate { fd, size } => (9, pb_uint(1, fd as nat) + pb_uint(2, size as nat)),
        RequestV::Stat { path } => (10, pb_str(1, path)),
        RequestV::Fstat { fd } => (11, pb_uint(1, fd as nat)),
        RequestV::Mkdir { path } => (12, pb_str(1, path)),
        RequestV::MkdirP { path } => (13, pb_str(1, path)),
        RequestV::Unlink { path } => (14, pb_str(1, path)),
        RequestV::Readdir { path } => (15, pb_str(1, path)),
        RequestV::ReaddirFd { fd } => (16, pb_uint(1, fd as nat)),
        RequestV::Rmdir { path } => (17, pb_str(1, path)),
        RequestV::AppendWrite { fd, data } => (18, pb_uint(1, fd as nat) + pb_len(2, data)),
        RequestV::Rename { old_path, new_path } => (19, pb_str(1, old_path) + pb_str(2, new_path)),
        RequestV::Fsync { fd } => (20, pb_uint(1, fd as nat)),
    }
}

/// The bytes of a listing: each entry a nested message (field 1) holding
/// its name (field 1) and whether it is a directory (field 2).
pub open spec fn entries_schema(es: Seq<(Seq<char>, bool)>) -> Seq<u8>
    decreases es.len(),
{
    if es.len() == 0 {
        seq![]
    } else {
        pb_len(1, pb_str(1, es[0].0) + pb_bool(2, es[0].1)) + entries_schema(es.drop_first())
    }
}

/// The schema of the response message: the field number that carries each
/// kind of reply, and the fields of its nested message.
pub open spec fn response_schema(r: ResponseV) -> (nat, Seq<u8>) {
    match r {
        ResponseV::Connected { session_id, version } => (
            1,
            pb_str(1, session_id) + pb_uint(2, version as nat),
        ),
        ResponseV::Success => (2, seq![]),
        ResponseV::Fd { fd } => (3, pb_uint(1, fd as nat)),
        ResponseV::Data { bytes } => (4, pb_len(1, bytes)),
        ResponseV::Written { count } => (5, pb_uint(1, count as nat)),
        ResponseV::Position { pos } => (6, pb_uint(1, pos as nat)),
        ResponseV::Metadata { size, created, modified, is_dir } => (
            7,
            pb_uint(1, size as nat) + pb_uint(2, created as nat) + pb_uint(3, modified as nat)
                + pb_bool(4, is_dir),
        ),
        ResponseV::DirEntries { entries } => (8, entries_schema(entries)),
        ResponseV::Error { code, message } => (
            9,
            pb_uint(1, (code as u64) as nat) + pb_str(2, message),
        ),
    }
}

/// The varint encoding the codec writes is protobuf's.
proof fn lemma_varint_is_pb(v: nat)
    ensures
        varint_bytes(v) == pb_varint(v),
    decreases v,
{
    if v >= 128 {
        lemma_varint_is_pb(v / 128);
    }
}

/// The varint fields the codec writes are protobuf's.
proof fn lemma_items_are_pb()
    ensures
        forall|n: u32, v: u64| #[trigger] item_bytes(Item::Varint(n, v)) == pb_uint(n as nat, v as nat),
        forall|n: u32, p: Seq<u8>| #[trigger] item_bytes(Item::Bytes(n, p)) == pb_len(n as nat, p),
{
    assert forall|n: u32, v: u64| #[trigger] item_bytes(Item::Varint(n, v)) == pb_uint(
        n as nat,
        v as nat,
    ) by {
        lemma_varint_is_pb(n as nat * 8 + 0);
        lemma_varint_is_pb(v as nat);
        assert(n as nat * 8 + 0 == n as nat * 8);
    }
    assert forall|n: u32, p: Seq<u8>| #[trigger] item_bytes(Item::Bytes(n, p)) == pb_len(
        n as nat,
        p,
    ) by {
        lemma_varint_is_pb(n as nat * 8 + 2);
        lemma_varint_is_pb(p.len());
    }
}

/// The nested message of a request follows the schema.
#[verifier::rlimit(50)]
proof fn lemma_request_body_wire_format(r: RequestV)
    ensures
        request_items(r).0 as nat == request_schema(r).0,
        items_bytes(request_items(r).1) == request_schema(r).1,
{
    reveal(request_items);
    lemma_items_are_pb();
    let its = request_items(r).1;
    match r {
        RequestV::OpenAt { .. } => {
            lemma_items_bytes_small(its[0], its[1], its[2], its[2]);
            assert(its =~= seq![its[0], its[1], its[2]]);
        },
        RequestV::Seek { .. } => {
            lemma_items_bytes_small(its[0], its[1], its[2], its[2]);
            assert(its =~= seq![its[0], its[1], its[2]]);
        },
        RequestV::OpenPath { .. } => {
            lemma_items_bytes_small(its[0], its[1], its[1], its[1]);
            assert(its =~= seq![its[0], its[1]]);
        },
        RequestV::Read { .. } => {
            lemma_items_bytes_small(its[0], its[1], its[1], its[1]);
            assert(its =~= seq![its[0], its[1]]);
        },
        RequestV::Write { .. } => {
            lemma_items_bytes_small(its[0], its[1], its[1], its[1]);
            assert(its =~= seq![its[0], its[1]]);
        },
        RequestV::Ftruncate { .. } => {
            lemma_items_bytes_small(its[0], its[1], its[1], its[1]);
            assert(its =~= seq![its[0], its[1]]);
        },
        RequestV::AppendWrite { .. } => {
            lemma_items_bytes_small(its[0], its[1], its[1], its[1]);
            assert(its =~= seq![its[0], its[1]]);
        },
        RequestV::Rename { .. } => {
            lemma_items_bytes_small(its[0], its[1], its[1], its[1]);
            assert(its =~= seq![its[0], its[1]]);
        },
        _ => {
            lemma_items_bytes_small(its[0], its[0], its[0], its[0]);
            assert(its =~= seq![its[0]]);
        },
    }
}

/// Every request is carried under its schema field number, and its nested
/// message holds its fields under the schema's numbers and wire types, in
/// the schema's order; the whole message is the session id (field 1, when
/// there is one) followed by that nested message.
pub proof fn law_request_wire_format(sid: Option<Seq<char>>, r: RequestV)
    ensures
        request_items(r).0 as nat == request_schema(r).0,
        items_bytes(request_items(r).1) == request_schema(r).1,
        encode_request_message(sid, Some(r)) == match sid {
            Some(s) => pb_str(1, s),
            None => Seq::<u8>::empty(),
        } + pb_len(request_schema(r).0, request_schema(r).1),
{
    lemma_request_body_wire_format(r);
    lemma_items_are_pb();
    let body = Item::Bytes(request_items(r).0, items_bytes(request_items(r).1));
    lemma_items_bytes_small(body, body, body, body);
    match sid {
        Some(s) => {
            let head = Item::Bytes(1, encode_utf8(s));
            lemma_items_bytes_small(head, body, body, body);
            assert(crate::codec::request_message_items(sid, Some(r)) =~= seq![head, body]);
        },
        None => {
            assert(crate::codec::request_message_items(sid, Some(r)) =~= seq![body]);
        },
    }
}

/// The bytes of a listing follow the schema.
proof fn lemma_entries_wire_format(es: Seq<(Seq<char>, bool)>)
    ensures
        items_bytes(entries_items(es)) == entries_schema(es),
    decreases es.len(),
{
    lemma_items_are_pb();
    if es.len() > 0 {
        lemma_entries_wire_format(es.drop_first());
        assert(entries_items(es).drop_first() =~= entries_items(es.drop_first()));
        let e = es[0];
        let a = Item::Bytes(1, encode_utf8(e.0));
        let b = Item::Varint(
            2,
            if e.1 {
                1u64
            } else {
                0u64
            },
        );
        lemma_items_bytes_small(a, b, b, b);
        assert(entry_items(e) =~= seq![a, b]);
    } else {
        assert(entries_items(es) =~= Seq::<Item>::empty());
    }
}

/// Every reply is carried under its schema field number, and its nested
/// message holds its fields under the schema's numbers and wire types, in
/// the schema's order.
pub proof fn law_response_wire_format(r: ResponseV)
    ensures
        response_items(r).0 as nat == response_schema(r).0,
        items_bytes(response_items(r).1) == response_schema(r).1,
        encode_response_message(Some(r)) == pb_len(response_schema(r).0, response_schema(r).1),
{
    reveal(response_items);
    lemma_items_are_pb();
    let its = response_items(r).1;
    match r {
        ResponseV::DirEntries { entries } => {
            lemma_entries_wire_format(entries);
        },
        ResponseV::Success => {
            assert(items_bytes(its) =~= Seq::<u8>::empty());
        },
        ResponseV::Metadata { .. } => {
            lemma_items_bytes_small(its[0], its[1], its[2], its[3]);
            assert(its =~= seq![its[0], its[1], its[2], its[3]]);
        },
        ResponseV::Connected { .. } => {
            lemma_items_bytes_small(its[0], its[1], its[1], its[1]);
            assert(its =~= seq![its[0], its[1]]);
        },
        ResponseV::Error { .. } => {
            lemma_items_bytes_small(its[0], its[1], its[1], its[1]);
            assert(its =~= seq![its[0], its[1]]);
        },
        _ => {
            lemma_items_bytes_small(its[0], its[0], its[0], its[0]);
            assert(its =~= seq![its[0]]);
        },
    }
    let body = Item::Bytes(response_items(r).0, items_bytes(its));
    lemma_items_bytes_small(body, body, body, body);
    assert(crate::response_codec::response_message_items(Some(r)) =~= seq![body]);
}

} // verus!
