//! The wire encoding of requests and responses.
//!
//! A request is a message with the session id as field 1 (an optional
//! string) and the request itself as one of fields 2 to 20, one per variant,
//! in the order of `Request`'s variants. A response is a message with the
//! reply as one of fields 1 to 9, in the order of `Response`'s variants.
//! Each of these holds a nested message whose fields are numbered from 1
//! in the order of the variant's fields. Unsigned and signed integers and
//! booleans are varints, strings and byte buffers are length-delimited; a
//! listing is a repeated nested message holding a name and a directory
//! mark.
//!
//! Reading follows the usual rules of the format: fields may come in any
//! order, unknown fields are skipped, the last value of a field wins,
//! absent fields are zero or empty, and of the alternatives for the
//! request or reply the last one present is taken, merged with the
//! occurrences of the same alternative right before it.

use vstd::prelude::*;
use vstd::utf8::*;
use crate::wire::{
    Field, Item, Wire, fields_fit, get_bytes, get_string, get_varint, items_bytes, put_len_field,
    put_varint_field, bytes_get, string_get, varint_get, lemma_items_bytes_small, items_valid,
    items_distinct, items_fields, fields_in, lemma_items_get, item_bytes, read_fields,
    get_opt_string, opt_string_get, lemma_fields_in_bounds, lemma_items_fields, lemma_items_absent,
    payload,
};
use crate::protocol::{Request, RequestV, opt_string_view, opt_request_view};

verus! {

broadcast use {vstd::utf8::encode_utf8_valid_utf8, vstd::utf8::encode_utf8_decode_utf8};

// ---------------------------------------------------------------------------
// Requests: the nested message of each kind
// ---------------------------------------------------------------------------

/// The field number of a request's kind and the fields of its nested
/// message.
#[verifier::opaque]
pub open spec fn request_items(r: RequestV) -> (u32, Seq<Item>) {
    match r {
        RequestV::Connect { version } => (2, seq![Item::Varint(1, version as u64)]),
        RequestV::OpenPath { path, flags } => (
            3,
            seq![Item::Bytes(1, encode_utf8(path)), Item::Varint(2, flags as u64)],
        ),
        RequestV::OpenAt { dir_fd, path, flags } => (
            4,
            seq![
                Item::Varint(1, dir_fd as u64),
                Item::Bytes(2, encode_utf8(path)),
                Item::Varint(3, flags as u64),
            ],
        ),
        RequestV::Read { fd, length } => (
            5,
            seq![Item::Varint(1, fd as u64), Item::Varint(2, length as u64)],
        ),
        RequestV::Write { fd, data } => (6, seq![Item::Varint(1, fd as u64), Item::Bytes(2, data)]),
        RequestV::Close { fd } => (7, seq![Item::Varint(1, fd as u64)]),
        RequestV::Seek { fd, offset, whence } => (
            8,
            seq![
                Item::Varint(1, fd as u64),
                Item::Varint(2, offset as u64),
                Item::Varint(3, whence as u64),
            ],
        ),
        RequestV::Ftruncate { fd, size } => (
            9,
            seq![Item::Varint(1, fd as u64), Item::Varint(2, size)],
        ),
        RequestV::Stat { path } => (10, seq![Item::Bytes(1, encode_utf8(path))]),
        RequestV::Fstat { fd } => (11, seq![Item::Varint(1, fd as u64)]),
        RequestV::Mkdir { path } => (12, seq![Item::Bytes(1, encode_utf8(path))]),
        RequestV::MkdirP { path } => (13, seq![Item::Bytes(1, encode_utf8(path))]),
        RequestV::Unlink { path } => (14, seq![Item::Bytes(1, encode_utf8(path))]),
        RequestV::Readdir { path } => (15, seq![Item::Bytes(1, encode_utf8(path))]),
        RequestV::ReaddirFd { fd } => (16, seq![Item::Varint(1, fd as u64)]),
        RequestV::Rmdir { path } => (17, seq![Item::Bytes(1, encode_utf8(path))]),
        RequestV::AppendWrite { fd, data } => (
            18,
            seq![Item::Varint(1, fd as u64), Item::Bytes(2, data)],
        ),
        RequestV::Rename { old_path, new_path } => (
            19,
            seq![Item::Bytes(1, encode_utf8(old_path)), Item::Bytes(2, encode_utf8(new_path))],
        ),
        RequestV::Fsync { fd } => (20, seq![Item::Varint(1, fd as u64)]),
    }
}

/// The request of kind `num` read from the fields of its nested message,
/// or `None` when a field has the wrong type or a string is not UTF-8.
#[verifier::opaque]
pub open spec fn request_from_fields(buf: Seq<u8>, num: u32, fs: Seq<Field>) -> Option<RequestV> {
    if num == 2 {
        match varint_get(fs, 1) {
            Some(v) => Some(RequestV::Connect { version: v as u32 }),
            None => None,
        }
    } else if num == 3 {
        match (string_get(buf, fs, 1), varint_get(fs, 2)) {
            (Some(path), Some(flags)) => Some(RequestV::OpenPath { path, flags: flags as u32 }),
            _ => None,
        }
    } else if num == 4 {
        match (varint_get(fs, 1), string_get(buf, fs, 2), varint_get(fs, 3)) {
            (Some(d), Some(path), Some(flags)) => Some(
                RequestV::OpenAt { dir_fd: d as u32, path, flags: flags as u32 },
            ),
            _ => None,
        }
    } else if num == 5 {
        match (varint_get(fs, 1), varint_get(fs, 2)) {
            (Some(fd), Some(len)) => Some(RequestV::Read { fd: fd as u32, length: len as usize }),
            _ => None,
        }
    } else if num == 6 {
        match (varint_get(fs, 1), bytes_get(buf, fs, 2)) {
            (Some(fd), Some(data)) => Some(RequestV::Write { fd: fd as u32, data }),
            _ => None,
        }
    } else if num == 7 {
        match varint_get(fs, 1) {
            Some(fd) => Some(RequestV::Close { fd: fd as u32 }),
            None => None,
        }
    } else if num == 8 {
        match (varint_get(fs, 1), varint_get(fs, 2), varint_get(fs, 3)) {
            (Some(fd), Some(off), Some(wh)) => Some(
                RequestV::Seek { fd: fd as u32, offset: off as i64, whence: wh as i32 },
            ),
            _ => None,
        }
    } else if num == 9 {
        match (varint_get(fs, 1), varint_get(fs, 2)) {
            (Some(fd), Some(size)) => Some(RequestV::Ftruncate { fd: fd as u32, size }),
            _ => None,
        }
    } else if num == 10 {
        match string_get(buf, fs, 1) {
            Some(path) => Some(RequestV::Stat { path }),
            None => None,
        }
    } else if num == 11 {
        match varint_get(fs, 1) {
            Some(fd) => Some(RequestV::Fstat { fd: fd as u32 }),
            None => None,
        }
    } else if num == 12 {
        match string_get(buf, fs, 1) {
            Some(path) => Some(RequestV::Mkdir { path }),
            None => None,
        }
    } else if num == 13 {
        match string_get(buf, fs, 1) {
            Some(path) => Some(RequestV::MkdirP { path }),
            None => None,
        }
    } else if num == 14 {
        match string_get(buf, fs, 1) {
            Some(path) => Some(RequestV::Unlink { path }),
            None => None,
        }
    } else if num == 15 {
        match string_get(buf, fs, 1) {
            Some(path) => Some(RequestV::Readdir { path }),
            None => None,
        }
    } else if num == 16 {
        match varint_get(fs, 1) {
            Some(fd) => Some(RequestV::ReaddirFd { fd: fd as u32 }),
            None => None,
        }
    } else if num == 17 {
        match string_get(buf, fs, 1) {
            Some(path) => Some(RequestV::Rmdir { path }),
            None => None,
        }
    } else if num == 18 {
        match (varint_get(fs, 1), bytes_get(buf, fs, 2)) {
            (Some(fd), Some(data)) => Some(RequestV::AppendWrite { fd: fd as u32, data }),
            _ => None,
        }
    } else if num == 19 {
        match (string_get(buf, fs, 1), string_get(buf, fs, 2)) {
            (Some(old_path), Some(new_path)) => Some(RequestV::Rename { old_path, new_path }),
            _ => None,
        }
    } else if num == 20 {
        match varint_get(fs, 1) {
            Some(fd) => Some(RequestV::Fsync { fd: fd as u32 }),
            None => None,
        }
    } else {
        None
    }
}

/// The nested message of a request: its kind's field number and its bytes.
pub fn encode_request_body(r: &Request) -> (out: (u32, Vec<u8>))
    ensures
        out.0 == request_items(r@).0,
        out.1@ == items_bytes(request_items(r@).1),
        2 <= out.0 <= 20,
{
    reveal(request_items);
    let mut b: Vec<u8> = Vec::new();
    let num: u32 = match r {
        Request::Connect { version } => {
            put_varint_field(&mut b, 1, *version as u64);
            2
        },
        Request::OpenPath { path, flags } => {
            put_len_field(&mut b, 1, path.as_str().as_bytes());
            put_varint_field(&mut b, 2, *flags as u64);
            3
        },
        Request::OpenAt { dir_fd, path, flags } => {
            put_varint_field(&mut b, 1, *dir_fd as u64);
            put_len_field(&mut b, 2, path.as_str().as_bytes());
            put_varint_field(&mut b, 3, *flags as u64);
            4
        },
        Request::Read { fd, length } => {
            put_varint_field(&mut b, 1, *fd as u64);
            put_varint_field(&mut b, 2, *length as u64);
            5
        },
        Request::Write { fd, data } => {
            put_varint_field(&mut b, 1, *fd as u64);
            put_len_field(&mut b, 2, data.as_slice());
            6
        },
        Request::Close { fd } => {
            put_varint_field(&mut b, 1, *fd as u64);
            7
        },
        Request::Seek { fd, offset, whence } => {
            put_varint_field(&mut b, 1, *fd as u64);
            put_varint_field(&mut b, 2, *offset as u64);
            put_varint_field(&mut b, 3, *whence as u64);
            8
        },
        Request::Ftruncate { fd, size } => {
            put_varint_field(&mut b, 1, *fd as u64);
            put_varint_field(&mut b, 2, *size);
            9
        },
        Request::Stat { path } => {
            put_len_field(&mut b, 1, path.as_str().as_bytes());
            10
        },
        Request::Fstat { fd } => {
            put_varint_field(&mut b, 1, *fd as u64);
            11
        },
        Request::Mkdir { path } => {
            put_len_field(&mut b, 1, path.as_str().as_bytes());
            12
        },
        Request::MkdirP { path } => {
            put_len_field(&mut b, 1, path.as_str().as_bytes());
            13
        },
        Request::Unlink { path } => {
            put_len_field(&mut b, 1, path.as_str().as_bytes());
            14
        },
        Request::Readdir { path } => {
            put_len_field(&mut b, 1, path.as_str().as_bytes());
            15
        },
        Request::ReaddirFd { fd } => {
            put_varint_field(&mut b, 1, *fd as u64);
            16
        },
        Request::Rmdir { path } => {
            put_len_field(&mut b, 1, path.as_str().as_bytes());
            17
        },
        Request::AppendWrite { fd, data } => {
            put_varint_field(&mut b, 1, *fd as u64);
            put_len_field(&mut b, 2, data.as_slice());
            18
        },
        Request::Rename { old_path, new_path } => {
            put_len_field(&mut b, 1, old_path.as_str().as_bytes());
            put_len_field(&mut b, 2, new_path.as_str().as_bytes());
            19
        },
        Request::Fsync { fd } => {
            put_varint_field(&mut b, 1, *fd as u64);
            20
        },
    };
    proof {
        let its = request_items(r@).1;
        if its.len() == 1 {
            lemma_items_bytes_small(its[0], its[0], its[0], its[0]);
            assert(its =~= seq![its[0]]);
        } else if its.len() == 2 {
            lemma_items_bytes_small(its[0], its[1], its[1], its[1]);
            assert(its =~= seq![its[0], its[1]]);
        } else {
            lemma_items_bytes_small(its[0], its[1], its[2], its[2]);
            assert(its =~= seq![its[0], its[1], its[2]]);
        }
    }
    (num, b)
}

/// Read the request of kind `num` from the fields of its nested message.
pub fn request_from_fields_exec(buf: &[u8], num: u32, fs: &Vec<Field>) -> (r: Option<Request>)
    requires
        fields_fit(buf@, fs@),
    ensures
        match r {
            Some(q) => request_from_fields(buf@, num, fs@) == Some(q@),
            None => request_from_fields(buf@, num, fs@) is None,
        },
{
    reveal(request_from_fields);
    if num == 2 {
        let v = get_varint(fs, 1)?;
        Some(Request::Connect { version: v as u32 })
    } else if num == 3 {
        let path = get_string(buf, fs, 1)?;
        let flags = get_varint(fs, 2)?;
        Some(Request::OpenPath { path, flags: flags as u32 })
    } else if num == 4 {
        let d = get_varint(fs, 1)?;
        let path = get_string(buf, fs, 2)?;
        let flags = get_varint(fs, 3)?;
        Some(Request::OpenAt { dir_fd: d as u32, path, flags: flags as u32 })
    } else if num == 5 {
        let fd = get_varint(fs, 1)?;
        let len = get_varint(fs, 2)?;
        Some(Request::Read { fd: fd as u32, length: len as usize })
    } else if num == 6 {
        let fd = get_varint(fs, 1)?;
        let data = get_bytes(buf, fs, 2)?;
        Some(Request::Write { fd: fd as u32, data })
    } else if num == 7 {
        let fd = get_varint(fs, 1)?;
        Some(Request::Close { fd: fd as u32 })
    } else if num == 8 {
        let fd = get_varint(fs, 1)?;
        let off = get_varint(fs, 2)?;
        let wh = get_varint(fs, 3)?;
        Some(Request::Seek { fd: fd as u32, offset: off as i64, whence: wh as i32 })
    } else if num == 9 {
        let fd = get_varint(fs, 1)?;
        let size = get_varint(fs, 2)?;
        Some(Request::Ftruncate { fd: fd as u32, size })
    } else if num == 10 {
        let path = get_string(buf, fs, 1)?;
        Some(Request::Stat { path })
    } else if num == 11 {
        let fd = get_varint(fs, 1)?;
        Some(Request::Fstat { fd: fd as u32 })
    } else if num == 12 {
        let path = get_string(buf, fs, 1)?;
        Some(Request::Mkdir { path })
    } else if num == 13 {
        let path = get_string(buf, fs, 1)?;
        Some(Request::MkdirP { path })
    } else if num == 14 {
        let path = get_string(buf, fs, 1)?;
        Some(Request::Unlink { path })
    } else if num == 15 {
        let path = get_string(buf, fs, 1)?;
        Some(Request::Readdir { path })
    } else if num == 16 {
        let fd = get_varint(fs, 1)?;
        Some(Request::ReaddirFd { fd: fd as u32 })
    } else if num == 17 {
        let path = get_string(buf, fs, 1)?;
        Some(Request::Rmdir { path })
    } else if num == 18 {
        let fd = get_varint(fs, 1)?;
        let data = get_bytes(buf, fs, 2)?;
        Some(Request::AppendWrite { fd: fd as u32, data })
    } else if num == 19 {
        let old_path = get_string(buf, fs, 1)?;
        let new_path = get_string(buf, fs, 2)?;
        Some(Request::Rename { old_path, new_path })
    } else if num == 20 {
        let fd = get_varint(fs, 1)?;
        Some(Request::Fsync { fd: fd as u32 })
    } else {
        None
    }
}

/// The fields of a request's nested message are valid and distinct.
proof fn lemma_request_items_ok(r: RequestV)
    ensures
        items_valid(request_items(r).1),
        items_distinct(request_items(r).1),
        1 <= request_items(r).1.len() <= 3,
        2 <= request_items(r).0 <= 20,
{
    reveal(request_items);
}

/// Reading back the nested message of a request gives the request.
#[verifier::rlimit(50)]
pub proof fn lemma_request_fields_roundtrip(r: RequestV, buf: Seq<u8>, a: int, b: int)
    requires
        0 <= a,
        b == a + items_bytes(request_items(r).1).len(),
        b <= buf.len() <= usize::MAX,
        buf.subrange(a, b) == items_bytes(request_items(r).1),
    ensures
        fields_in(buf, a, b) == Some(items_fields(request_items(r).1, a)),
        request_from_fields(buf, request_items(r).0, items_fields(request_items(r).1, a)) == Some(
            r,
        ),
{
    reveal(request_items);
    reveal(request_from_fields);
    let its = request_items(r).1;
    lemma_request_items_ok(r);
    lemma_items_get(its, buf, a, b, 0);
    if its.len() > 1 {
        lemma_items_get(its, buf, a, b, 1);
    }
    if its.len() > 2 {
        lemma_items_get(its, buf, a, b, 2);
    }
    match r {
        RequestV::Seek { fd, offset, whence } => {
            assert(((offset as u64) as i64) == offset) by (bit_vector);
            assert(((whence as u64) as i32) == whence) by (bit_vector);
        },
        _ => {},
    }
}

// ---------------------------------------------------------------------------
// Requests: the whole message
// ---------------------------------------------------------------------------

/// The fields of a request message: the session id, if any, then the
/// request's nested message, if any.
pub open spec fn request_message_items(sid: Option<Seq<char>>, req: Option<RequestV>) -> Seq<Item> {
    let s = match sid {
        Some(s) => seq![Item::Bytes(1, encode_utf8(s))],
        None => Seq::<Item>::empty(),
    };
    let q = match req {
        Some(r) => seq![Item::Bytes(request_items(r).0, items_bytes(request_items(r).1))],
        None => Seq::<Item>::empty(),
    };
    s + q
}

/// The bytes of a request message.
pub open spec fn encode_request_message(sid: Option<Seq<char>>, req: Option<RequestV>) -> Seq<u8> {
    items_bytes(request_message_items(sid, req))
}

/// The alternative chosen so far while reading a message: its field number
/// and the fields of its nested message, merged over the occurrences in a
/// row; `None` while there is none.
pub open spec fn oneof_state(cur: u32, acc: Seq<Field>) -> Option<(u32, Seq<Field>)> {
    if cur == 0 {
        None
    } else {
        Some((cur, acc))
    }
}

/// The next alternative after reading an occurrence of field `num` whose
/// nested message has fields `sub`.
pub open spec fn oneof_next(state: Option<(u32, Seq<Field>)>, num: u32, sub: Seq<Field>) -> Option<
    (u32, Seq<Field>),
> {
    match state {
        Some((k, acc)) => if k == num {
            Some((k, acc + sub))
        } else {
            Some((num, sub))
        },
        None => Some((num, sub)),
    }
}

/// Reading the request alternatives among `fs`, starting from `state`:
/// every occurrence must be a well-formed nested message of its kind.
pub open spec fn request_oneof(buf: Seq<u8>, fs: Seq<Field>, state: Option<(u32, Seq<Field>)>) -> Option<
    Option<(u32, Seq<Field>)>,
>
    decreases fs.len(),
{
    if fs.len() == 0 {
        Some(state)
    } else {
        let f = fs[0];
        if 2 <= f.num <= 20 {
            match f.wire {
                Wire::Len(a, b) => match fields_in(buf, a as int, b as int) {
                    Some(sub) => if request_from_fields(buf, f.num, sub) is Some {
                        request_oneof(buf, fs.drop_first(), oneof_next(state, f.num, sub))
                    } else {
                        None
                    },
                    None => None,
                },
                _ => None,
            }
        } else {
            request_oneof(buf, fs.drop_first(), state)
        }
    }
}

/// A request message read from `buf`: the session id and the request, each
/// possibly absent; `None` when the bytes are not such a message.
pub open spec fn decode_request_message(buf: Seq<u8>) -> Option<(Option<Seq<char>>, Option<RequestV>)> {
    match fields_in(buf, 0, buf.len() as int) {
        None => None,
        Some(fs) => match opt_string_get(buf, fs, 1) {
            None => None,
            Some(sid) => match request_oneof(buf, fs, None) {
                None => None,
                Some(None) => Some((sid, None)),
                Some(Some((k, sub))) => match request_from_fields(buf, k, sub) {
                    Some(r) => Some((sid, Some(r))),
                    None => None,
                },
            },
        },
    }
}

/// The bytes of a request message.
pub fn encode_request_message_exec(sid: &Option<String>, req: Option<&Request>) -> (out: Vec<u8>)
    ensures
        out@ == encode_request_message(
            opt_string_view(*sid),
            match req {
                Some(r) => Some(r@),
                None => None,
            },
        ),
{
    let mut out: Vec<u8> = Vec::new();
    match sid {
        Some(s) => put_len_field(&mut out, 1, s.as_str().as_bytes()),
        None => {},
    }
    let ghost mid = out@;
    match req {
        Some(r) => {
            let (num, body) = encode_request_body(r);
            put_len_field(&mut out, num, body.as_slice());
        },
        None => {},
    }
    proof {
        let its = request_message_items(
            opt_string_view(*sid),
            match req {
                Some(r) => Some(r@),
                None => None,
            },
        );
        if its.len() == 0 {
            assert(items_bytes(its) =~= Seq::<u8>::empty());
            assert(out@ =~= Seq::<u8>::empty());
        } else if its.len() == 1 {
            lemma_items_bytes_small(its[0], its[0], its[0], its[0]);
            assert(its =~= seq![its[0]]);
            assert(out@ =~= item_bytes(its[0]));
        } else {
            lemma_items_bytes_small(its[0], its[1], its[1], its[1]);
            assert(its =~= seq![its[0], its[1]]);
            assert(out@ =~= item_bytes(its[0]) + item_bytes(its[1]));
        }
    }
    out
}

proof fn lemma_request_oneof_step(buf: Seq<u8>, fs: Seq<Field>, i: int, st: Option<(u32, Seq<Field>)>)
    requires
        0 <= i < fs.len(),
    ensures
        request_oneof(buf, fs.subrange(i, fs.len() as int), st) == {
            let f = fs[i];
            let rest = fs.subrange(i + 1, fs.len() as int);
            if 2 <= f.num <= 20 {
                match f.wire {
                    Wire::Len(a, b) => match fields_in(buf, a as int, b as int) {
                        Some(sub) => if request_from_fields(buf, f.num, sub) is Some {
                            request_oneof(buf, rest, oneof_next(st, f.num, sub))
                        } else {
                            None
                        },
                        None => None,
                    },
                    _ => None,
                }
            } else {
                request_oneof(buf, rest, st)
            }
        },
{
    assert(fs.subrange(i, fs.len() as int).drop_first() =~= fs.subrange(i + 1, fs.len() as int));
    assert(fs.subrange(i, fs.len() as int)[0] == fs[i]);
}

/// Read a request message.
pub fn decode_request_message_exec(buf: &[u8]) -> (r: Option<(Option<String>, Option<Request>)>)
    ensures
        match r {
            Some((s, q)) => decode_request_message(buf@) == Some(
                (
                    opt_string_view(s),
                    opt_request_view(q),
                ),
            ),
            None => decode_request_message(buf@) is None,
        },
{
    let total = buf.len();
    let fs = read_fields(buf, 0, total)?;
    proof {
        lemma_fields_in_bounds(buf@, 0, total as int);
    }
    let sid = get_opt_string(buf, &fs, 1)?;
    let mut cur: u32 = 0;
    let mut acc: Vec<Field> = Vec::new();
    let mut i: usize = 0;
    assert(fs@.subrange(0, fs@.len() as int) =~= fs@);
    while i < fs.len()
        invariant
            total == buf@.len(),
            fields_in(buf@, 0, total as int) == Some(fs@),
            opt_string_get(buf@, fs@, 1) == Some(opt_string_view(sid)),
            i <= fs@.len(),
            fields_fit(buf@, fs@),
            fields_fit(buf@, acc@),
            cur == 0 || 2 <= cur <= 20,
            request_oneof(buf@, fs@, None) == request_oneof(
                buf@,
                fs@.subrange(i as int, fs@.len() as int),
                oneof_state(cur, acc@),
            ),
        decreases fs@.len() - i,
    {
        proof {
            lemma_request_oneof_step(buf@, fs@, i as int, oneof_state(cur, acc@));
        }
        let f = fs[i];
        if 2 <= f.num && f.num <= 20 {
            match f.wire {
                Wire::Len(a, b) => {
                    proof {
                        assert(match fs@[i as int].wire {
                            Wire::Len(a, b) => a <= b <= buf@.len(),
                            _ => true,
                        });
                    }
                    let mut sub = read_fields(buf, a, b)?;
                    proof {
                        lemma_fields_in_bounds(buf@, a as int, b as int);
                    }
                    if request_from_fields_exec(buf, f.num, &sub).is_none() {
                        return None;
                    }
                    if cur == f.num {
                        acc.append(&mut sub);
                    } else {
                        acc = sub;
                        cur = f.num;
                    }
                },
                _ => {
                    return None;
                },
            }
        }
        i = i + 1;
    }
    assert(fs@.subrange(fs@.len() as int, fs@.len() as int) =~= Seq::<Field>::empty());
    if cur == 0 {
        Some((sid, None))
    } else {
        let req = request_from_fields_exec(buf, cur, &acc)?;
        Some((sid, Some(req)))
    }
}

/// Reading back the bytes of a request message gives its session id and
/// request.
pub proof fn lemma_request_message_roundtrip(sid: Option<Seq<char>>, req: Option<RequestV>)
    requires
        encode_request_message(sid, req).len() <= usize::MAX,
    ensures
        decode_request_message(encode_request_message(sid, req)) == Some((sid, req)),
{
    let buf = encode_request_message(sid, req);
    let its = request_message_items(sid, req);
    let len = buf.len() as int;
    assert(buf.subrange(0, len) =~= buf);
    match req {
        Some(r) => {
            lemma_request_items_ok(r);
        },
        None => {},
    }
    assert(items_valid(its));
    assert(items_distinct(its));
    lemma_items_fields(its, buf, 0, len);
    lemma_fields_in_bounds(buf, 0, len);
    let fs = items_fields(its, 0);
    match sid {
        Some(s) => {
            lemma_items_get(its, buf, 0, len, 0);
        },
        None => {
            lemma_items_absent(its, buf, 0, len, 1);
        },
    }
    assert(opt_string_get(buf, fs, 1) == Some(sid));
    let skip: int = if sid is Some { 1 } else { 0 };
    let tail = fs.subrange(skip, fs.len() as int);
    assert(request_oneof(buf, fs, None) == request_oneof(buf, tail, None)) by {
        if sid is Some {
            assert(fs.drop_first() =~= tail);
            assert(fs[0].num == 1);
        } else {
            assert(fs =~= tail);
        }
    }
    match req {
        Some(r) => {
            let k = skip;
            assert(fs[k].num == request_items(r).0);
            assert(fs[k].wire is Len);
            let a = fs[k].wire->Len_0 as int;
            let b = fs[k].wire->Len_1 as int;
            assert(payload(buf, fs[k].wire) == items_bytes(request_items(r).1));
            lemma_request_fields_roundtrip(r, buf, a, b);
            let sub = items_fields(request_items(r).1, a);
            assert(tail.len() == 1);
            assert(tail[0] == fs[k]);
            assert(tail.drop_first() =~= Seq::<Field>::empty());
            assert(request_oneof(buf, tail.drop_first(), Some((request_items(r).0, sub))) == Some(
                Some((request_items(r).0, sub)),
            ));
            assert(request_oneof(buf, tail, None) == Some(Some((request_items(r).0, sub))));
        },
        None => {
            assert(tail =~= Seq::<Field>::empty());
        },
    }
}

} // verus!
