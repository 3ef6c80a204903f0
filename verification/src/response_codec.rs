//! The wire encoding of responses (see the request side for the layout).

use vstd::prelude::*;
use vstd::utf8::*;
use crate::wire::{
    Field, Item, Wire, fields_fit, get_bytes, get_string, get_varint, items_bytes, item_bytes,
    put_len_field, put_varint_field, bytes_get, string_get, varint_get, lemma_items_bytes_small,
    items_valid, items_distinct, items_fields, fields_in, lemma_items_get, read_fields,
    lemma_fields_in_bounds, lemma_items_fields, payload, item_num,
};
use crate::protocol::ResponseV;
use crate::codec::{oneof_next, oneof_state};
use crate::vfs::{
    Connected, Data, DirEntries, DirEntry, Error, Fd, MetadataResponse, Position, Success, Written,
    wire_entry_view,
};
use crate::vfs::rpc_response::Response;

verus! {

broadcast use {vstd::utf8::encode_utf8_valid_utf8, vstd::utf8::encode_utf8_decode_utf8};

// ---------------------------------------------------------------------------
// Listings
// ---------------------------------------------------------------------------

/// The fields of one listing entry: its name and its directory mark.
pub open spec fn entry_items(e: (Seq<char>, bool)) -> Seq<Item> {
    seq![
        Item::Bytes(1, encode_utf8(e.0)),
        Item::Varint(
            2,
            if e.1 {
                1u64
            } else {
                0u64
            },
        ),
    ]
}

/// The fields of a listing: one nested entry per entry, all numbered 1.
pub open spec fn entries_items(es: Seq<(Seq<char>, bool)>) -> Seq<Item> {
    es.map_values(|e: (Seq<char>, bool)| Item::Bytes(1, items_bytes(entry_items(e))))
}

/// One listing entry read from the fields of its nested message.
pub open spec fn entry_from_fields(buf: Seq<u8>, fs: Seq<Field>) -> Option<(Seq<char>, bool)> {
    match (string_get(buf, fs, 1), varint_get(fs, 2)) {
        (Some(name), Some(d)) => Some((name, d != 0)),
        _ => None,
    }
}

/// The entries of a listing read from its fields, in order; fields other
/// than 1 are skipped.
pub open spec fn entries_from(buf: Seq<u8>, fs: Seq<Field>) -> Option<Seq<(Seq<char>, bool)>>
    decreases fs.len(),
{
    if fs.len() == 0 {
        Some(seq![])
    } else {
        let f = fs[0];
        let rest = entries_from(buf, fs.drop_first());
        if f.num == 1 {
            match f.wire {
                Wire::Len(a, b) => match (fields_in(buf, a as int, b as int), rest) {
                    (Some(sub), Some(r)) => match entry_from_fields(buf, sub) {
                        Some(e) => Some(seq![e] + r),
                        None => None,
                    },
                    _ => None,
                },
                _ => None,
            }
        } else {
            rest
        }
    }
}

// ---------------------------------------------------------------------------
// The nested message of each reply
// ---------------------------------------------------------------------------

/// The field number of a reply's kind and the fields of its nested message.
#[verifier::opaque]
pub open spec fn response_items(r: ResponseV) -> (u32, Seq<Item>) {
    match r {
        ResponseV::Connected { session_id, version } => (
            1,
            seq![Item::Bytes(1, encode_utf8(session_id)), Item::Varint(2, version as u64)],
        ),
        ResponseV::Success => (2, Seq::<Item>::empty()),
        ResponseV::Fd { fd } => (3, seq![Item::Varint(1, fd as u64)]),
        ResponseV::Data { bytes } => (4, seq![Item::Bytes(1, bytes)]),
        ResponseV::Written { count } => (5, seq![Item::Varint(1, count)]),
        ResponseV::Position { pos } => (6, seq![Item::Varint(1, pos)]),
        ResponseV::Metadata { size, created, modified, is_dir } => (
            7,
            seq![
                Item::Varint(1, size),
                Item::Varint(2, created),
                Item::Varint(3, modified),
                Item::Varint(
                    4,
                    if is_dir {
                        1u64
                    } else {
                        0u64
                    },
                ),
            ],
        ),
        ResponseV::DirEntries { entries } => (8, entries_items(entries)),
        ResponseV::Error { code, message } => (
            9,
            seq![Item::Varint(1, code as u64), Item::Bytes(2, encode_utf8(message))],
        ),
    }
}

/// The reply of kind `num` read from the fields of its nested message.
#[verifier::opaque]
pub open spec fn response_from_fields(buf: Seq<u8>, num: u32, fs: Seq<Field>) -> Option<ResponseV> {
    if num == 1 {
        match (string_get(buf, fs, 1), varint_get(fs, 2)) {
            (Some(s), Some(v)) => Some(ResponseV::Connected { session_id: s, version: v as u32 }),
            _ => None,
        }
    } else if num == 2 {
        Some(ResponseV::Success)
    } else if num == 3 {
        match varint_get(fs, 1) {
            Some(v) => Some(ResponseV::Fd { fd: v as u32 }),
            None => None,
        }
    } else if num == 4 {
        match bytes_get(buf, fs, 1) {
            Some(b) => Some(ResponseV::Data { bytes: b }),
            None => None,
        }
    } else if num == 5 {
        match varint_get(fs, 1) {
            Some(v) => Some(ResponseV::Written { count: v }),
            None => None,
        }
    } else if num == 6 {
        match varint_get(fs, 1) {
            Some(v) => Some(ResponseV::Position { pos: v }),
            None => None,
        }
    } else if num == 7 {
        match (varint_get(fs, 1), varint_get(fs, 2), varint_get(fs, 3), varint_get(fs, 4)) {
            (Some(s), Some(c), Some(m), Some(d)) => Some(
                ResponseV::Metadata { size: s, created: c, modified: m, is_dir: d != 0 },
            ),
            _ => None,
        }
    } else if num == 8 {
        match entries_from(buf, fs) {
            Some(es) => Some(ResponseV::DirEntries { entries: es }),
            None => None,
        }
    } else if num == 9 {
        match (varint_get(fs, 1), string_get(buf, fs, 2)) {
            (Some(c), Some(m)) => Some(ResponseV::Error { code: c as i32, message: m }),
            _ => None,
        }
    } else {
        None
    }
}

/// Appending one item to a list appends its encoding.
proof fn lemma_items_bytes_push(its: Seq<Item>, it: Item)
    ensures
        items_bytes(its.push(it)) == items_bytes(its) + item_bytes(it),
    decreases its.len(),
{
    if its.len() == 0 {
        assert(its.push(it).drop_first() =~= Seq::<Item>::empty());
        assert(items_bytes(Seq::<Item>::empty()) =~= Seq::<u8>::empty());
        assert(items_bytes(its.push(it)) =~= item_bytes(it));
        assert(items_bytes(its) =~= Seq::<u8>::empty());
    } else {
        assert(its.push(it).drop_first() =~= its.drop_first().push(it));
        lemma_items_bytes_push(its.drop_first(), it);
        assert(items_bytes(its.push(it)) =~= items_bytes(its) + item_bytes(it));
    }
}

/// The bytes of one listing entry's nested message.
fn encode_entry(e: &DirEntry) -> (out: Vec<u8>)
    ensures
        out@ == items_bytes(entry_items(wire_entry_view(*e))),
{
    let mut out: Vec<u8> = Vec::new();
    put_len_field(&mut out, 1, e.name.as_str().as_bytes());
    let d: u64 = if e.is_dir {
        1
    } else {
        0
    };
    put_varint_field(&mut out, 2, d);
    proof {
        let its = entry_items(wire_entry_view(*e));
        lemma_items_bytes_small(its[0], its[1], its[1], its[1]);
        assert(its =~= seq![its[0], its[1]]);
    }
    out
}

/// The nested message of a reply: its kind's field number and its bytes.
pub fn encode_response_body(r: &Response) -> (out: (u32, Vec<u8>))
    ensures
        out.0 == response_items(r@).0,
        out.1@ == items_bytes(response_items(r@).1),
        1 <= out.0 <= 9,
{
    reveal(response_items);
    let mut b: Vec<u8> = Vec::new();
    match r {
        Response::Connected(c) => {
            put_len_field(&mut b, 1, c.session_id.as_str().as_bytes());
            put_varint_field(&mut b, 2, c.version as u64);
            proof {
                let its = response_items(r@).1;
                lemma_items_bytes_small(its[0], its[1], its[1], its[1]);
                assert(its =~= seq![its[0], its[1]]);
            }
            (1, b)
        },
        Response::Success(_) => {
            assert(items_bytes(Seq::<Item>::empty()) =~= Seq::<u8>::empty());
            (2, b)
        },
        Response::Fd(f) => {
            put_varint_field(&mut b, 1, f.fd as u64);
            proof {
                let its = response_items(r@).1;
                lemma_items_bytes_small(its[0], its[0], its[0], its[0]);
                assert(its =~= seq![its[0]]);
            }
            (3, b)
        },
        Response::Data(d) => {
            put_len_field(&mut b, 1, d.bytes.as_slice());
            proof {
                let its = response_items(r@).1;
                lemma_items_bytes_small(its[0], its[0], its[0], its[0]);
                assert(its =~= seq![its[0]]);
            }
            (4, b)
        },
        Response::Written(w) => {
            put_varint_field(&mut b, 1, w.count);
            proof {
                let its = response_items(r@).1;
                lemma_items_bytes_small(its[0], its[0], its[0], its[0]);
                assert(its =~= seq![its[0]]);
            }
            (5, b)
        },
        Response::Position(p) => {
            put_varint_field(&mut b, 1, p.pos);
            proof {
                let its = response_items(r@).1;
                lemma_items_bytes_small(its[0], its[0], its[0], its[0]);
                assert(its =~= seq![its[0]]);
            }
            (6, b)
        },
        Response::Metadata(m) => {
            put_varint_field(&mut b, 1, m.size);
            put_varint_field(&mut b, 2, m.created);
            put_varint_field(&mut b, 3, m.modified);
            let d: u64 = if m.is_dir {
                1
            } else {
                0
            };
            put_varint_field(&mut b, 4, d);
            proof {
                let its = response_items(r@).1;
                lemma_items_bytes_small(its[0], its[1], its[2], its[3]);
                assert(its =~= seq![its[0], its[1], its[2], its[3]]);
            }
            (7, b)
        },
        Response::DirEntries(d) => {
            let ghost es = d.entries@.map_values(|e: DirEntry| wire_entry_view(e));
            let mut i: usize = 0;
            while i < d.entries.len()
                invariant
                    i <= d.entries@.len(),
                    es == d.entries@.map_values(|e: DirEntry| wire_entry_view(e)),
                    b@ == items_bytes(entries_items(es.take(i as int))),
                decreases d.entries@.len() - i,
            {
                let body = encode_entry(&d.entries[i]);
                put_len_field(&mut b, 1, body.as_slice());
                proof {
                    let it = Item::Bytes(1, items_bytes(entry_items(es[i as int])));
                    assert(entries_items(es.take(i + 1)) =~= entries_items(es.take(i as int)).push(
                        it,
                    ));
                    lemma_items_bytes_push(entries_items(es.take(i as int)), it);
                }
                i = i + 1;
            }
            assert(es.take(d.entries@.len() as int) =~= es);
            (8, b)
        },
        Response::Error(e) => {
            put_varint_field(&mut b, 1, e.code as u64);
            put_len_field(&mut b, 2, e.message.as_str().as_bytes());
            proof {
                let its = response_items(r@).1;
                lemma_items_bytes_small(its[0], its[1], its[1], its[1]);
                assert(its =~= seq![its[0], its[1]]);
            }
            (9, b)
        },
    }
}

// ---------------------------------------------------------------------------
// Reading replies
// ---------------------------------------------------------------------------

/// Views of listing entries.
pub open spec fn wire_entries_view(v: Seq<DirEntry>) -> Seq<(Seq<char>, bool)> {
    v.map_values(|e: DirEntry| wire_entry_view(e))
}

proof fn lemma_entries_from_step(buf: Seq<u8>, fs: Seq<Field>, i: int)
    requires
        0 <= i < fs.len(),
    ensures
        entries_from(buf, fs.subrange(i, fs.len() as int)) == {
            let f = fs[i];
            let rest = entries_from(buf, fs.subrange(i + 1, fs.len() as int));
            if f.num == 1 {
                match f.wire {
                    Wire::Len(a, b) => match (fields_in(buf, a as int, b as int), rest) {
                        (Some(sub), Some(r)) => match entry_from_fields(buf, sub) {
                            Some(e) => Some(seq![e] + r),
                            None => None,
                        },
                        _ => None,
                    },
                    _ => None,
                }
            } else {
                rest
            }
        },
{
    assert(fs.subrange(i, fs.len() as int).drop_first() =~= fs.subrange(i + 1, fs.len() as int));
    assert(fs.subrange(i, fs.len() as int)[0] == fs[i]);
}

/// Read the entries of a listing.
fn entries_from_exec(buf: &[u8], fs: &Vec<Field>) -> (r: Option<Vec<DirEntry>>)
    requires
        fields_fit(buf@, fs@),
    ensures
        match r {
            Some(v) => entries_from(buf@, fs@) == Some(wire_entries_view(v@)),
            None => entries_from(buf@, fs@) is None,
        },
{
    let mut out: Vec<DirEntry> = Vec::new();
    let mut i: usize = 0;
    let total = buf.len();
    assert(fs@.subrange(0, fs@.len() as int) =~= fs@);
    assert(wire_entries_view(out@) =~= Seq::<(Seq<char>, bool)>::empty());
    while i < fs.len()
        invariant
            total == buf@.len(),
            i <= fs@.len(),
            fields_fit(buf@, fs@),
            entries_from(buf@, fs@) == match entries_from(
                buf@,
                fs@.subrange(i as int, fs@.len() as int),
            ) {
                Some(r) => Some(wire_entries_view(out@) + r),
                None => None,
            },
        decreases fs@.len() - i,
    {
        proof {
            lemma_entries_from_step(buf@, fs@, i as int);
        }
        let f = fs[i];
        if f.num == 1 {
            match f.wire {
                Wire::Len(a, b) => {
                    proof {
                        assert(match fs@[i as int].wire {
                            Wire::Len(a, b) => a <= b <= buf@.len(),
                            _ => true,
                        });
                    }
                    let sub = read_fields(buf, a, b)?;
                    proof {
                        lemma_fields_in_bounds(buf@, a as int, b as int);
                    }
                    let name = get_string(buf, &sub, 1)?;
                    let d = get_varint(&sub, 2)?;
                    let ghost before = out@;
                    out.push(DirEntry { name, is_dir: d != 0 });
                    proof {
                        match entries_from(buf@, fs@.subrange(i + 1, fs@.len() as int)) {
                            Some(r) => {
                                assert(wire_entries_view(out@) =~= wire_entries_view(before).push(
                                    wire_entry_view(out@.last()),
                                ));
                                assert(wire_entries_view(before) + (seq![
                                    wire_entry_view(out@.last()),
                                ] + r) =~= wire_entries_view(out@) + r);
                            },
                            None => {},
                        }
                    }
                },
                _ => {
                    return None;
                },
            }
        }
        i = i + 1;
    }
    assert(fs@.subrange(fs@.len() as int, fs@.len() as int) =~= Seq::<Field>::empty());
    assert(wire_entries_view(out@) + Seq::<(Seq<char>, bool)>::empty() =~= wire_entries_view(
        out@,
    ));
    Some(out)
}

/// Read the reply of kind `num` from the fields of its nested message.
pub fn response_from_fields_exec(buf: &[u8], num: u32, fs: &Vec<Field>) -> (r: Option<Response>)
    requires
        fields_fit(buf@, fs@),
    ensures
        match r {
            Some(q) => response_from_fields(buf@, num, fs@) == Some(q@),
            None => response_from_fields(buf@, num, fs@) is None,
        },
{
    reveal(response_from_fields);
    if num == 1 {
        let s = get_string(buf, fs, 1)?;
        let v = get_varint(fs, 2)?;
        Some(Response::Connected(Connected { session_id: s, version: v as u32 }))
    } else if num == 2 {
        Some(Response::Success(Success {  }))
    } else if num == 3 {
        let v = get_varint(fs, 1)?;
        Some(Response::Fd(Fd { fd: v as u32 }))
    } else if num == 4 {
        let b = get_bytes(buf, fs, 1)?;
        Some(Response::Data(Data { bytes: b }))
    } else if num == 5 {
        let v = get_varint(fs, 1)?;
        Some(Response::Written(Written { count: v }))
    } else if num == 6 {
        let v = get_varint(fs, 1)?;
        Some(Response::Position(Position { pos: v }))
    } else if num == 7 {
        let size = get_varint(fs, 1)?;
        let created = get_varint(fs, 2)?;
        let modified = get_varint(fs, 3)?;
        let d = get_varint(fs, 4)?;
        Some(Response::Metadata(MetadataResponse { size, created, modified, is_dir: d != 0 }))
    } else if num == 8 {
        let entries = entries_from_exec(buf, fs)?;
        Some(Response::DirEntries(DirEntries { entries }))
    } else if num == 9 {
        let c = get_varint(fs, 1)?;
        let m = get_string(buf, fs, 2)?;
        Some(Response::Error(Error { code: c as i32, message: m }))
    } else {
        None
    }
}

// ---------------------------------------------------------------------------
// Reading back what was written
// ---------------------------------------------------------------------------

proof fn lemma_entry_roundtrip(e: (Seq<char>, bool), buf: Seq<u8>, a: int, b: int)
    requires
        0 <= a,
        b == a + items_bytes(entry_items(e)).len(),
        b <= buf.len() <= usize::MAX,
        buf.subrange(a, b) == items_bytes(entry_items(e)),
    ensures
        fields_in(buf, a, b) == Some(items_fields(entry_items(e), a)),
        entry_from_fields(buf, items_fields(entry_items(e), a)) == Some(e),
{
    let its = entry_items(e);
    lemma_items_get(its, buf, a, b, 0);
    lemma_items_get(its, buf, a, b, 1);
}

/// Reading back the fields of a listing gives its entries.
proof fn lemma_entries_roundtrip(es: Seq<(Seq<char>, bool)>, buf: Seq<u8>, pos: int, end: int)
    requires
        0 <= pos,
        end == pos + items_bytes(entries_items(es)).len(),
        end <= buf.len() <= usize::MAX,
        buf.subrange(pos, end) == items_bytes(entries_items(es)),
    ensures
        items_valid(entries_items(es)),
        entries_from(buf, items_fields(entries_items(es), pos)) == Some(es),
    decreases es.len(),
{
    let its = entries_items(es);
    assert(items_valid(its));
    if es.len() == 0 {
        assert(items_fields(its, pos) =~= Seq::<Field>::empty());
    } else {
        let e = es[0];
        let rest = es.drop_first();
        let it = its[0];
        let q = pos + item_bytes(it).len();
        assert(its.drop_first() =~= entries_items(rest));
        lemma_items_fields(its, buf, pos, end);
        crate::wire::lemma_subrange_split(buf, pos, item_bytes(it), items_bytes(entries_items(rest)));
        lemma_entries_roundtrip(rest, buf, q, end);
        let fs = items_fields(its, pos);
        assert(fs.drop_first() =~= items_fields(entries_items(rest), q));
        let a = fs[0].wire->Len_0 as int;
        let b = fs[0].wire->Len_1 as int;
        lemma_fields_in_bounds(buf, pos, end);
        assert(payload(buf, fs[0].wire) == items_bytes(entry_items(e)));
        lemma_entry_roundtrip(e, buf, a, b);
        assert(seq![e] + rest =~= es);
    }
}

proof fn lemma_response_items_ok(r: ResponseV)
    ensures
        items_valid(response_items(r).1),
        1 <= response_items(r).0 <= 9,
        response_items(r).0 != 8 ==> items_distinct(response_items(r).1),
        response_items(r).0 != 8 ==> response_items(r).1.len() <= 4,
{
    reveal(response_items);
    match r {
        ResponseV::DirEntries { entries } => {
            assert(items_valid(entries_items(entries)));
        },
        _ => {},
    }
}

/// Reading back the nested message of a reply gives the reply.
#[verifier::rlimit(50)]
pub proof fn lemma_response_fields_roundtrip(r: ResponseV, buf: Seq<u8>, a: int, b: int)
    requires
        0 <= a,
        b == a + items_bytes(response_items(r).1).len(),
        b <= buf.len() <= usize::MAX,
        buf.subrange(a, b) == items_bytes(response_items(r).1),
    ensures
        fields_in(buf, a, b) == Some(items_fields(response_items(r).1, a)),
        response_from_fields(buf, response_items(r).0, items_fields(response_items(r).1, a))
            == Some(r),
{
    reveal(response_items);
    reveal(response_from_fields);
    let its = response_items(r).1;
    lemma_response_items_ok(r);
    lemma_items_fields(its, buf, a, b);
    match r {
        ResponseV::DirEntries { entries } => {
            lemma_entries_roundtrip(entries, buf, a, b);
        },
        ResponseV::Success => {
            assert(items_fields(its, a) =~= Seq::<Field>::empty());
        },
        ResponseV::Error { code, message } => {
            lemma_items_get(its, buf, a, b, 0);
            lemma_items_get(its, buf, a, b, 1);
            assert(((code as u64) as i32) == code) by (bit_vector);
        },
        _ => {
            lemma_items_get(its, buf, a, b, 0);
            if its.len() > 1 {
                lemma_items_get(its, buf, a, b, 1);
            }
            if its.len() > 2 {
                lemma_items_get(its, buf, a, b, 2);
            }
            if its.len() > 3 {
                lemma_items_get(its, buf, a, b, 3);
            }
        },
    }
}

// ---------------------------------------------------------------------------
// The whole response message
// ---------------------------------------------------------------------------

/// The fields of a response message: the reply's nested message, if any.
pub open spec fn response_message_items(r: Option<ResponseV>) -> Seq<Item> {
    match r {
        Some(r) => seq![Item::Bytes(response_items(r).0, items_bytes(response_items(r).1))],
        None => Seq::<Item>::empty(),
    }
}

/// The bytes of a response message.
pub open spec fn encode_response_message(r: Option<ResponseV>) -> Seq<u8> {
    items_bytes(response_message_items(r))
}

/// Reading the reply alternatives among `fs`, starting from `state`.
pub open spec fn response_oneof(buf: Seq<u8>, fs: Seq<Field>, state: Option<(u32, Seq<Field>)>) -> Option<
    Option<(u32, Seq<Field>)>,
>
    decreases fs.len(),
{
    if fs.len() == 0 {
        Some(state)
    } else {
        let f = fs[0];
        if 1 <= f.num <= 9 {
            match f.wire {
                Wire::Len(a, b) => match fields_in(buf, a as int, b as int) {
                    Some(sub) => if response_from_fields(buf, f.num, sub) is Some {
                        response_oneof(buf, fs.drop_first(), oneof_next(state, f.num, sub))
                    } else {
                        None
                    },
                    None => None,
                },
                _ => None,
            }
        } else {
            response_oneof(buf, fs.drop_first(), state)
        }
    }
}

/// A response message read from `buf`: its reply, possibly absent; `None`
/// when the bytes are not such a message.
pub open spec fn decode_response_message(buf: Seq<u8>) -> Option<Option<ResponseV>> {
    match fields_in(buf, 0, buf.len() as int) {
        None => None,
        Some(fs) => match response_oneof(buf, fs, None) {
            None => None,
            Some(None) => Some(None),
            Some(Some((k, sub))) => match response_from_fields(buf, k, sub) {
                Some(r) => Some(Some(r)),
                None => None,
            },
        },
    }
}

/// The bytes of a response message.
pub fn encode_response_message_exec(r: Option<&Response>) -> (out: Vec<u8>)
    ensures
        out@ == encode_response_message(
            match r {
                Some(r) => Some(r@),
                None => None,
            },
        ),
{
    let mut out: Vec<u8> = Vec::new();
    match r {
        Some(r) => {
            let (num, body) = encode_response_body(r);
            put_len_field(&mut out, num, body.as_slice());
            proof {
                let its = response_message_items(Some(r@));
                lemma_items_bytes_small(its[0], its[0], its[0], its[0]);
                assert(its =~= seq![its[0]]);
            }
        },
        None => {
            assert(items_bytes(Seq::<Item>::empty()) =~= Seq::<u8>::empty());
        },
    }
    out
}

proof fn lemma_response_oneof_step(
    buf: Seq<u8>,
    fs: Seq<Field>,
    i: int,
    st: Option<(u32, Seq<Field>)>,
)
    requires
        0 <= i < fs.len(),
    ensures
        response_oneof(buf, fs.subrange(i, fs.len() as int), st) == {
            let f = fs[i];
            let rest = fs.subrange(i + 1, fs.len() as int);
            if 1 <= f.num <= 9 {
                match f.wire {
                    Wire::Len(a, b) => match fields_in(buf, a as int, b as int) {
                        Some(sub) => if response_from_fields(buf, f.num, sub) is Some {
                            response_oneof(buf, rest, oneof_next(st, f.num, sub))
                        } else {
                            None
                        },
                        None => None,
                    },
                    _ => None,
                }
            } else {
                response_oneof(buf, rest, st)
            }
        },
{
    assert(fs.subrange(i, fs.len() as int).drop_first() =~= fs.subrange(i + 1, fs.len() as int));
    assert(fs.subrange(i, fs.len() as int)[0] == fs[i]);
}

/// Read a response message.
pub fn decode_response_message_exec(buf: &[u8]) -> (r: Option<Option<Response>>)
    ensures
        match r {
            Some(Some(q)) => decode_response_message(buf@) == Some(Some(q@)),
            Some(None) => decode_response_message(buf@) == Some(None::<ResponseV>),
            None => decode_response_message(buf@) is None,
        },
{
    let total = buf.len();
    let fs = read_fields(buf, 0, total)?;
    proof {
        lemma_fields_in_bounds(buf@, 0, total as int);
    }
    let mut cur: u32 = 0;
    let mut acc: Vec<Field> = Vec::new();
    let mut i: usize = 0;
    assert(fs@.subrange(0, fs@.len() as int) =~= fs@);
    while i < fs.len()
        invariant
            total == buf@.len(),
            fields_in(buf@, 0, total as int) == Some(fs@),
            i <= fs@.len(),
            fields_fit(buf@, fs@),
            fields_fit(buf@, acc@),
            cur == 0 || 1 <= cur <= 9,
            response_oneof(buf@, fs@, None) == response_oneof(
                buf@,
                fs@.subrange(i as int, fs@.len() as int),
                oneof_state(cur, acc@),
            ),
        decreases fs@.len() - i,
    {
        proof {
            lemma_response_oneof_step(buf@, fs@, i as int, oneof_state(cur, acc@));
        }
        let f = fs[i];
        if 1 <= f.num && f.num <= 9 {
            match f.wire {
                Wire::Len(a, b) => {
                    proof {
                        assert(match fs@[i as int].wire {
                            Wire::Len(a, b) => a <= b <= buf@.len(),
                            _ => true,
                        });
                    }
                    let mut sub = read_fields(buf, a, b)?;
                    proof {
                        lemma_fields_in_bounds(buf@, a as int, b as int);
                    }
                    if response_from_fields_exec(buf, f.num, &sub).is_none() {
                        return None;
                    }
                    if cur == f.num {
                        acc.append(&mut sub);
                    } else {
                        acc = sub;
                        cur = f.num;
                    }
                },
                _ => {
                    return None;
                },
            }
        }
        i = i + 1;
    }
    assert(fs@.subrange(fs@.len() as int, fs@.len() as int) =~= Seq::<Field>::empty());
    if cur == 0 {
        Some(None)
    } else {
        let resp = response_from_fields_exec(buf, cur, &acc)?;
        Some(Some(resp))
    }
}

/// Reading back the bytes of a response message gives its reply.
pub proof fn lemma_response_message_roundtrip(r: Option<ResponseV>)
    requires
        encode_response_message(r).len() <= usize::MAX,
    ensures
        decode_response_message(encode_response_message(r)) == Some(r),
{
    let buf = encode_response_message(r);
    let its = response_message_items(r);
    let len = buf.len() as int;
    assert(buf.subrange(0, len) =~= buf);
    match r {
        Some(q) => {
            lemma_response_items_ok(q);
        },
        None => {},
    }
    assert(items_valid(its));
    lemma_items_fields(its, buf, 0, len);
    lemma_fields_in_bounds(buf, 0, len);
    let fs = items_fields(its, 0);
    match r {
        Some(q) => {
            assert(fs[0].num == response_items(q).0);
            assert(fs[0].wire is Len);
            let a = fs[0].wire->Len_0 as int;
            let b = fs[0].wire->Len_1 as int;
            assert(payload(buf, fs[0].wire) == items_bytes(response_items(q).1));
            lemma_response_fields_roundtrip(q, buf, a, b);
            let sub = items_fields(response_items(q).1, a);
            assert(fs.len() == 1);
            assert(fs.drop_first() =~= Seq::<Field>::empty());
            assert(response_oneof(buf, fs.drop_first(), Some((response_items(q).0, sub))) == Some(
                Some((response_items(q).0, sub)),
            ));
            assert(response_oneof(buf, fs, None) == Some(Some((response_items(q).0, sub))));
        },
        None => {
            assert(fs =~= Seq::<Field>::empty());
        },
    }
}

} // verus!
