//! Protocol Buffers wire format: base-128 varints, field keys, and the
//! splitting of a byte range into a list of fields.
//!
//! A field is a key (field number and wire type) followed by its value.
//! Varint fields carry an unsigned 64-bit value; length-delimited fields
//! carry a byte range of the buffer, which is given here by its absolute
//! start and end so that nested messages can be parsed in place.

use vstd::prelude::*;
use vstd::utf8::*;

verus! {

// ---------------------------------------------------------------------------
// Varints
// ---------------------------------------------------------------------------

/// `128^k`.
pub open spec fn pow128(k: nat) -> nat
    decreases k,
{
    if k == 0 {
        1
    } else {
        128 * pow128((k - 1) as nat)
    }
}

/// The base-128 encoding of `v`: seven bits per byte, least significant
/// group first, the high bit set on every byte but the last.
pub open spec fn varint_bytes(v: nat) -> Seq<u8>
    decreases v,
{
    if v < 128 {
        seq![v as u8]
    } else {
        seq![(v % 128 + 128) as u8] + varint_bytes(v / 128)
    }
}

/// Reading the varint that starts at `pos`, from its `i`-th byte on, without
/// passing `end`: the value of the bytes from the `i`-th on and the position
/// after the varint. A varint has at most ten bytes, and a tenth byte may
/// only be 0 or 1, so that the value fits in 64 bits.
pub open spec fn varint_tail(buf: Seq<u8>, pos: int, end: int, i: int) -> Option<(int, int)>
    decreases 10 - i,
{
    if i < 0 || i >= 10 || pos < 0 || pos + i >= end || end > buf.len() {
        None
    } else {
        let b = buf[pos + i];
        if b < 128 {
            if i == 9 && b > 1 {
                None
            } else {
                Some((b as int, pos + i + 1))
            }
        } else {
            match varint_tail(buf, pos, end, i + 1) {
                Some((v, e)) => Some(((b - 128) + 128 * v, e)),
                None => None,
            }
        }
    }
}

/// The varint at `pos` that ends before `end`: its value and the position
/// after it, or `None` when the bytes do not hold one.
pub open spec fn varint_at(buf: Seq<u8>, pos: int, end: int) -> Option<(u64, int)> {
    match varint_tail(buf, pos, end, 0) {
        Some((v, e)) => Some((v as u64, e)),
        None => None,
    }
}

proof fn lemma_pow128_facts()
    ensures
        pow128(0) == 1,
        pow128(1) == 128,
        pow128(2) == 0x4000,
        pow128(3) == 0x20_0000,
        pow128(4) == 0x1000_0000,
        pow128(5) == 0x8_0000_0000,
        pow128(6) == 0x400_0000_0000,
        pow128(7) == 0x2_0000_0000_0000,
        pow128(8) == 0x100_0000_0000_0000,
        pow128(9) == 0x8000_0000_0000_0000,
{
    reveal_with_fuel(pow128, 10);
}

proof fn lemma_pow128_mono(a: nat, b: nat)
    requires
        a <= b,
    ensures
        pow128(a) <= pow128(b),
    decreases b - a,
{
    if a < b {
        lemma_pow128_mono(a, (b - 1) as nat);
    }
}

/// The value read from the `i`-th byte of a varint on is below
/// `2 * 128^(9 - i)`, and the position after it is past the `i`-th byte.
proof fn lemma_varint_tail_bound(buf: Seq<u8>, pos: int, end: int, i: int)
    requires
        0 <= i < 10,
        varint_tail(buf, pos, end, i) is Some,
    ensures
        match varint_tail(buf, pos, end, i) {
            Some((v, e)) => 0 <= v < 2 * pow128((9 - i) as nat) && pos + i < e <= end,
            None => false,
        },
    decreases 10 - i,
{
    let b = buf[pos + i];
    if b >= 128 {
        lemma_varint_tail_bound(buf, pos, end, i + 1);
        let (v, e) = varint_tail(buf, pos, end, i + 1).unwrap();
        assert(pow128((9 - i) as nat) == 128 * pow128((9 - (i + 1)) as nat));
        assert((b - 128) + 128 * v < 2 * pow128((9 - i) as nat)) by (nonlinear_arith)
            requires
                0 <= b - 128 < 128,
                0 <= v < 2 * pow128((9 - (i + 1)) as nat),
                pow128((9 - i) as nat) == 128 * pow128((9 - (i + 1)) as nat),
        ;
    } else if i < 9 {
        assert(pow128((9 - i) as nat) == 128 * pow128((9 - (i + 1)) as nat));
        lemma_pow128_mono(0, (9 - (i + 1)) as nat);
    }
}

/// A varint read from the buffer is below `2^64`.
pub proof fn lemma_varint_at_fits(buf: Seq<u8>, pos: int, end: int)
    requires
        varint_tail(buf, pos, end, 0) is Some,
    ensures
        match varint_tail(buf, pos, end, 0) {
            Some((v, e)) => 0 <= v <= u64::MAX && pos < e <= end,
            None => false,
        },
{
    lemma_varint_tail_bound(buf, pos, end, 0);
    lemma_pow128_facts();
}

/// The encoding of `v` read back from the `i`-th byte on gives `v`.
proof fn lemma_varint_tail_of_bytes(v: nat, buf: Seq<u8>, pos: int, end: int, i: int)
    requires
        0 <= i < 10,
        0 <= pos,
        v < 2 * pow128((9 - i) as nat),
        pos + i + varint_bytes(v).len() <= end <= buf.len(),
        buf.subrange(pos + i, pos + i + varint_bytes(v).len()) == varint_bytes(v),
    ensures
        varint_tail(buf, pos, end, i) == Some((v as int, pos + i + varint_bytes(v).len())),
    decreases v,
{
    let vb = varint_bytes(v);
    assert(buf[pos + i] == vb[0]) by {
        assert(buf.subrange(pos + i, pos + i + vb.len())[0] == buf[pos + i]);
    }
    if v < 128 {
        if i == 9 {
            lemma_pow128_facts();
        }
    } else {
        let w = v / 128;
        let wb = varint_bytes(w);
        assert(vb == seq![(v % 128 + 128) as u8] + wb);
        if i == 9 {
            lemma_pow128_facts();
            assert(false);
        }
        assert(pow128((9 - i) as nat) == 128 * pow128((9 - (i + 1)) as nat));
        assert(w < 2 * pow128((9 - (i + 1)) as nat)) by (nonlinear_arith)
            requires
                w == v / 128,
                v < 2 * pow128((9 - i) as nat),
                pow128((9 - i) as nat) == 128 * pow128((9 - (i + 1)) as nat),
        ;
        assert(buf.subrange(pos + i + 1, pos + i + 1 + wb.len()) =~= wb) by {
            assert forall|k: int| 0 <= k < wb.len() implies buf.subrange(
                pos + i + 1,
                pos + i + 1 + wb.len(),
            )[k] == wb[k] by {
                assert(buf.subrange(pos + i, pos + i + vb.len())[k + 1] == vb[k + 1]);
            }
        }
        lemma_varint_tail_of_bytes(w, buf, pos, end, i + 1);
    }
}

/// The encoding of a 64-bit value, found at `pos`, reads back as that value.
pub proof fn lemma_varint_roundtrip(v: u64, buf: Seq<u8>, pos: int, end: int)
    requires
        0 <= pos,
        pos + varint_bytes(v as nat).len() <= end <= buf.len(),
        buf.subrange(pos, pos + varint_bytes(v as nat).len()) == varint_bytes(v as nat),
    ensures
        varint_at(buf, pos, end) == Some((v, pos + varint_bytes(v as nat).len())),
{
    lemma_pow128_facts();
    lemma_varint_tail_of_bytes(v as nat, buf, pos, end, 0);
}

/// Append the varint encoding of `v`.
pub fn put_varint(out: &mut Vec<u8>, v: u64)
    ensures
        final(out)@ == old(out)@ + varint_bytes(v as nat),
{
    let mut x = v;
    while x >= 128
        invariant
            old(out)@ + varint_bytes(v as nat) == out@ + varint_bytes(x as nat),
        decreases x,
    {
        let b: u8 = (x % 128 + 128) as u8;
        let ghost before = out@;
        out.push(b);
        assert(varint_bytes(x as nat) == seq![b] + varint_bytes((x / 128) as nat));
        assert(before + varint_bytes(x as nat) =~= out@ + varint_bytes((x / 128) as nat));
        x = x / 128;
    }
    let ghost before = out@;
    out.push(x as u8);
    assert(before + varint_bytes(x as nat) =~= out@);
}

/// Read the varint at `pos` that ends before `end`.
pub fn read_varint(buf: &[u8], pos: usize, end: usize) -> (r: Option<(u64, usize)>)
    requires
        pos <= end <= buf@.len(),
    ensures
        match r {
            Some((v, e)) => varint_at(buf@, pos as int, end as int) == Some((v, e as int)),
            None => varint_at(buf@, pos as int, end as int) is None,
        },
{
    let mut i: usize = 0;
    let mut acc: u64 = 0;
    let mut mult: u64 = 1;
    proof {
        lemma_pow128_facts();
    }
    while i < 10
        invariant
            pos <= end <= buf@.len(),
            i <= 10,
            mult == pow128(i as nat),
            acc < mult,
            pow128(9) == 0x8000_0000_0000_0000,
            pow128(8) == 0x100_0000_0000_0000,
            varint_tail(buf@, pos as int, end as int, 0) == match varint_tail(
                buf@,
                pos as int,
                end as int,
                i as int,
            ) {
                Some((v, e)) => Some((acc + mult * v, e)),
                None => None,
            },
        decreases 10 - i,
    {
        if i >= end - pos {
            return None;
        }
        let b = buf[pos + i];
        if b < 128 {
            if i == 9 && b > 1 {
                return None;
            }
            proof {
                assert(mult * (b as int) <= mult * 127) by (nonlinear_arith)
                    requires
                        b < 128,
                ;
                if i == 9 {
                    assert(mult * (b as int) <= mult * 1) by (nonlinear_arith)
                        requires
                            b <= 1,
                    ;
                } else {
                    assert(pow128((i + 1) as nat) == 128 * pow128(i as nat));
                    lemma_pow128_mono((i + 1) as nat, 9);
                }
            }
            let value: u64 = acc + mult * (b as u64);
            return Some((value, pos + i + 1));
        }
        proof {
            let rest = varint_tail(buf@, pos as int, end as int, i as int + 1);
            match rest {
                Some((v, e)) => {
                    assert(acc + mult * ((b - 128) + 128 * v) == (acc + mult * (b - 128)) + (mult
                        * 128) * v) by (nonlinear_arith);
                },
                None => {},
            }
        }
        if i == 9 {
            return None;
        }
        proof {
            assert(pow128((i + 1) as nat) == 128 * pow128(i as nat));
            lemma_pow128_mono((i + 1) as nat, 9);
            assert(acc + mult * ((b - 128) as int) < mult * 128) by (nonlinear_arith)
                requires
                    acc < mult,
                    b - 128 <= 127,
            ;
        }
        acc = acc + mult * ((b - 128) as u64);
        mult = mult * 128;
        i = i + 1;
    }
    None
}

// ---------------------------------------------------------------------------
// Fields
// ---------------------------------------------------------------------------

/// The value of one field as it stands in the buffer.
#[derive(Debug, Clone, Copy, PartialEq, Eq, Structural)]
pub enum Wire {
    /// A varint value.
    Varint(u64),
    /// Eight bytes starting at the given position.
    Fixed64(usize),
    /// The bytes from the first position up to the second.
    Len(usize, usize),
    /// Four bytes starting at the given position.
    Fixed32(usize),
}

/// One field: its number and its value.
#[derive(Debug, Clone, Copy, PartialEq, Eq, Structural)]
pub struct Field {
    pub num: u32,
    pub wire: Wire,
}

/// Wire type of a varint field.
pub const WT_VARINT: u64 = 0;
/// Wire type of a length-delimited field.
pub const WT_LEN: u64 = 2;

/// The wire type number of a field value.
pub open spec fn wire_type(w: Wire) -> nat {
    match w {
        Wire::Varint(_) => 0,
        Wire::Fixed64(_) => 1,
        Wire::Len(_, _) => 2,
        Wire::Fixed32(_) => 5,
    }
}

/// The field whose key starts at `pos`, and the position after it. The key
/// must fit in 32 bits and name a field number of at least 1; wire types
/// 0 (varint), 1 (eight bytes), 2 (length-delimited) and 5 (four bytes)
/// are read, any other is refused.
pub open spec fn field_at(buf: Seq<u8>, pos: int, end: int) -> Option<(Field, int)> {
    match varint_at(buf, pos, end) {
        None => None,
        Some((key, p)) => {
            if key > u32::MAX || key / 8 == 0 {
                None
            } else {
                let num = (key / 8) as u32;
                let wt = key % 8;
                if wt == 0 {
                    match varint_at(buf, p, end) {
                        Some((v, q)) => Some((Field { num, wire: Wire::Varint(v) }, q)),
                        None => None,
                    }
                } else if wt == 1 {
                    if p + 8 <= end {
                        Some((Field { num, wire: Wire::Fixed64(p as usize) }, p + 8))
                    } else {
                        None
                    }
                } else if wt == 2 {
                    match varint_at(buf, p, end) {
                        Some((len, q)) => if q + len <= end {
                            Some((Field { num, wire: Wire::Len(q as usize, (q + len) as usize) }, q + len))
                        } else {
                            None
                        },
                        None => None,
                    }
                } else if wt == 5 {
                    if p + 4 <= end {
                        Some((Field { num, wire: Wire::Fixed32(p as usize) }, p + 4))
                    } else {
                        None
                    }
                } else {
                    None
                }
            }
        },
    }
}

/// The fields held by `buf[pos..end]`, in order, or `None` when those bytes
/// are not a sequence of well-formed fields.
pub open spec fn fields_in(buf: Seq<u8>, pos: int, end: int) -> Option<Seq<Field>>
    decreases end - pos,
{
    if pos >= end {
        Some(seq![])
    } else {
        match field_at(buf, pos, end) {
            Some((f, q)) => if pos < q <= end {
                match fields_in(buf, q, end) {
                    Some(rest) => Some(seq![f] + rest),
                    None => None,
                }
            } else {
                None
            },
            None => None,
        }
    }
}

/// A field read from the buffer lies inside the range it was read from.
pub proof fn lemma_field_at_bounds(buf: Seq<u8>, pos: int, end: int)
    requires
        0 <= pos <= end <= buf.len() <= usize::MAX,
        field_at(buf, pos, end) is Some,
    ensures
        match field_at(buf, pos, end) {
            Some((f, q)) => pos < q <= end && match f.wire {
                Wire::Len(a, b) => pos <= a <= b == q,
                _ => true,
            },
            None => false,
        },
{
    lemma_varint_at_fits(buf, pos, end);
    let (key, p) = varint_at(buf, pos, end).unwrap();
    if key % 8 == 0 || key % 8 == 2 {
        if varint_at(buf, p, end) is Some {
            lemma_varint_at_fits(buf, p, end);
        }
    }
}

/// Every length-delimited field of a parsed range lies inside the range.
pub proof fn lemma_fields_in_bounds(buf: Seq<u8>, pos: int, end: int)
    requires
        0 <= pos <= end <= buf.len() <= usize::MAX,
        fields_in(buf, pos, end) is Some,
    ensures
        forall|i: int|
            0 <= i < fields_in(buf, pos, end).unwrap().len() ==> match #[trigger] fields_in(
                buf,
                pos,
                end,
            ).unwrap()[i].wire {
                Wire::Len(a, b) => pos <= a <= b <= end,
                _ => true,
            },
    decreases end - pos,
{
    if pos < end {
        lemma_field_at_bounds(buf, pos, end);
        let (f, q) = field_at(buf, pos, end).unwrap();
        lemma_fields_in_bounds(buf, q, end);
        let rest = fields_in(buf, q, end).unwrap();
        assert forall|i: int|
            0 <= i < fields_in(buf, pos, end).unwrap().len() implies match #[trigger] fields_in(
                buf,
                pos,
                end,
            ).unwrap()[i].wire {
                Wire::Len(a, b) => pos <= a <= b <= end,
                _ => true,
            } by {
            if i > 0 {
                assert(fields_in(buf, pos, end).unwrap()[i] == rest[i - 1]);
            }
        }
    }
}

/// Read the field whose key starts at `pos`.
pub fn read_field(buf: &[u8], pos: usize, end: usize) -> (r: Option<(Field, usize)>)
    requires
        pos <= end <= buf@.len(),
    ensures
        match r {
            Some((f, q)) => field_at(buf@, pos as int, end as int) == Some((f, q as int)),
            None => field_at(buf@, pos as int, end as int) is None,
        },
{
    let (key, p) = match read_varint(buf, pos, end) {
        Some(kp) => kp,
        None => return None,
    };
    proof {
        lemma_varint_at_fits(buf@, pos as int, end as int);
    }
    if key > 0xffff_ffff || key / 8 == 0 {
        return None;
    }
    let num = (key / 8) as u32;
    let wt = key % 8;
    if wt == 0 {
        match read_varint(buf, p, end) {
            Some((v, q)) => Some((Field { num, wire: Wire::Varint(v) }, q)),
            None => None,
        }
    } else if wt == 1 {
        if end - p >= 8 {
            Some((Field { num, wire: Wire::Fixed64(p) }, p + 8))
        } else {
            None
        }
    } else if wt == 2 {
        match read_varint(buf, p, end) {
            Some((len, q)) => {
                proof {
                    lemma_varint_at_fits(buf@, p as int, end as int);
                }
                if len <= (end - q) as u64 {
                    let e = q + len as usize;
                    Some((Field { num, wire: Wire::Len(q, e) }, e))
                } else {
                    None
                }
            },
            None => None,
        }
    } else if wt == 5 {
        if end - p >= 4 {
            Some((Field { num, wire: Wire::Fixed32(p) }, p + 4))
        } else {
            None
        }
    } else {
        None
    }
}

/// Read every field of `buf[start..end]`.
pub fn read_fields(buf: &[u8], start: usize, end: usize) -> (r: Option<Vec<Field>>)
    requires
        start <= end <= buf@.len(),
    ensures
        match r {
            Some(v) => fields_in(buf@, start as int, end as int) == Some(v@),
            None => fields_in(buf@, start as int, end as int) is None,
        },
{
    let mut out: Vec<Field> = Vec::new();
    let mut pos = start;
    let total = buf.len();
    while pos < end
        invariant
            start <= pos <= end <= buf@.len(),
            total == buf@.len(),
            fields_in(buf@, start as int, end as int) == match fields_in(
                buf@,
                pos as int,
                end as int,
            ) {
                Some(rest) => Some(out@ + rest),
                None => None,
            },
        decreases end - pos,
    {
        match read_field(buf, pos, end) {
            Some((f, q)) => {
                proof {
                    lemma_field_at_bounds(buf@, pos as int, end as int);
                    match fields_in(buf@, q as int, end as int) {
                        Some(rest) => {
                            assert(out@ + (seq![f] + rest) =~= out@.push(f) + rest);
                        },
                        None => {},
                    }
                }
                out.push(f);
                pos = q;
            },
            None => {
                return None;
            },
        }
    }
    assert(out@ + seq![] =~= out@);
    Some(out)
}

// ---------------------------------------------------------------------------
// Writing fields
// ---------------------------------------------------------------------------

/// Largest field number.
pub const MAX_FIELD_NUM: u32 = 0x1fff_ffff;

/// The key of field `num` with wire type `wt`.
pub open spec fn key_bytes(num: u32, wt: nat) -> Seq<u8> {
    varint_bytes(num as nat * 8 + wt)
}

/// A varint field.
pub open spec fn varint_field_bytes(num: u32, v: u64) -> Seq<u8> {
    key_bytes(num, 0) + varint_bytes(v as nat)
}

/// A length-delimited field.
pub open spec fn len_field_bytes(num: u32, payload: Seq<u8>) -> Seq<u8> {
    key_bytes(num, 2) + varint_bytes(payload.len()) + payload
}

/// Append the bytes of `src`.
pub fn put_bytes(out: &mut Vec<u8>, src: &[u8])
    ensures
        final(out)@ == old(out)@ + src@,
{
    let mut i: usize = 0;
    while i < src.len()
        invariant
            i <= src@.len(),
            out@ == old(out)@ + src@.subrange(0, i as int),
        decreases src@.len() - i,
    {
        out.push(src[i]);
        i = i + 1;
        assert(out@ =~= old(out)@ + src@.subrange(0, i as int));
    }
    assert(src@.subrange(0, src@.len() as int) =~= src@);
}

/// Append a varint field.
pub fn put_varint_field(out: &mut Vec<u8>, num: u32, v: u64)
    requires
        1 <= num <= MAX_FIELD_NUM,
    ensures
        final(out)@ == old(out)@ + varint_field_bytes(num, v),
{
    put_varint(out, num as u64 * 8);
    put_varint(out, v);
    assert(final(out)@ =~= old(out)@ + varint_field_bytes(num, v));
}

/// Append a length-delimited field.
pub fn put_len_field(out: &mut Vec<u8>, num: u32, payload: &[u8])
    requires
        1 <= num <= MAX_FIELD_NUM,
    ensures
        final(out)@ == old(out)@ + len_field_bytes(num, payload@),
{
    put_varint(out, num as u64 * 8 + 2);
    put_varint(out, payload.len() as u64);
    put_bytes(out, payload);
    assert(final(out)@ =~= old(out)@ + len_field_bytes(num, payload@));
}

pub proof fn lemma_subrange_split(buf: Seq<u8>, pos: int, a: Seq<u8>, b: Seq<u8>)
    requires
        0 <= pos,
        pos + a.len() + b.len() <= buf.len(),
        buf.subrange(pos, pos + a.len() + b.len()) == a + b,
    ensures
        buf.subrange(pos, pos + a.len()) == a,
        buf.subrange(pos + a.len(), pos + a.len() + b.len()) == b,
{
    assert(buf.subrange(pos, pos + a.len()) =~= a) by {
        assert forall|k: int| 0 <= k < a.len() implies buf.subrange(pos, pos + a.len())[k]
            == a[k] by {
            assert(buf.subrange(pos, pos + a.len() + b.len())[k] == (a + b)[k]);
        }
    }
    assert(buf.subrange(pos + a.len(), pos + a.len() + b.len()) =~= b) by {
        assert forall|k: int| 0 <= k < b.len() implies buf.subrange(
            pos + a.len(),
            pos + a.len() + b.len(),
        )[k] == b[k] by {
            assert(buf.subrange(pos, pos + a.len() + b.len())[a.len() + k] == (a + b)[a.len()
                + k]);
            assert(buf.subrange(pos, pos + a.len() + b.len())[a.len() + k] == buf[pos + a.len()
                + k]);
            assert((a + b)[a.len() + k] == b[k]);
        }
    }
}

/// A varint field written at `pos` reads back as that field.
pub proof fn lemma_varint_field_at(num: u32, v: u64, buf: Seq<u8>, pos: int, end: int)
    requires
        1 <= num <= MAX_FIELD_NUM,
        0 <= pos,
        pos + varint_field_bytes(num, v).len() <= end <= buf.len(),
        buf.subrange(pos, pos + varint_field_bytes(num, v).len()) == varint_field_bytes(num, v),
    ensures
        field_at(buf, pos, end) == Some(
            (Field { num, wire: Wire::Varint(v) }, pos + varint_field_bytes(num, v).len()),
        ),
{
    let key = (num * 8) as u64;
    let kb = key_bytes(num, 0);
    let vb = varint_bytes(v as nat);
    lemma_subrange_split(buf, pos, kb, vb);
    lemma_varint_roundtrip(key, buf, pos, end);
    lemma_varint_roundtrip(v, buf, pos + kb.len(), end);
    assert(key / 8 == num as u64 && key % 8 == 0);
}

/// A length-delimited field written at `pos` reads back as that field, and
/// its range holds the payload.
pub proof fn lemma_len_field_at(num: u32, payload: Seq<u8>, buf: Seq<u8>, pos: int, end: int)
    requires
        1 <= num <= MAX_FIELD_NUM,
        0 <= pos,
        pos + len_field_bytes(num, payload).len() <= end <= buf.len() <= usize::MAX,
        buf.subrange(pos, pos + len_field_bytes(num, payload).len()) == len_field_bytes(
            num,
            payload,
        ),
    ensures
        ({
            let start = pos + key_bytes(num, 2).len() + varint_bytes(payload.len()).len();
            &&& field_at(buf, pos, end) == Some(
                (
                    Field { num, wire: Wire::Len(start as usize, (start + payload.len()) as usize) },
                    pos + len_field_bytes(num, payload).len(),
                ),
            )
            &&& buf.subrange(start, start + payload.len()) == payload
        }),
{
    let key = (num * 8 + 2) as u64;
    let kb = key_bytes(num, 2);
    let lb = varint_bytes(payload.len());
    assert(len_field_bytes(num, payload) == kb + lb + payload);
    lemma_subrange_split(buf, pos, kb + lb, payload);
    lemma_subrange_split(buf, pos, kb, lb);
    lemma_varint_roundtrip(key, buf, pos, end);
    assert(payload.len() <= u64::MAX);
    lemma_varint_roundtrip(payload.len() as u64, buf, pos + kb.len(), end);
    assert(key / 8 == num as u64 && key % 8 == 2);
}

// ---------------------------------------------------------------------------
// Messages as lists of items
// ---------------------------------------------------------------------------

/// A field of a message as it is written: a varint or a byte string.
pub enum Item {
    Varint(u32, u64),
    Bytes(u32, Seq<u8>),
}

/// The field number of an item.
pub open spec fn item_num(it: Item) -> u32 {
    match it {
        Item::Varint(n, _) => n,
        Item::Bytes(n, _) => n,
    }
}

/// The encoding of one item.
pub open spec fn item_bytes(it: Item) -> Seq<u8> {
    match it {
        Item::Varint(n, v) => varint_field_bytes(n, v),
        Item::Bytes(n, p) => len_field_bytes(n, p),
    }
}

/// The encoding of a list of items: their encodings one after the other.
pub open spec fn items_bytes(its: Seq<Item>) -> Seq<u8>
    decreases its.len(),
{
    if its.len() == 0 {
        seq![]
    } else {
        item_bytes(its[0]) + items_bytes(its.drop_first())
    }
}

/// The field an item reads back as when its encoding starts at `pos`.
pub open spec fn item_field(it: Item, pos: int) -> Field {
    match it {
        Item::Varint(n, v) => Field { num: n, wire: Wire::Varint(v) },
        Item::Bytes(n, p) => {
            let start = pos + key_bytes(n, 2).len() + varint_bytes(p.len()).len();
            Field { num: n, wire: Wire::Len(start as usize, (start + p.len()) as usize) }
        },
    }
}

/// The fields a list of items reads back as when its encoding starts at `pos`.
pub open spec fn items_fields(its: Seq<Item>, pos: int) -> Seq<Field>
    decreases its.len(),
{
    if its.len() == 0 {
        seq![]
    } else {
        seq![item_field(its[0], pos)] + items_fields(its.drop_first(), pos + item_bytes(its[0]).len())
    }
}

/// The field numbers of the items are valid.
pub open spec fn items_valid(its: Seq<Item>) -> bool {
    forall|i: int| 0 <= i < its.len() ==> 1 <= #[trigger] item_num(its[i]) <= MAX_FIELD_NUM
}

/// The bytes of a length-delimited field value; empty for any other.
pub open spec fn payload(buf: Seq<u8>, w: Wire) -> Seq<u8> {
    match w {
        Wire::Len(a, b) => buf.subrange(a as int, b as int),
        _ => seq![],
    }
}

/// The encoding of a list of items reads back as its fields, and each byte
/// string field's range holds the item's bytes.
pub proof fn lemma_items_fields(its: Seq<Item>, buf: Seq<u8>, pos: int, end: int)
    requires
        items_valid(its),
        0 <= pos,
        end == pos + items_bytes(its).len(),
        end <= buf.len() <= usize::MAX,
        buf.subrange(pos, end) == items_bytes(its),
    ensures
        fields_in(buf, pos, end) == Some(items_fields(its, pos)),
        items_fields(its, pos).len() == its.len(),
        forall|i: int|
            0 <= i < its.len() ==> (#[trigger] items_fields(its, pos)[i]).num == item_num(its[i]),
        forall|i: int|
            0 <= i < its.len() ==> match its[i] {
                Item::Varint(_, v) => (#[trigger] items_fields(its, pos)[i]).wire == Wire::Varint(v),
                Item::Bytes(_, p) => (#[trigger] items_fields(its, pos)[i]).wire is Len && payload(
                    buf,
                    items_fields(its, pos)[i].wire,
                ) == p,
            },
    decreases its.len(),
{
    if its.len() > 0 {
        let it = its[0];
        let rest = its.drop_first();
        let ib = item_bytes(it);
        let q = pos + ib.len();
        assert(items_valid(rest)) by {
            assert forall|i: int| 0 <= i < rest.len() implies 1 <= #[trigger] item_num(rest[i])
                <= MAX_FIELD_NUM by {
                assert(rest[i] == its[i + 1]);
            }
        }
        lemma_subrange_split(buf, pos, ib, items_bytes(rest));
        assert(1 <= item_num(its[0]) <= MAX_FIELD_NUM);
        match it {
            Item::Varint(n, v) => {
                lemma_varint_field_at(n, v, buf, pos, end);
            },
            Item::Bytes(n, p) => {
                lemma_len_field_at(n, p, buf, pos, end);
            },
        }
        lemma_items_fields(rest, buf, q, end);
        let fs = items_fields(its, pos);
        assert forall|i: int| 0 <= i < its.len() implies (#[trigger] items_fields(its, pos)[i]).num
            == item_num(its[i]) by {
            if i > 0 {
                assert(fs[i] == items_fields(rest, q)[i - 1]);
                assert(its[i] == rest[i - 1]);
            }
        }
        assert forall|i: int| 0 <= i < its.len() implies match its[i] {
            Item::Varint(_, v) => (#[trigger] items_fields(its, pos)[i]).wire == Wire::Varint(v),
            Item::Bytes(_, p) => (#[trigger] items_fields(its, pos)[i]).wire is Len && payload(
                buf,
                items_fields(its, pos)[i].wire,
            ) == p,
        } by {
            if i > 0 {
                assert(fs[i] == items_fields(rest, q)[i - 1]);
                assert(its[i] == rest[i - 1]);
            }
        }
    } else {
        assert(items_fields(its, pos) =~= seq![]);
    }
}

// ---------------------------------------------------------------------------
// Reading values of fields
// ---------------------------------------------------------------------------

/// The value of the last field numbered `n`, if any.
pub open spec fn last_of(fs: Seq<Field>, n: u32) -> Option<Wire>
    decreases fs.len(),
{
    if fs.len() == 0 {
        None
    } else {
        match last_of(fs.drop_first(), n) {
            Some(w) => Some(w),
            None => if fs[0].num == n {
                Some(fs[0].wire)
            } else {
                None
            },
        }
    }
}

/// Every field numbered `n` has wire type `wt`.
pub open spec fn typed(fs: Seq<Field>, n: u32, wt: nat) -> bool {
    forall|i: int| 0 <= i < fs.len() && fs[i].num == n ==> wire_type(#[trigger] fs[i].wire) == wt
}

/// Every field numbered `n` holds valid UTF-8.
pub open spec fn utf8_all(buf: Seq<u8>, fs: Seq<Field>, n: u32) -> bool {
    forall|i: int|
        0 <= i < fs.len() && fs[i].num == n ==> valid_utf8(payload(buf, #[trigger] fs[i].wire))
}

/// Every length-delimited field lies inside the buffer.
pub open spec fn fields_fit(buf: Seq<u8>, fs: Seq<Field>) -> bool {
    forall|i: int|
        0 <= i < fs.len() ==> match #[trigger] fs[i].wire {
            Wire::Len(a, b) => a <= b <= buf.len(),
            _ => true,
        }
}

/// An unsigned field: the last value, 0 when absent, `None` when a field
/// of that number is not a varint.
pub open spec fn varint_get(fs: Seq<Field>, n: u32) -> Option<u64> {
    if typed(fs, n, 0) {
        Some(
            match last_of(fs, n) {
                Some(Wire::Varint(v)) => v,
                _ => 0,
            },
        )
    } else {
        None
    }
}

/// A bytes field: the last value, empty when absent, `None` when a field
/// of that number is not length-delimited.
pub open spec fn bytes_get(buf: Seq<u8>, fs: Seq<Field>, n: u32) -> Option<Seq<u8>> {
    if typed(fs, n, 2) {
        Some(
            match last_of(fs, n) {
                Some(w) => payload(buf, w),
                None => seq![],
            },
        )
    } else {
        None
    }
}

/// A string field: the last value, empty when absent, `None` when a field
/// of that number is not length-delimited or not UTF-8.
pub open spec fn string_get(buf: Seq<u8>, fs: Seq<Field>, n: u32) -> Option<Seq<char>> {
    if typed(fs, n, 2) && utf8_all(buf, fs, n) {
        Some(
            match last_of(fs, n) {
                Some(w) => decode_utf8(payload(buf, w)),
                None => seq![],
            },
        )
    } else {
        None
    }
}

/// An optional string field: `Some(None)` when absent.
pub open spec fn opt_string_get(buf: Seq<u8>, fs: Seq<Field>, n: u32) -> Option<Option<Seq<char>>> {
    if typed(fs, n, 2) && utf8_all(buf, fs, n) {
        Some(
            match last_of(fs, n) {
                Some(w) => Some(decode_utf8(payload(buf, w))),
                None => None,
            },
        )
    } else {
        None
    }
}

/// A string decoded from UTF-8 bytes, or `None` when they are not UTF-8, by
/// `String::from_utf8`; trusted to succeed exactly on valid UTF-8 and then
/// to hold the characters the bytes encode.
#[verifier::external_body]
pub(crate) fn string_from_utf8(bytes: Vec<u8>) -> (r: Option<String>)
    ensures
        r is Some <==> valid_utf8(bytes@),
        r matches Some(s) ==> s@ == decode_utf8(bytes@),
{
    String::from_utf8(bytes).ok()
}

/// The bytes `buf[a..b]`.
pub fn copy_range(buf: &[u8], a: usize, b: usize) -> (v: Vec<u8>)
    requires
        a <= b <= buf@.len(),
    ensures
        v@ == buf@.subrange(a as int, b as int),
{
    let mut v: Vec<u8> = Vec::new();
    let mut i = a;
    while i < b
        invariant
            a <= i <= b <= buf@.len(),
            v@ == buf@.subrange(a as int, i as int),
        decreases b - i,
    {
        v.push(buf[i]);
        i = i + 1;
        assert(v@ =~= buf@.subrange(a as int, i as int));
    }
    v
}

/// The wire type number of a field value.
pub fn wire_type_of(w: &Wire) -> (t: u64)
    ensures
        t == wire_type(*w),
{
    match w {
        Wire::Varint(_) => 0,
        Wire::Fixed64(_) => 1,
        Wire::Len(_, _) => 2,
        Wire::Fixed32(_) => 5,
    }
}

proof fn lemma_last_of_suffix(fs: Seq<Field>, n: u32, i: int)
    requires
        0 < i <= fs.len(),
    ensures
        last_of(fs.subrange(i - 1, fs.len() as int), n) == match last_of(
            fs.subrange(i, fs.len() as int),
            n,
        ) {
            Some(w) => Some(w),
            None => if fs[i - 1].num == n {
                Some(fs[i - 1].wire)
            } else {
                None
            },
        },
{
    assert(fs.subrange(i - 1, fs.len() as int).drop_first() =~= fs.subrange(i, fs.len() as int));
}

/// Whether every field numbered `n` has wire type `wt`, and the index of
/// the last such field.
pub fn scan_last(fs: &Vec<Field>, n: u32, wt: u64) -> (r: (bool, Option<usize>))
    ensures
        r.0 == typed(fs@, n, wt as nat),
        match r.1 {
            Some(k) => k < fs@.len() && fs@[k as int].num == n && last_of(fs@, n) == Some(
                fs@[k as int].wire,
            ),
            None => last_of(fs@, n) is None,
        },
{
    let mut i = fs.len();
    let mut ok = true;
    let mut found: Option<usize> = None;
    while i > 0
        invariant
            i <= fs@.len(),
            ok == typed(fs@.subrange(i as int, fs@.len() as int), n, wt as nat),
            match found {
                Some(k) => i <= k < fs@.len() && fs@[k as int].num == n && last_of(
                    fs@.subrange(i as int, fs@.len() as int),
                    n,
                ) == Some(fs@[k as int].wire),
                None => last_of(fs@.subrange(i as int, fs@.len() as int), n) is None,
            },
        decreases i,
    {
        proof {
            lemma_last_of_suffix(fs@, n, i as int);
        }
        let f = fs[i - 1];
        let ghost suf = fs@.subrange(i as int, fs@.len() as int);
        let ghost suf2 = fs@.subrange(i - 1, fs@.len() as int);
        if f.num == n {
            if wire_type_of(&f.wire) != wt {
                ok = false;
            }
            if found.is_none() {
                found = Some(i - 1);
            }
        }
        proof {
            assert(suf2[0] == f);
            assert forall|j: int| 0 <= j < suf.len() implies suf2[j + 1] == suf[j] by {}
            if typed(suf2, n, wt as nat) {
                assert forall|j: int| 0 <= j < suf.len() && suf[j].num == n implies wire_type(
                    #[trigger] suf[j].wire,
                ) == wt by {
                    assert(suf2[j + 1] == suf[j]);
                }
            }
            if ok {
                assert forall|j: int| 0 <= j < suf2.len() && suf2[j].num == n implies wire_type(
                    #[trigger] suf2[j].wire,
                ) == wt by {
                    if j > 0 {
                        assert(suf2[j] == suf[j - 1]);
                    }
                }
            }
        }
        i = i - 1;
    }
    assert(fs@.subrange(0, fs@.len() as int) =~= fs@);
    (ok, found)
}

/// The last value of unsigned field `n`, 0 when absent.
pub fn get_varint(fs: &Vec<Field>, n: u32) -> (r: Option<u64>)
    ensures
        r == varint_get(fs@, n),
{
    let (ok, found) = scan_last(fs, n, WT_VARINT);
    if !ok {
        return None;
    }
    match found {
        Some(k) => match fs[k].wire {
            Wire::Varint(v) => Some(v),
            _ => Some(0),
        },
        None => Some(0),
    }
}

/// The last value of bytes field `n`, empty when absent.
pub fn get_bytes(buf: &[u8], fs: &Vec<Field>, n: u32) -> (r: Option<Vec<u8>>)
    requires
        fields_fit(buf@, fs@),
    ensures
        match r {
            Some(v) => bytes_get(buf@, fs@, n) == Some(v@),
            None => bytes_get(buf@, fs@, n) is None,
        },
{
    let (ok, found) = scan_last(fs, n, WT_LEN);
    if !ok {
        return None;
    }
    match found {
        Some(k) => match fs[k].wire {
            Wire::Len(a, b) => {
                proof {
                    assert(fields_fit(buf@, fs@) ==> match fs@[k as int].wire {
                        Wire::Len(a, b) => a <= b <= buf@.len(),
                        _ => true,
                    });
                }
                Some(copy_range(buf, a, b))
            },
            _ => Some(Vec::new()),
        },
        None => Some(Vec::new()),
    }
}

/// Whether every field numbered `n` holds valid UTF-8.
fn check_utf8_all(buf: &[u8], fs: &Vec<Field>, n: u32) -> (ok: bool)
    requires
        fields_fit(buf@, fs@),
    ensures
        ok == utf8_all(buf@, fs@, n),
{
    let mut i: usize = 0;
    while i < fs.len()
        invariant
            i <= fs@.len(),
            fields_fit(buf@, fs@),
            forall|j: int|
                0 <= j < i && fs@[j].num == n ==> valid_utf8(payload(buf@, #[trigger] fs@[j].wire)),
        decreases fs@.len() - i,
    {
        let f = fs[i];
        if f.num == n {
            let bytes = match f.wire {
                Wire::Len(a, b) => {
                    proof {
                        assert(match fs@[i as int].wire {
                            Wire::Len(a, b) => a <= b <= buf@.len(),
                            _ => true,
                        });
                    }
                    copy_range(buf, a, b)
                },
                _ => Vec::new(),
            };
            proof {
                assert(bytes@ == payload(buf@, fs@[i as int].wire));
            }
            if string_from_utf8(bytes).is_none() {
                return false;
            }
        }
        i = i + 1;
    }
    true
}

/// The last value of string field `n`, empty when absent.
pub fn get_string(buf: &[u8], fs: &Vec<Field>, n: u32) -> (r: Option<String>)
    requires
        fields_fit(buf@, fs@),
    ensures
        match r {
            Some(s) => string_get(buf@, fs@, n) == Some(s@),
            None => string_get(buf@, fs@, n) is None,
        },
{
    match get_opt_string(buf, fs, n) {
        Some(Some(s)) => Some(s),
        Some(None) => Some(String::new()),
        None => None,
    }
}

/// The last value of optional string field `n`, `None` inside when absent.
pub fn get_opt_string(buf: &[u8], fs: &Vec<Field>, n: u32) -> (r: Option<Option<String>>)
    requires
        fields_fit(buf@, fs@),
    ensures
        match r {
            Some(Some(s)) => opt_string_get(buf@, fs@, n) == Some(Some(s@)),
            Some(None) => opt_string_get(buf@, fs@, n) == Some(None::<Seq<char>>),
            None => opt_string_get(buf@, fs@, n) is None,
        },
{
    let (ok, found) = scan_last(fs, n, WT_LEN);
    if !ok {
        return None;
    }
    if !check_utf8_all(buf, fs, n) {
        return None;
    }
    match found {
        Some(k) => {
            let bytes = match fs[k].wire {
                Wire::Len(a, b) => {
                    proof {
                        assert(match fs@[k as int].wire {
                            Wire::Len(a, b) => a <= b <= buf@.len(),
                            _ => true,
                        });
                    }
                    copy_range(buf, a, b)
                },
                _ => Vec::new(),
            };
            proof {
                assert(bytes@ == payload(buf@, fs@[k as int].wire));
                assert(valid_utf8(payload(buf@, fs@[k as int].wire)));
            }
            match string_from_utf8(bytes) {
                Some(s) => Some(Some(s)),
                None => None,
            }
        },
        None => Some(None),
    }
}

/// When exactly one field is numbered `n`, it is the last one, and the
/// checks on fields numbered `n` are checks on it alone.
pub proof fn lemma_fields_unique(buf: Seq<u8>, fs: Seq<Field>, n: u32, k: int)
    requires
        0 <= k < fs.len(),
        fs[k].num == n,
        forall|j: int| 0 <= j < fs.len() && j != k ==> fs[j].num != n,
    ensures
        last_of(fs, n) == Some(fs[k].wire),
        typed(fs, n, wire_type(fs[k].wire)),
        forall|wt: nat| wt != wire_type(fs[k].wire) ==> !typed(fs, n, wt),
        utf8_all(buf, fs, n) == valid_utf8(payload(buf, fs[k].wire)),
    decreases fs.len(),
{
    let rest = fs.drop_first();
    if k == 0 {
        lemma_fields_absent(buf, rest, n);
    } else {
        assert forall|j: int| 0 <= j < rest.len() && j != k - 1 implies rest[j].num != n by {
            assert(rest[j] == fs[j + 1]);
        }
        lemma_fields_unique(buf, rest, n, k - 1);
        assert(fs[0].num != n);
    }
    assert(typed(fs, n, wire_type(fs[k].wire)));
    assert forall|wt: nat| wt != wire_type(fs[k].wire) implies !typed(fs, n, wt) by {
        assert(fs[k].num == n);
    }
    if valid_utf8(payload(buf, fs[k].wire)) {
        assert(utf8_all(buf, fs, n));
    }
}

/// When no field is numbered `n`, it has no last value and every check on
/// fields numbered `n` holds.
pub proof fn lemma_fields_absent(buf: Seq<u8>, fs: Seq<Field>, n: u32)
    requires
        forall|j: int| 0 <= j < fs.len() ==> fs[j].num != n,
    ensures
        last_of(fs, n) is None,
        forall|wt: nat| typed(fs, n, wt),
        utf8_all(buf, fs, n),
    decreases fs.len(),
{
    if fs.len() > 0 {
        let rest = fs.drop_first();
        assert forall|j: int| 0 <= j < rest.len() implies rest[j].num != n by {
            assert(rest[j] == fs[j + 1]);
        }
        lemma_fields_absent(buf, rest, n);
    }
}

/// No two items share a field number.
pub open spec fn items_distinct(its: Seq<Item>) -> bool {
    forall|i: int, j: int|
        0 <= i < its.len() && 0 <= j < its.len() && i != j ==> item_num(its[i]) != item_num(
            its[j],
        )
}

/// Reading back the encoding of distinct items gives each item's value.
pub proof fn lemma_items_get(its: Seq<Item>, buf: Seq<u8>, pos: int, end: int, k: int)
    requires
        items_valid(its),
        items_distinct(its),
        0 <= k < its.len(),
        0 <= pos,
        end == pos + items_bytes(its).len(),
        end <= buf.len() <= usize::MAX,
        buf.subrange(pos, end) == items_bytes(its),
    ensures
        fields_in(buf, pos, end) == Some(items_fields(its, pos)),
        match its[k] {
            Item::Varint(n, v) => varint_get(items_fields(its, pos), n) == Some(v),
            Item::Bytes(n, p) => {
                &&& bytes_get(buf, items_fields(its, pos), n) == Some(p)
                &&& valid_utf8(p) ==> string_get(buf, items_fields(its, pos), n) == Some(
                    decode_utf8(p),
                )
                &&& valid_utf8(p) ==> opt_string_get(buf, items_fields(its, pos), n) == Some(
                    Some(decode_utf8(p)),
                )
            },
        },
{
    lemma_items_fields(its, buf, pos, end);
    let fs = items_fields(its, pos);
    let n = item_num(its[k]);
    assert forall|j: int| 0 <= j < fs.len() && j != k implies fs[j].num != n by {
        assert(fs[j].num == item_num(its[j]));
    }
    lemma_fields_unique(buf, fs, n, k);
    assert(fs[k].num == n);
}

/// Reading back the encoding of items none of which is numbered `n`
/// gives the empty value for `n`.
pub proof fn lemma_items_absent(its: Seq<Item>, buf: Seq<u8>, pos: int, end: int, n: u32)
    requires
        items_valid(its),
        forall|i: int| 0 <= i < its.len() ==> item_num(its[i]) != n,
        0 <= pos,
        end == pos + items_bytes(its).len(),
        end <= buf.len() <= usize::MAX,
        buf.subrange(pos, end) == items_bytes(its),
    ensures
        fields_in(buf, pos, end) == Some(items_fields(its, pos)),
        varint_get(items_fields(its, pos), n) == Some(0u64),
        bytes_get(buf, items_fields(its, pos), n) == Some(Seq::<u8>::empty()),
        string_get(buf, items_fields(its, pos), n) == Some(Seq::<char>::empty()),
        opt_string_get(buf, items_fields(its, pos), n) == Some(None::<Seq<char>>),
{
    lemma_items_fields(its, buf, pos, end);
    let fs = items_fields(its, pos);
    assert forall|j: int| 0 <= j < fs.len() implies fs[j].num != n by {
        assert(fs[j].num == item_num(its[j]));
    }
    lemma_fields_absent(buf, fs, n);
    assert(typed(fs, n, 0));
    assert(typed(fs, n, 2));
}

/// The encoding of one, two, three or four items, spelled out.
pub proof fn lemma_items_bytes_small(a: Item, b: Item, c: Item, d: Item)
    ensures
        items_bytes(seq![a]) == item_bytes(a),
        items_bytes(seq![a, b]) == item_bytes(a) + item_bytes(b),
        items_bytes(seq![a, b, c]) == item_bytes(a) + item_bytes(b) + item_bytes(c),
        items_bytes(seq![a, b, c, d]) == item_bytes(a) + item_bytes(b) + item_bytes(c)
            + item_bytes(d),
{
    assert(seq![a].drop_first() =~= Seq::<Item>::empty());
    assert(seq![a, b].drop_first() =~= seq![b]);
    assert(seq![a, b, c].drop_first() =~= seq![b, c]);
    assert(seq![a, b, c, d].drop_first() =~= seq![b, c, d]);
    assert(seq![b, c].drop_first() =~= seq![c]);
    assert(seq![b, c, d].drop_first() =~= seq![c, d]);
    assert(seq![c, d].drop_first() =~= seq![d]);
    assert(seq![d].drop_first() =~= Seq::<Item>::empty());
    assert(seq![c].drop_first() =~= Seq::<Item>::empty());
    assert(seq![b].drop_first() =~= Seq::<Item>::empty());
    assert(items_bytes(Seq::<Item>::empty()) =~= Seq::<u8>::empty());
    assert(items_bytes(seq![d]) =~= item_bytes(d));
    assert(items_bytes(seq![c]) =~= item_bytes(c));
    assert(items_bytes(seq![b]) =~= item_bytes(b));
    assert(items_bytes(seq![a]) =~= item_bytes(a));
    assert(items_bytes(seq![c, d]) =~= item_bytes(c) + item_bytes(d));
    assert(items_bytes(seq![b, c]) =~= item_bytes(b) + item_bytes(c));
    assert(items_bytes(seq![b, c, d]) =~= item_bytes(b) + item_bytes(c) + item_bytes(d));
    assert(items_bytes(seq![a, b]) =~= item_bytes(a) + item_bytes(b));
    assert(items_bytes(seq![a, b, c]) =~= item_bytes(a) + item_bytes(b) + item_bytes(c));
    assert(items_bytes(seq![a, b, c, d]) =~= item_bytes(a) + item_bytes(b) + item_bytes(c)
        + item_bytes(d));
}

} // verus!
