//! Session ids: random version 4 UUIDs written as 32 lowercase hex digits.

use vstd::prelude::*;

verus! {

/// The lowercase hex digit of a value below 16.
pub open spec fn hex_digit(n: u8) -> char {
    if n < 10 {
        (('0' as u8) + n) as char
    } else {
        (('a' as u8) + (n - 10)) as char
    }
}

/// Random bytes with the version (4) and variant (RFC 4122) bits of a
/// random UUID set.
pub open spec fn v4_bytes(b: Seq<u8>) -> Seq<u8> {
    b.update(6, (b[6] & 0x0f) | 0x40).update(8, (b[8] & 0x3f) | 0x80)
}

/// The simple text form of a UUID: each byte as two lowercase hex digits,
/// high half first.
pub open spec fn simple_hex(b: Seq<u8>) -> Seq<char> {
    Seq::new(
        32,
        |i: int|
            if i % 2 == 0 {
                hex_digit(b[i / 2] >> 4)
            } else {
                hex_digit(b[i / 2] & 0x0f)
            },
    )
}

/// Whether a character is a lowercase hex digit.
pub open spec fn is_lower_hex(c: char) -> bool {
    ('0' <= c && c <= '9') || ('a' <= c && c <= 'f')
}

/// The simple form of the random UUID built from `bytes`
/// (`uuid::Builder::from_random_bytes`, then `Uuid::simple` and its
/// `Display`): the bytes with the version and variant bits set, as 32
/// lowercase hex digits.
#[verifier::external_body]
fn uuid_v4_simple(bytes: [u8; 16]) -> (s: String)
    ensures
        s@ == simple_hex(v4_bytes(bytes@)),
{
    uuid::Builder::from_random_bytes(bytes).into_uuid().simple().to_string()
}

/// The session id made from 16 random bytes: the random UUID they give,
/// in simple form.
pub fn session_id_from_random_bytes(bytes: [u8; 16]) -> (s: String)
    ensures
        s@ == simple_hex(v4_bytes(bytes@)),
{
    uuid_v4_simple(bytes)
}

/// A session id is 32 lowercase hex digits.
pub proof fn lemma_session_id_form(b: Seq<u8>)
    ensures
        simple_hex(b).len() == 32,
        forall|i: int| 0 <= i < 32 ==> is_lower_hex(#[trigger] simple_hex(b)[i]),
{
    assert forall|i: int| 0 <= i < 32 implies is_lower_hex(#[trigger] simple_hex(b)[i]) by {
        let x = b[i / 2];
        let n: u8 = if i % 2 == 0 {
            x >> 4
        } else {
            x & 0x0f
        };
        assert(x >> 4 < 16) by (bit_vector);
        assert(x & 0x0f < 16) by (bit_vector);
        assert(n < 16);
    }
}

} // verus!
