//! Deterministic data for measuring the filesystem: a byte pattern and a
//! xorshift generator of offsets and names.

use vstd::prelude::*;
use crate::session::hex_digit;

verus! {

/// `size` bytes counting 0, 1, ..., 255 and starting over.
pub fn generate_test_data(size: usize) -> (data: Vec<u8>)
    ensures
        data@.len() == size,
        forall|i: int| 0 <= i < size ==> data@[i] == (i % 256) as u8,
{
    let mut data: Vec<u8> = Vec::new();
    let mut next: u8 = 0;
    while data.len() < size
        invariant
            data@.len() <= size,
            next == (data@.len() % 256) as u8,
            forall|i: int| 0 <= i < data@.len() ==> data@[i] == (i % 256) as u8,
        decreases size - data@.len(),
    {
        data.push(next);
        next = if next == 255 {
            0
        } else {
            next + 1
        };
    }
    data
}

/// One step of the xorshift generator: shifts by 13 left, 7 right and 17
/// left, each xored in.
pub open spec fn xorshift(x: u64) -> u64 {
    let a = x ^ (x << 13u64);
    let b = a ^ (a >> 7u64);
    b ^ (b << 17u64)
}

/// A xorshift generator.
pub struct SimpleRng {
    pub state: u64,
}

impl SimpleRng {
    /// A generator that starts from `seed`.
    pub fn new(seed: u64) -> (r: Self)
        ensures
            r.state == seed,
    {
        SimpleRng { state: seed }
    }

    /// The next value, which is also the new state.
    pub fn next_u64(&mut self) -> (r: u64)
        ensures
            r == xorshift(old(self).state),
            final(self).state == r,
    {
        let a = self.state ^ (self.state << 13u64);
        let b = a ^ (a >> 7u64);
        self.state = b ^ (b << 17u64);
        self.state
    }

    /// A value below `max` (0 when `max` is 0, without a step).
    pub fn next_range(&mut self, max: u64) -> (r: u64)
        ensures
            max == 0 ==> r == 0 && final(self).state == old(self).state,
            max > 0 ==> final(self).state == xorshift(old(self).state) && r == final(self).state
                % max,
    {
        if max == 0 {
            return 0;
        }
        self.next_u64() % max
    }
}

/// The lowercase hexadecimal form of `x` in 16 digits, most significant
/// first.
pub open spec fn hex16(x: u64) -> Seq<char> {
    Seq::new(16, |i: int| hex_digit(((x >> ((60 - 4 * i) as u64)) & 0xf) as u8))
}

/// A xorshift generator seeded by its user, handing out ids.
pub struct Rng {
    pub state: u64,
}

impl Rng {
    /// A generator seeded by `seed` mixed with a constant.
    pub fn from_seed(seed: u64) -> (r: Self)
        ensures
            r.state == seed ^ 0xdeadbeefu64,
    {
        Rng { state: seed ^ 0xdeadbeefu64 }
    }

    /// The next value, which is also the new state.
    pub fn next(&mut self) -> (r: u64)
        ensures
            r == xorshift(old(self).state),
            final(self).state == r,
    {
        let mut x = self.state;
        x = x ^ (x << 13u64);
        x = x ^ (x >> 7u64);
        x = x ^ (x << 17u64);
        self.state = x;
        x
    }

    /// The next value as 16 lowercase hex digits.
    pub fn random_id(&mut self) -> (s: String)
        ensures
            final(self).state == xorshift(old(self).state),
            s@ == hex16(final(self).state),
    {
        let x = self.next();
        let mut s = String::new();
        let mut i: u64 = 0;
        while i < 16
            invariant
                i <= 16,
                s@.len() == i,
                forall|j: int| 0 <= j < i ==> s@[j] == hex16(x)[j],
            decreases 16 - i,
        {
            let shift: u64 = 60 - 4 * i;
            let d: u8 = ((x >> shift) & 0xf) as u8;
            assert(((x >> shift) & 0xf) < 16) by (bit_vector);
            let c: char = if d < 10 {
                (('0' as u8) + d) as char
            } else {
                (('a' as u8) + (d - 10)) as char
            };
            let ghost before = s@;
            crate::path::push_char(&mut s, c);
            assert(s@ =~= before.push(c));
            i = i + 1;
        }
        s
    }
}

} // verus!
