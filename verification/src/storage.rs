//! Sparse block storage holding the bytes of one regular file.
//!
//! The file is cut into blocks of `BLOCK_SIZE` bytes. A block that was never
//! written is kept empty and reads as zeros, so writing far past the end of a
//! file does not allocate the gap.

use crate::types::BLOCK_SIZE;
use vstd::prelude::*;

verus! {

/// The contents of `s` after writing `data` at offset `pos`: the file grows to
/// cover the write, and a gap between the old end and `pos` reads as zeros.
pub open spec fn write_spec(s: Seq<u8>, pos: int, data: Seq<u8>) -> Seq<u8> {
    let new_len = if pos + data.len() > s.len() { pos + data.len() } else { s.len() as int };
    Seq::new(
        new_len as nat,
        |i: int|
            if pos <= i < pos + data.len() {
                data[i - pos]
            } else if i < s.len() {
                s[i]
            } else {
                0u8
            },
    )
}

/// The contents of `s` after truncating (or extending with zeros) to `len` bytes.
pub open spec fn resize_spec(s: Seq<u8>, len: int) -> Seq<u8> {
    Seq::new(len as nat, |i: int| if i < s.len() { s[i] } else { 0u8 })
}

/// How many bytes a read of `want` bytes at `pos` returns from a file of `len` bytes.
pub open spec fn read_count(len: int, pos: int, want: int) -> int {
    if pos >= len {
        0
    } else if want < len - pos {
        want
    } else {
        len - pos
    }
}

/// The buffer `out` after a read at `pos` from `s`: its first
/// `read_count(..)` bytes are replaced by file bytes, the rest is untouched.
pub open spec fn read_into_spec(s: Seq<u8>, pos: int, out: Seq<u8>) -> Seq<u8> {
    let n = read_count(s.len() as int, pos, out.len() as int);
    Seq::new(out.len(), |i: int| if i < n { s[pos + i] } else { out[i] })
}

/// Number of blocks needed to hold `size` bytes.
pub open spec fn blocks_for(size: int) -> int {
    (size + BLOCK_SIZE - 1) / (BLOCK_SIZE as int)
}

/// Sparse storage of a file's bytes in fixed-size blocks.
pub struct BlockStorage {
    blocks: Vec<Vec<u8>>,
    size: usize,
}

impl BlockStorage {
    /// The byte at position `i` as the blocks hold it (zero in a sparse block).
    pub closed spec fn byte_at(self, i: int) -> u8 {
        let blk = self.blocks@[i / (BLOCK_SIZE as int)];
        if blk@.len() == 0 {
            0u8
        } else {
            blk@[i % (BLOCK_SIZE as int)]
        }
    }

    #[verifier::type_invariant]
    closed spec fn inv(self) -> bool {
        &&& self.blocks@.len() == blocks_for(self.size as int)
        &&& forall|b: int|
            0 <= b < self.blocks@.len() ==> {
                let n = #[trigger] self.blocks@[b]@.len();
                n == 0 || n == BLOCK_SIZE
            }
        &&& forall|i: int|
            self.size <= i < self.blocks@.len() * BLOCK_SIZE ==> #[trigger] self.byte_at(i) == 0
    }

    /// The file contents as a sequence of bytes.
    pub closed spec fn view(self) -> Seq<u8> {
        Seq::new(self.size as nat, |i: int| self.byte_at(i))
    }
}

impl View for BlockStorage {
    type V = Seq<u8>;

    open spec fn view(&self) -> Seq<u8> {
        BlockStorage::view(*self)
    }
}

proof fn lemma_block_index(i: int, b: int)
    requires
        b * (BLOCK_SIZE as int) <= i < (b + 1) * (BLOCK_SIZE as int),
    ensures
        i / (BLOCK_SIZE as int) == b,
        i % (BLOCK_SIZE as int) == i - b * (BLOCK_SIZE as int),
{
    vstd::arithmetic::div_mod::lemma_fundamental_div_mod_converse(
        i,
        BLOCK_SIZE as int,
        b,
        i - b * (BLOCK_SIZE as int),
    );
}

proof fn lemma_blocks_for(size: int)
    requires
        size >= 0,
    ensures
        blocks_for(size) * (BLOCK_SIZE as int) >= size,
        size > 0 ==> (blocks_for(size) - 1) * (BLOCK_SIZE as int) < size,
        blocks_for(size) >= 0,
        size == 0 ==> blocks_for(size) == 0,
{
    let q = blocks_for(size);
    let s = size + BLOCK_SIZE - 1;
    vstd::arithmetic::div_mod::lemma_fundamental_div_mod(s, BLOCK_SIZE as int);
    vstd::arithmetic::div_mod::lemma_mod_bound(s, BLOCK_SIZE as int);
    assert(s == (BLOCK_SIZE as int) * q + s % (BLOCK_SIZE as int));
}

proof fn lemma_blocks_for_monotone(a: int, b: int)
    requires
        0 <= a <= b,
    ensures
        blocks_for(a) <= blocks_for(b),
{
    vstd::arithmetic::div_mod::lemma_div_is_ordered(
        a + BLOCK_SIZE - 1,
        b + BLOCK_SIZE - 1,
        BLOCK_SIZE as int,
    );
}

impl BlockStorage {
    /// An empty file.
    pub fn new() -> (s: Self)
        ensures
            s@ == Seq::<u8>::empty(),
    {
        let s = BlockStorage { blocks: Vec::new(), size: 0 };
        assert(s@ =~= Seq::<u8>::empty());
        s
    }

    /// Current length of the file in bytes.
    pub fn size(&self) -> (n: usize)
        ensures
            n == self@.len(),
    {
        self.size
    }

    /// Read the byte at position `i`.
    fn get_byte(&self, i: usize) -> (x: u8)
        requires
            i < self@.len(),
        ensures
            x == self@[i as int],
    {
        proof {
            use_type_invariant(self);
        }
        let b = i / BLOCK_SIZE;
        let o = i % BLOCK_SIZE;
        proof {
            lemma_blocks_for(self.size as int);
            vstd::arithmetic::div_mod::lemma_fundamental_div_mod(i as int, BLOCK_SIZE as int);
            vstd::arithmetic::div_mod::lemma_mod_bound(i as int, BLOCK_SIZE as int);
            assert(b * BLOCK_SIZE <= i);
            if b >= self.blocks@.len() {
                assert(b * BLOCK_SIZE >= self.blocks@.len() * BLOCK_SIZE) by (nonlinear_arith)
                    requires
                        b >= self.blocks@.len(),
                ;
            }
        }
        let blk = &self.blocks[b];
        if blk.len() == 0 {
            0
        } else {
            blk[o]
        }
    }

    /// Replace the byte at position `i`, materialising its block if it was sparse.
    fn set_byte(&mut self, i: usize, x: u8)
        requires
            i < old(self)@.len(),
        ensures
            final(self)@ == old(self)@.update(i as int, x),
    {
        proof {
            use_type_invariant(&*self);
            lemma_blocks_for(self.size as int);
        }
        let ghost old_self = *self;
        let mut this = BlockStorage::new();
        std::mem::swap(self, &mut this);
        let BlockStorage { mut blocks, size } = this;
        let b = i / BLOCK_SIZE;
        let o = i % BLOCK_SIZE;
        proof {
            vstd::arithmetic::div_mod::lemma_fundamental_div_mod(i as int, BLOCK_SIZE as int);
            vstd::arithmetic::div_mod::lemma_mod_bound(i as int, BLOCK_SIZE as int);
            if b >= blocks@.len() {
                assert(b * BLOCK_SIZE >= blocks@.len() * BLOCK_SIZE) by (nonlinear_arith)
                    requires
                        b >= blocks@.len(),
                ;
            }
        }
        if blocks[b].len() == 0 {
            blocks[b] = vec![0u8; BLOCK_SIZE];
        }
        let ghost mid = blocks@;
        blocks[b][o] = x;
        let ghost ns = BlockStorage { blocks, size };
        proof {
            assert forall|j: int| 0 <= j < blocks@.len() * BLOCK_SIZE implies #[trigger] ns.byte_at(
                j,
            ) == (if j == i { x } else { old_self.byte_at(j) }) by {
                let bj = j / (BLOCK_SIZE as int);
                vstd::arithmetic::div_mod::lemma_fundamental_div_mod(j, BLOCK_SIZE as int);
                vstd::arithmetic::div_mod::lemma_mod_bound(j, BLOCK_SIZE as int);
                if bj == b && j != i {
                    assert(j % (BLOCK_SIZE as int) != (i as int) % (BLOCK_SIZE as int));
                }
            }
            assert forall|bb: int| 0 <= bb < blocks@.len() implies {
                let n = #[trigger] blocks@[bb]@.len();
                n == 0 || n == BLOCK_SIZE
            } by {
                if bb != b {
                    assert(blocks@[bb] == old_self.blocks@[bb]);
                }
            }
        }
        *self = BlockStorage { blocks, size };
        assert(self@ =~= old(self)@.update(i as int, x));
    }

    /// Write `buf` at offset `pos`, growing the file as needed. Returns the
    /// number of bytes written, which is always `buf.len()`.
    pub fn write(&mut self, pos: usize, buf: &[u8]) -> (n: usize)
        requires
            pos + buf@.len() <= usize::MAX,
        ensures
            n == buf@.len(),
            final(self)@ == write_spec(old(self)@, pos as int, buf@),
    {
        let end = pos + buf.len();
        if end > self.size() {
            self.grow(end);
        }
        let ghost grown = self@;
        let mut k: usize = 0;
        while k < buf.len()
            invariant
                k <= buf@.len(),
                end == pos + buf@.len(),
                self@.len() == grown.len(),
                grown.len() >= end,
                grown == resize_spec(old(self)@, grown.len() as int),
                forall|j: int|
                    0 <= j < self@.len() ==> #[trigger] self@[j] == (if pos <= j < pos + k {
                        buf@[j - pos]
                    } else {
                        grown[j]
                    }),
            decreases buf@.len() - k,
        {
            self.set_byte(pos + k, buf[k]);
            k = k + 1;
        }
        assert(self@ =~= write_spec(old(self)@, pos as int, buf@));
        buf.len()
    }

    /// Read up to `out.len()` bytes starting at `pos` into `out`. Returns the
    /// number of bytes copied; a read at or past the end copies nothing.
    pub fn read(&self, pos: usize, out: &mut [u8]) -> (n: usize)
        ensures
            n == read_count(self@.len() as int, pos as int, old(out)@.len() as int),
            final(out)@ == read_into_spec(self@, pos as int, old(out)@),
    {
        let size = self.size();
        if pos >= size {
            assert(out@ =~= read_into_spec(self@, pos as int, old(out)@));
            return 0;
        }
        let avail = size - pos;
        let n = if out.len() < avail { out.len() } else { avail };
        let mut k: usize = 0;
        while k < n
            invariant
                k <= n,
                n == read_count(self@.len() as int, pos as int, old(out)@.len() as int),
                pos + n <= self@.len(),
                out@.len() == old(out)@.len(),
                forall|j: int|
                    0 <= j < out@.len() ==> #[trigger] out@[j] == (if j < k {
                        self@[pos + j]
                    } else {
                        old(out)@[j]
                    }),
            decreases n - k,
        {
            let x = self.get_byte(pos + k);
            out[k] = x;
            k = k + 1;
        }
        assert(out@ =~= read_into_spec(self@, pos as int, old(out)@));
        n
    }

    /// Set the file length to `new_size` bytes: shrinking drops the tail,
    /// growing appends zeros.
    pub fn truncate(&mut self, new_size: usize)
        ensures
            final(self)@ == resize_spec(old(self)@, new_size as int),
    {
        if new_size >= self.size() {
            self.grow(new_size);
            return;
        }
        proof {
            use_type_invariant(&*self);
            lemma_blocks_for(self.size as int);
            lemma_blocks_for(new_size as int);
            lemma_blocks_for_monotone(new_size as int, self.size as int);
        }
        let ghost old_self = *self;
        let mut this = BlockStorage::new();
        std::mem::swap(self, &mut this);
        let BlockStorage { mut blocks, size } = this;
        let b = new_size / BLOCK_SIZE;
        let o = new_size % BLOCK_SIZE;
        proof {
            vstd::arithmetic::div_mod::lemma_fundamental_div_mod(new_size as int, BLOCK_SIZE as int);
            vstd::arithmetic::div_mod::lemma_mod_bound(new_size as int, BLOCK_SIZE as int);
        }
        let need = b + if o == 0 { 0 } else { 1 };
        proof {
            if o == 0 {
                lemma_block_index(new_size + BLOCK_SIZE - 1, b as int);
            } else {
                lemma_block_index(new_size + BLOCK_SIZE - 1, b + 1);
            }
            assert(need == blocks_for(new_size as int));
        }
        if o != 0 && blocks[b].len() != 0 {
            let mut k = o;
            while k < BLOCK_SIZE
                invariant
                    o <= k <= BLOCK_SIZE,
                    b < blocks@.len(),
                    blocks@.len() == old_self.blocks@.len(),
                    blocks@[b as int]@.len() == BLOCK_SIZE,
                    forall|bb: int|
                        0 <= bb < blocks@.len() && bb != b ==> blocks@[bb] == old_self.blocks@[bb],
                    forall|kk: int|
                        0 <= kk < BLOCK_SIZE ==> #[trigger] blocks@[b as int]@[kk] == (if o <= kk
                            < k { 0u8 } else { old_self.blocks@[b as int]@[kk] }),
                decreases BLOCK_SIZE - k,
            {
                blocks[b][k] = 0;
                k = k + 1;
            }
        }
        blocks.truncate(need);
        let ghost ns = BlockStorage { blocks, size: new_size };
        proof {
            assert forall|j: int| 0 <= j < blocks@.len() * BLOCK_SIZE implies #[trigger] ns.byte_at(
                j,
            ) == (if j < new_size { old_self.byte_at(j) } else { 0u8 }) by {
                let bj = j / (BLOCK_SIZE as int);
                vstd::arithmetic::div_mod::lemma_fundamental_div_mod(j, BLOCK_SIZE as int);
                vstd::arithmetic::div_mod::lemma_mod_bound(j, BLOCK_SIZE as int);
                assert(bj < blocks@.len()) by (nonlinear_arith)
                    requires
                        j < blocks@.len() * BLOCK_SIZE,
                        bj * BLOCK_SIZE <= j,
                        bj >= 0,
                ;
                if bj == b {
                    lemma_block_index(j, b as int);
                }
                if bj < b {
                    assert(j < new_size) by (nonlinear_arith)
                        requires
                            bj < b,
                            j < bj * BLOCK_SIZE + BLOCK_SIZE,
                            new_size >= b * BLOCK_SIZE,
                    ;
                }
            }
            assert forall|bb: int| 0 <= bb < blocks@.len() implies {
                let n = #[trigger] blocks@[bb]@.len();
                n == 0 || n == BLOCK_SIZE
            } by {
                if bb != b {
                    assert(blocks@[bb] == old_self.blocks@[bb]);
                }
            }
        }
        let _ = size;
        *self = BlockStorage { blocks, size: new_size };
        assert(self@ =~= resize_spec(old(self)@, new_size as int));
    }

    /// Grow the file to `new_size` bytes; the new bytes read as zeros.
    fn grow(&mut self, new_size: usize)
        requires
            old(self)@.len() <= new_size,
        ensures
            final(self)@ == resize_spec(old(self)@, new_size as int),
    {
        proof {
            use_type_invariant(&*self);
            lemma_blocks_for(self.size as int);
            lemma_blocks_for(new_size as int);
            lemma_blocks_for_monotone(self.size as int, new_size as int);
        }
        let ghost old_self = *self;
        let need = new_size / BLOCK_SIZE + if new_size % BLOCK_SIZE == 0 { 0 } else { 1 };
        proof {
            vstd::arithmetic::div_mod::lemma_fundamental_div_mod(new_size as int, BLOCK_SIZE as int);
            vstd::arithmetic::div_mod::lemma_mod_bound(new_size as int, BLOCK_SIZE as int);
            let q = new_size / BLOCK_SIZE;
            let r = new_size % BLOCK_SIZE;
            if r == 0 {
                lemma_block_index(new_size + BLOCK_SIZE - 1, q as int);
            } else {
                lemma_block_index(new_size + BLOCK_SIZE - 1, q + 1);
            }
            assert(need == blocks_for(new_size as int));
        }
        let mut this = BlockStorage::new();
        std::mem::swap(self, &mut this);
        let BlockStorage { mut blocks, size } = this;
        while blocks.len() < need
            invariant
                old_self.blocks@.len() <= blocks@.len() <= need,
                need == blocks_for(new_size as int),
                forall|b: int| 0 <= b < old_self.blocks@.len() ==> blocks@[b] == old_self.blocks@[b],
                forall|b: int|
                    old_self.blocks@.len() <= b < blocks@.len() ==> #[trigger] blocks@[b]@.len() == 0,
            decreases need - blocks.len(),
        {
            blocks.push(Vec::new());
        }
        let ghost grown = BlockStorage { blocks, size: new_size };
        proof {
            assert forall|i: int| 0 <= i < new_size implies grown.byte_at(i) == (if i
                < old_self.size { old_self.byte_at(i) } else { 0u8 }) by {
                let b = i / (BLOCK_SIZE as int);
                vstd::arithmetic::div_mod::lemma_fundamental_div_mod(i, BLOCK_SIZE as int);
                vstd::arithmetic::div_mod::lemma_mod_bound(i, BLOCK_SIZE as int);
                if b < old_self.blocks@.len() {
                    if i >= old_self.size {
                        lemma_block_index(i, b);
                        assert(i < old_self.blocks@.len() * BLOCK_SIZE) by (nonlinear_arith)
                            requires
                                b < old_self.blocks@.len(),
                                i < (b + 1) * BLOCK_SIZE,
                        ;
                        assert(old_self.byte_at(i) == 0);
                    }
                } else {
                    assert(i >= old_self.blocks@.len() * BLOCK_SIZE) by (nonlinear_arith)
                        requires
                            b >= old_self.blocks@.len(),
                            b * BLOCK_SIZE <= i,
                    ;
                    assert(i >= old_self.size);
                }
            }
            assert forall|i: int|
                new_size <= i < blocks@.len() * BLOCK_SIZE implies #[trigger] grown.byte_at(i)
                == 0 by {
                let b = i / (BLOCK_SIZE as int);
                vstd::arithmetic::div_mod::lemma_fundamental_div_mod(i, BLOCK_SIZE as int);
                vstd::arithmetic::div_mod::lemma_mod_bound(i, BLOCK_SIZE as int);
                if b < old_self.blocks@.len() {
                    lemma_block_index(i, b);
                    assert(i < old_self.blocks@.len() * BLOCK_SIZE) by (nonlinear_arith)
                        requires
                            b < old_self.blocks@.len(),
                            i < (b + 1) * BLOCK_SIZE,
                    ;
                    assert(old_self.byte_at(i) == 0);
                } else {
                    assert(b < blocks@.len()) by (nonlinear_arith)
                        requires
                            i < blocks@.len() * BLOCK_SIZE,
                            b * BLOCK_SIZE <= i,
                            b >= 0,
                    ;
                }
            }
        }
        let _ = size;
        *self = BlockStorage { blocks, size: new_size };
        assert(self@ =~= resize_spec(old(self)@, new_size as int));
    }
}

} // verus!
