//! A fixed-capacity bitset stored as 32-bit blocks, with the wire form used
//! by the protocol: each block serialised little-endian, so the byte length
//! is the block count times four.

use vstd::bytes::*;
use vstd::prelude::*;

verus! {

/// A finite bitset.  The capacity is `32 * blocks.len()` bits; bit `i` is
/// bit `i % 32` of block `i / 32`.
#[derive(Debug, PartialEq, Eq)]
pub struct BitSet {
    blocks: Vec<u32>,
}

/// The little-endian serialisation of a block sequence: four bytes per
/// block, least significant byte first, blocks in order.
pub open spec fn blocks_to_bytes(s: Seq<u32>) -> Seq<u8>
    decreases s.len(),
{
    if s.len() == 0 {
        Seq::empty()
    } else {
        blocks_to_bytes(s.drop_last()) + spec_u32_to_le_bytes(s.last())
    }
}

/// The inverse of `blocks_to_bytes`, defined on byte sequences whose length
/// is a multiple of four.
pub open spec fn bytes_to_blocks(b: Seq<u8>) -> Seq<u32>
    decreases b.len(),
{
    if b.len() < 4 {
        Seq::empty()
    } else {
        bytes_to_blocks(b.take(b.len() - 4)).push(
            spec_u32_from_le_bytes(b.skip(b.len() - 4)),
        )
    }
}

pub proof fn lemma_blocks_to_bytes_len(s: Seq<u32>)
    ensures
        blocks_to_bytes(s).len() == 4 * s.len(),
    decreases s.len(),
{
    if s.len() > 0 {
        lemma_blocks_to_bytes_len(s.drop_last());
        lemma_auto_spec_u32_to_from_le_bytes();
    }
}

/// Serialising blocks and reading the bytes back yields the same blocks.
pub proof fn lemma_blocks_bytes_round_trip(s: Seq<u32>)
    ensures
        bytes_to_blocks(blocks_to_bytes(s)) == s,
    decreases s.len(),
{
    lemma_auto_spec_u32_to_from_le_bytes();
    if s.len() == 0 {
        assert(bytes_to_blocks(blocks_to_bytes(s)) =~= s);
    } else {
        let b = blocks_to_bytes(s);
        lemma_blocks_to_bytes_len(s);
        lemma_blocks_to_bytes_len(s.drop_last());
        assert(b.take(b.len() - 4) =~= blocks_to_bytes(s.drop_last()));
        assert(b.skip(b.len() - 4) =~= spec_u32_to_le_bytes(s.last()));
        lemma_blocks_bytes_round_trip(s.drop_last());
        assert(bytes_to_blocks(b) =~= s);
    }
}

/// Reading a well-aligned byte string and serialising the blocks again
/// yields the same bytes.
pub proof fn lemma_bytes_blocks_round_trip(b: Seq<u8>)
    requires
        b.len() % 4 == 0,
    ensures
        blocks_to_bytes(bytes_to_blocks(b)) == b,
    decreases b.len(),
{
    lemma_auto_spec_u32_to_from_le_bytes();
    if b.len() == 0 {
        assert(blocks_to_bytes(bytes_to_blocks(b)) =~= b);
    } else {
        let pre = b.take(b.len() - 4);
        assert(pre.len() % 4 == 0) by {
            assert(pre.len() == b.len() - 4);
        }
        lemma_bytes_blocks_round_trip(pre);
        let s = bytes_to_blocks(b);
        assert(s.drop_last() =~= bytes_to_blocks(pre));
        assert(b.skip(b.len() - 4).len() == 4);
        assert(blocks_to_bytes(s) =~= b);
    }
}

impl BitSet {
    /// The block sequence.
    pub closed spec fn view(&self) -> Seq<u32> {
        self.blocks@
    }

    /// Whether bit `i` is set.
    pub open spec fn spec_contains(&self, i: nat) -> bool {
        i < 32 * self@.len() && (self@[(i / 32) as int] >> (i % 32) as u32) & 1 == 1
    }

    /// A bitset with no block at all.
    pub fn empty() -> (r: BitSet)
        ensures
            r@ == Seq::<u32>::empty(),
    {
        BitSet { blocks: Vec::new() }
    }

    /// A bitset able to hold bits `0 .. bits`, rounded up to whole blocks,
    /// with every bit clear.
    pub fn with_capacity(bits: usize) -> (r: BitSet)
        requires
            bits <= usize::MAX - 31,
        ensures
            r@.len() == (bits + 31) / 32,
            forall|j: int| 0 <= j < r@.len() ==> r@[j] == 0u32,
    {
        let n: usize = (bits + 31) / 32;
        let mut blocks: Vec<u32> = Vec::new();
        let mut i: usize = 0;
        while i < n
            invariant
                i <= n,
                blocks@.len() == i,
                forall|j: int| 0 <= j < i ==> blocks@[j] == 0u32,
            decreases n - i,
        {
            blocks.push(0);
            i = i + 1;
        }
        BitSet { blocks }
    }

    /// A bitset directly from its blocks.
    pub fn from_blocks(blocks: Vec<u32>) -> (r: BitSet)
        ensures
            r@ == blocks@,
    {
        BitSet { blocks }
    }

    /// The number of 32-bit blocks.
    pub fn block_count(&self) -> (r: usize)
        ensures
            r == self@.len(),
    {
        self.blocks.len()
    }

    /// The number of bits the set can hold.
    pub fn capacity(&self) -> (r: usize)
        requires
            32 * self@.len() <= usize::MAX,
        ensures
            r == 32 * self@.len(),
    {
        self.blocks.len() * 32
    }

    /// Sets bit `i`.
    pub fn insert(&mut self, i: usize)
        requires
            i < 32 * old(self)@.len(),
        ensures
            final(self)@.len() == old(self)@.len(),
            final(self).spec_contains(i as nat),
            forall|j: nat| j < 32 * old(self)@.len() && j != i
                ==> final(self).spec_contains(j) == old(self).spec_contains(j),
    {
        let block: usize = i / 32;
        let off: u32 = (i % 32) as u32;
        let v: u32 = self.blocks[block] | (1u32 << off);
        proof {
            assert(forall|k: u32, o: u32|
                o < 32 ==> ((k | (1u32 << o)) >> o) & 1 == 1) by (bit_vector);
            assert(forall|k: u32, o: u32, o2: u32|
                o < 32 && o2 < 32 && o != o2 ==> ((k | (1u32 << o)) >> o2) & 1 == (k
                    >> o2) & 1) by (bit_vector);
            assert(off == i % 32);
        }
        self.blocks.set(block, v);
        proof {
            assert(self@[(i / 32) as int] == v);
            assert forall|j: nat|
                j < 32 * old(self)@.len() && j != i implies (self.spec_contains(j) == old(
                self,
            ).spec_contains(j)) by {
                if j / 32 == i / 32 {
                    assert(j % 32 != i % 32) by {
                        vstd::arithmetic::div_mod::lemma_fundamental_div_mod(
                            j as int,
                            32,
                        );
                        vstd::arithmetic::div_mod::lemma_fundamental_div_mod(
                            i as int,
                            32,
                        );
                    }
                    assert((j % 32) < 32 && (off as nat) < 32);
                } else {
                    assert(self@[(j / 32) as int] == old(self)@[(j / 32) as int]);
                }
            }
        }
    }

    /// Whether bit `i` is set; bits beyond the capacity read as clear.
    pub fn contains(&self, i: usize) -> (r: bool)
        ensures
            r == self.spec_contains(i as nat),
    {
        let block: usize = i / 32;
        if block < self.blocks.len() {
            proof {
                vstd::arithmetic::div_mod::lemma_fundamental_div_mod(i as int, 32);
                assert((i as nat) < 32 * self@.len());
            }
            (self.blocks[block] >> ((i % 32) as u32)) & 1 == 1
        } else {
            proof {
                if (i as nat) < 32 * self@.len() {
                    vstd::arithmetic::div_mod::lemma_fundamental_div_mod(
                        i as int,
                        32,
                    );
                }
            }
            false
        }
    }

    /// The wire form: each block little-endian, blocks in order.  The
    /// length is always a multiple of four.
    pub fn to_bytes(&self) -> (r: Vec<u8>)
        requires
            4 * self@.len() <= usize::MAX,
        ensures
            r@ == blocks_to_bytes(self@),
            r@.len() == 4 * self@.len(),
            r@.len() % 4 == 0,
    {
        proof {
            lemma_blocks_to_bytes_len(self@);
        }
        let mut out: Vec<u8> = Vec::new();
        let mut i: usize = 0;
        while i < self.blocks.len()
            invariant
                i <= self.blocks@.len(),
                4 * self.blocks@.len() <= usize::MAX,
                out@ == blocks_to_bytes(self.blocks@.take(i as int)),
                out@.len() == 4 * i,
            decreases self.blocks@.len() - i,
        {
            let mut word: Vec<u8> = u32_to_le_bytes(self.blocks[i]);
            out.append(&mut word);
            proof {
                let t = self.blocks@.take(i + 1);
                assert(t.drop_last() =~= self.blocks@.take(i as int));
                assert(t.last() == self.blocks@[i as int]);
            }
            i = i + 1;
        }
        proof {
            assert(self.blocks@.take(self.blocks@.len() as int) =~= self.blocks@);
        }
        out
    }

    /// Reads a wire-form byte string back into a bitset.  Fails exactly on
    /// lengths that are not a multiple of four.
    pub fn from_bytes(bytes: &[u8]) -> (r: Option<BitSet>)
        ensures
            match r {
                Some(b) => bytes@.len() % 4 == 0 && b@ == bytes_to_blocks(bytes@),
                None => bytes@.len() % 4 != 0,
            },
    {
        if bytes.len() % 4 != 0 {
            return None;
        }
        let mut blocks: Vec<u32> = Vec::new();
        let mut i: usize = 0;
        let n: usize = bytes.len() / 4;
        proof {
            assert(4 * n == bytes@.len());
        }
        while i < n
            invariant
                i <= n,
                4 * n == bytes@.len(),
                4 * n <= usize::MAX,
                blocks@ == bytes_to_blocks(bytes@.take(4 * i)),
            decreases n - i,
        {
            proof {
                lemma_auto_spec_u32_to_from_le_bytes();
            }
            let word = vstd::slice::slice_subrange(bytes, 4 * i, 4 * i + 4);
            let x = u32_from_le_bytes(word);
            blocks.push(x);
            proof {
                let t = bytes@.take(4 * (i + 1));
                assert(t.len() == 4 * i + 4);
                assert(t.take(t.len() - 4) =~= bytes@.take(4 * i));
                assert(t.skip(t.len() - 4) =~= bytes@.subrange(
                    4 * i,
                    4 * i + 4,
                ));
            }
            i = i + 1;
        }
        proof {
            assert(bytes@.take(4 * n) =~= bytes@);
        }
        Some(BitSet { blocks })
    }

    /// A copy of this bitset.
    pub fn clone_set(&self) -> (r: BitSet)
        ensures
            r@ == self@,
    {
        let mut blocks: Vec<u32> = Vec::new();
        let mut i: usize = 0;
        while i < self.blocks.len()
            invariant
                i <= self.blocks@.len(),
                blocks@ == self.blocks@.take(i as int),
            decreases self.blocks@.len() - i,
        {
            blocks.push(self.blocks[i]);
            proof {
                assert(self.blocks@.take(i + 1) =~= self.blocks@.take(
                    i as int,
                ).push(self.blocks@[i as int]));
            }
            i = i + 1;
        }
        proof {
            assert(self.blocks@.take(self.blocks@.len() as int) =~= self.blocks@);
        }
        BitSet { blocks }
    }

    /// Structural equality of the block sequences.
    pub fn eq_bits(&self, other: &BitSet) -> (r: bool)
        ensures
            r == (self@ == other@),
    {
        if self.blocks.len() != other.blocks.len() {
            proof {
                assert(self@.len() != other@.len());
            }
            return false;
        }
        let mut i: usize = 0;
        while i < self.blocks.len()
            invariant
                i <= self.blocks@.len(),
                self.blocks@.len() == other.blocks@.len(),
                forall|j: int| 0 <= j < i ==> self.blocks@[j] == other.blocks@[j],
            decreases self.blocks@.len() - i,
        {
            if self.blocks[i] != other.blocks[i] {
                return false;
            }
            i = i + 1;
        }
        proof {
            assert(self@ =~= other@);
        }
        true
    }
}

/// `decode(encode(b)) == b` for any bitset, and the encoding length is a
/// multiple of four: the wire form loses nothing.
pub proof fn lemma_bitset_round_trip(s: Seq<u32>)
    ensures
        blocks_to_bytes(s).len() % 4 == 0,
        bytes_to_blocks(blocks_to_bytes(s)) == s,
{
    lemma_blocks_to_bytes_len(s);
    lemma_blocks_bytes_round_trip(s);
}

} // verus!
