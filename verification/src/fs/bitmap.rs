//! Allocation bitmaps of easy-fs. A bitmap spans `n_blocks` consecutive
//! disk blocks; each bit tells whether one inode or data block is in use
//! (1) or free (0). Bit `b` lives in block `b / 4096` of the bitmap, word
//! `(b % 4096) / 64` of that block, bit `b % 64` of that word.
use vstd::prelude::*;
use crate::config::BLOCK_SZ;

verus! {

broadcast use vstd::std_specs::bits::axiom_u64_trailing_ones;

/// A bitmap block: 64 words of 64 bits.
pub type BitmapBlock = [u64; 64];

/// Number of bits in a block.
pub const BLOCK_BITS: usize = 4096;

/// Whether bit `i` of word `w` is set.
pub open spec fn word_bit(w: u64, i: int) -> bool {
    (w >> (i as u64)) & 1u64 == 1u64
}

/// Whether bit `i` (0..4096) of a bitmap block is set.
pub open spec fn block_bit(b: BitmapBlock, i: int) -> bool {
    word_bit(b@[i / 64], i % 64)
}

/// The bits of the bitmap whose blocks start at `start` on the disk and
/// span `n` blocks.
pub open spec fn bitmap_bits(disk: Seq<BitmapBlock>, start: int, n: int) -> Seq<bool> {
    Seq::new((n * 4096) as nat, |b: int| block_bit(disk[start + b / 4096], b % 4096))
}

/// Splits a bit number into (block, word in block, bit in word).
pub fn decomposition(bit: usize) -> (r: (usize, usize, usize))
    ensures
        r.0 == bit / 4096,
        r.1 == (bit % 4096) / 64,
        r.2 == bit % 64,
        r.1 < 64,
        r.2 < 64,
{
    let block_pos = bit / BLOCK_BITS;
    let b = bit % BLOCK_BITS;
    proof {
        assert(b % 64 == bit % 64) by (nonlinear_arith)
            requires
                b == bit % 4096,
        ;
    }
    (block_pos, b / 64, b % 64)
}

proof fn lemma_set_bit(w: u64, t: u64)
    requires
        t < 64,
    ensures
        forall|j: u64|
            #![trigger ((w | (1u64 << t)) >> j)]
            j < 64 ==> (((w | (1u64 << t)) >> j) & 1u64 == 1u64) == (j == t || (w >> j) & 1u64
                == 1u64),
{
    assert forall|j: u64|
        #![trigger ((w | (1u64 << t)) >> j)]
        j < 64 implies (((w | (1u64 << t)) >> j) & 1u64 == 1u64) == (j == t || (w >> j) & 1u64
        == 1u64) by {
        assert(t < 64 && j < 64 ==> ((((w | (1u64 << t)) >> j) & 1u64 == 1u64) == (j == t || (w
            >> j) & 1u64 == 1u64))) by (bit_vector);
    }
}

proof fn lemma_clear_bit(w: u64, t: u64)
    requires
        t < 64,
        (w >> t) & 1u64 == 1u64,
    ensures
        w - (1u64 << t) == w & !(1u64 << t),
        forall|j: u64|
            #![trigger (((w - (1u64 << t)) as u64) >> j)]
            j < 64 ==> ((((w - (1u64 << t)) as u64) >> j) & 1u64 == 1u64) == (j != t && (w >> j) & 1u64
                == 1u64),
{
    assert(t < 64 && (w >> t) & 1u64 == 1u64 ==> w - (1u64 << t) == w & !(1u64 << t))
        by (bit_vector);
    assert forall|j: u64|
        #![trigger (((w - (1u64 << t)) as u64) >> j)]
        j < 64 implies ((((w - (1u64 << t)) as u64) >> j) & 1u64 == 1u64) == (j != t && (w >> j) & 1u64
        == 1u64) by {
        assert(t < 64 && j < 64 && (w >> t) & 1u64 == 1u64 ==> (((((w - (1u64 << t)) as u64) >> j) & 1u64
            == 1u64) == (j != t && (w >> j) & 1u64 == 1u64))) by (bit_vector);
    }
}

proof fn lemma_full_word(w: u64)
    requires
        w == 0xffff_ffff_ffff_ffffu64,
    ensures
        forall|j: int| 0 <= j < 64 ==> #[trigger] word_bit(w, j),
{
    assert forall|j: int| 0 <= j < 64 implies #[trigger] word_bit(w, j) by {
        let jj = j as u64;
        assert(w == 0xffff_ffff_ffff_ffffu64 && jj < 64 ==> (w >> jj) & 1u64 == 1u64)
            by (bit_vector);
    }
}

/// Sets the lowest clear bit of a bitmap block and returns its position,
/// or returns `None` when every bit is set.
fn alloc_in_block(block: &mut BitmapBlock) -> (r: Option<usize>)
    ensures
        r is None ==> *final(block) == *old(block) && forall|i: int|
            0 <= i < 4096 ==> #[trigger] block_bit(*old(block), i),
        r matches Some(p) ==> {
            &&& p < 4096
            &&& !block_bit(*old(block), p as int)
            &&& forall|i: int| 0 <= i < p ==> #[trigger] block_bit(*old(block), i)
            &&& final(block)@ == old(block)@.update(
                p as int / 64,
                old(block)@[p as int / 64] | (1u64 << ((p % 64) as u64)),
            )
            &&& forall|i: int|
                0 <= i < 4096 ==> #[trigger] block_bit(*final(block), i) == (i == p || block_bit(
                    *old(block),
                    i,
                ))
        },
{
    let mut k: usize = 0;
    while k < 64
        invariant
            k <= 64,
            *block == *old(block),
            forall|i: int| 0 <= i < k * 64 ==> #[trigger] block_bit(*old(block), i),
        decreases 64 - k,
    {
        let w = block[k];
        if w != u64::MAX {
            let inner = w.trailing_ones() as usize;
            let t = inner as u64;
            proof {
                assert(inner < 64);
                assert((w >> t) & 1u64 == 0u64);
                lemma_set_bit(w, t);
            }
            let nw = w | (1u64 << t);
            block[k] = nw;
            let p = k * 64 + inner;
            proof {
                assert(p as int / 64 == k as int);
                assert(p as int % 64 == inner as int);
                assert forall|i: int| 0 <= i < p implies #[trigger] block_bit(*old(block), i) by {
                    if i >= k * 64 {
                        assert(i / 64 == k as int);
                        let j = (i % 64) as u64;
                        assert(j < t);
                        assert((w >> j) & 1u64 == 1u64);
                    }
                }
                assert forall|i: int|
                    0 <= i < 4096 implies #[trigger] block_bit(*block, i) == (i == p || block_bit(
                    *old(block),
                    i,
                )) by {
                    if i / 64 == k as int {
                        let j = (i % 64) as u64;
                        assert(((nw >> j) & 1u64 == 1u64) == (j == t || (w >> j) & 1u64 == 1u64));
                        assert(i == p <==> j == t);
                    } else {
                        assert(block@[i / 64] == old(block)@[i / 64]);
                    }
                }
            }
            return Some(p);
        }
        proof {
            lemma_full_word(w);
            assert forall|i: int| 0 <= i < (k + 1) * 64 implies #[trigger] block_bit(*old(block), i) by {
                if i >= k * 64 {
                    assert(i / 64 == k as int);
                    assert(word_bit(w, i % 64));
                }
            }
        }
        k = k + 1;
    }
    None
}

/// Changing one bit of one block of the disk changes exactly the matching
/// bit of the bitmap.
proof fn lemma_bits_one_change(
    d0: Seq<BitmapBlock>,
    d1: Seq<BitmapBlock>,
    start: int,
    n: int,
    blk: int,
    p: int,
    v: bool,
)
    requires
        0 <= start,
        0 <= blk < n,
        0 <= p < 4096,
        start + n <= d0.len(),
        d1.len() == d0.len(),
        forall|j: int| 0 <= j < d0.len() && j != start + blk ==> #[trigger] d1[j] == d0[j],
        forall|i: int|
            0 <= i < 4096 ==> #[trigger] block_bit(d1[start + blk], i) == if i == p {
                v
            } else {
                block_bit(d0[start + blk], i)
            },
    ensures
        bitmap_bits(d1, start, n) == bitmap_bits(d0, start, n).update(blk * 4096 + p, v),
{
    assert(0 <= blk * 4096) by (nonlinear_arith)
        requires
            0 <= blk,
    ;
    assert(blk * 4096 + 4096 <= n * 4096) by (nonlinear_arith)
        requires
            blk < n,
    ;
    let b = blk * 4096 + p;
    assert(b / 4096 == blk && b % 4096 == p);
    assert forall|c: int| 0 <= c < n * 4096 implies #[trigger] bitmap_bits(d1, start, n)[c]
        == bitmap_bits(d0, start, n).update(b, v)[c] by {
        assert(0 <= c / 4096 < n) by (nonlinear_arith)
            requires
                0 <= c < n * 4096,
        ;
        if c / 4096 == blk {
            assert(c == b <==> c % 4096 == p);
        } else {
            assert(c != b);
        }
    }
    assert(bitmap_bits(d1, start, n) =~= bitmap_bits(d0, start, n).update(b, v));
}

/// A bitmap spanning `n_blocks` disk blocks from block `start_block_id`.
pub struct Bitmap {
    start_block_id: usize,
    n_blocks: usize,
}

impl Bitmap {
    /// The first disk block of the bitmap.
    pub closed spec fn start(&self) -> int {
        self.start_block_id as int
    }

    /// The number of disk blocks of the bitmap.
    pub closed spec fn blocks(&self) -> int {
        self.n_blocks as int
    }

    /// The first block and the block count are `usize` values.
    pub proof fn lemma_bounds(&self)
        ensures
            0 <= self.start() <= usize::MAX,
            0 <= self.blocks() <= usize::MAX,
    {
    }

    /// The bitmap's bits as found on `disk`.
    pub open spec fn bits(&self, disk: Seq<BitmapBlock>) -> Seq<bool> {
        bitmap_bits(disk, self.start(), self.blocks())
    }

    /// A bitmap over the `n_blocks` blocks from `start_block_id`.
    pub fn new(start_block_id: usize, n_blocks: usize) -> (r: Self)
        ensures
            r.start() == start_block_id,
            r.blocks() == n_blocks,
    {
        Self { start_block_id, n_blocks }
    }

    /// The number of bits, i.e. of allocatable inodes or blocks.
    pub fn size(&self) -> (r: usize)
        requires
            self.blocks() * 4096 <= usize::MAX,
        ensures
            r == self.blocks() * 4096,
    {
        self.n_blocks * BLOCK_BITS
    }

    /// Allocates the lowest free bit: sets it and returns its number, or
    /// returns `None` when every bit is set. `disk` holds the disk's blocks
    /// read as bitmap blocks.
    pub fn allocate(&self, disk: &mut Vec<BitmapBlock>) -> (r: Option<usize>)
        requires
            self.start() + self.blocks() <= old(disk)@.len(),
            self.blocks() * 4096 <= usize::MAX,
        ensures
            final(disk)@.len() == old(disk)@.len(),
            r is None ==> final(disk)@ == old(disk)@ && forall|b: int|
                0 <= b < self.blocks() * 4096 ==> #[trigger] self.bits(old(disk)@)[b],
            r matches Some(b) ==> {
                let k = self.start() + b as int / 4096;
                let w = (b as int % 4096) / 64;
                &&& b < self.blocks() * 4096
                &&& !self.bits(old(disk)@)[b as int]
                &&& forall|c: int| 0 <= c < b ==> #[trigger] self.bits(old(disk)@)[c]
                &&& self.bits(final(disk)@) == self.bits(old(disk)@).update(b as int, true)
                &&& final(disk)@[k]@ == old(disk)@[k]@.update(
                    w,
                    old(disk)@[k]@[w] | (1u64 << ((b % 64) as u64)),
                )
                &&& forall|j: int| 0 <= j < old(disk)@.len() && j != k ==> #[trigger] final(disk)@[j] == old(disk)@[j]
            },
    {
        let len = disk.len();
        let mut block_id: usize = 0;
        while block_id < self.n_blocks
            invariant
                len == old(disk)@.len(),
                block_id <= self.blocks(),
                self.start() + self.blocks() <= old(disk)@.len(),
                self.blocks() * 4096 <= usize::MAX,
                disk@ == old(disk)@,
                forall|c: int| 0 <= c < block_id * 4096 ==> #[trigger] self.bits(old(disk)@)[c],
            decreases self.blocks() - block_id,
        {
            let idx = block_id + self.start_block_id;
            let mut blk = disk[idx];
            let pos = alloc_in_block(&mut blk);
            match pos {
                Some(p) => {
                    let ghost d0 = disk@;
                    disk.set(idx, blk);
                    let b = block_id * BLOCK_BITS + p;
                    proof {
                        assert(block_id * 4096 + 4096 <= self.blocks() * 4096) by (nonlinear_arith)
                            requires
                                block_id < self.blocks(),
                        ;
                        assert(b as int / 4096 == block_id as int);
                        assert(b as int % 4096 == p as int);
                        assert(b as int % 64 == p as int % 64);
                        assert forall|c: int| 0 <= c < b implies #[trigger] self.bits(d0)[c] by {
                            if c >= block_id * 4096 {
                                assert(c / 4096 == block_id as int);
                                assert(c % 4096 == c - block_id * 4096);
                            }
                        }
                        lemma_bits_one_change(d0, disk@, self.start(), self.blocks(), block_id as int, p as int, true);
                    }
                    return Some(b);
                },
                None => {
                    proof {
                        assert forall|c: int| 0 <= c < (block_id + 1) * 4096 implies #[trigger] self.bits(
                            old(disk)@,
                        )[c] by {
                            if c >= block_id * 4096 {
                                assert(c / 4096 == block_id as int);
                                assert(c % 4096 == c - block_id * 4096);
                            }
                        }
                    }
                },
            }
            block_id = block_id + 1;
        }
        None
    }

    /// Clears bit `bit`, which must be set.
    pub fn dealloc(&self, disk: &mut Vec<BitmapBlock>, bit: usize)
        requires
            self.start() + bit as int / 4096 < old(disk)@.len(),
            word_bit(old(disk)@[self.start() + bit as int / 4096]@[(bit as int % 4096) / 64], bit as int % 64),
        ensures
            ({
                let k = self.start() + bit as int / 4096;
                let w = (bit as int % 4096) / 64;
                &&& final(disk)@.len() == old(disk)@.len()
                &&& final(disk)@[k]@ == old(disk)@[k]@.update(
                    w,
                    (old(disk)@[k]@[w] - (1u64 << ((bit % 64) as u64))) as u64,
                )
                &&& forall|j: int| 0 <= j < old(disk)@.len() && j != k ==> #[trigger] final(disk)@[j] == old(disk)@[j]
                &&& bit < self.blocks() * 4096 && self.start() + self.blocks() <= old(disk)@.len()
                    ==> self.bits(final(disk)@) == self.bits(
                    old(disk)@,
                ).update(bit as int, false)
            }),
    {
        let len = disk.len();
        let (block_pos, bits64_pos, inner_pos) = decomposition(bit);
        let idx = block_pos + self.start_block_id;
        let mut blk = disk[idx];
        let w = blk[bits64_pos];
        let t = inner_pos as u64;
        proof {
            lemma_clear_bit(w, t);
        }
        let nw = w - (1u64 << t);
        blk[bits64_pos] = nw;
        let ghost d0 = disk@;
        disk.set(idx, blk);
        proof {
            assert forall|i: int| 0 <= i < 4096 implies #[trigger] block_bit(disk@[idx as int], i)
                == if i == bit as int % 4096 {
                false
            } else {
                block_bit(d0[idx as int], i)
            } by {
                assert(bit as int % 4096 % 64 == bit as int % 64);
                if i / 64 == bits64_pos as int {
                    let j = (i % 64) as u64;
                    assert(((nw >> j) & 1u64 == 1u64) == (j != t && (w >> j) & 1u64 == 1u64));
                    assert(i == bit as int % 4096 <==> j == t);
                }
            }
            if bit < self.blocks() * 4096 && self.start() + self.blocks() <= d0.len() {
                assert(bit as int / 4096 < self.blocks()) by (nonlinear_arith)
                    requires
                        bit < self.blocks() * 4096,
                ;
                lemma_bits_one_change(d0, disk@, self.start(), self.blocks(), bit as int / 4096, bit as int % 4096, false);
            }
        }
    }
}

/// Giving back the bit an allocation set restores the word it was taken
/// from: `(w | 1 << t) - (1 << t) == w` when bit `t` of `w` was clear.
pub proof fn lemma_dealloc_undoes_alloc(w: u64, t: u64)
    requires
        t < 64,
        !word_bit(w, t as int),
    ensures
        word_bit(w | (1u64 << t), t as int),
        ((w | (1u64 << t)) - (1u64 << t)) as u64 == w,
{
    assert(t < 64 && (w >> t) & 1u64 != 1u64 ==> ((w | (1u64 << t)) >> t) & 1u64 == 1u64 && ((w
        | (1u64 << t)) - (1u64 << t)) as u64 == w) by (bit_vector);
}

} // verus!

verus! {

/// Giving back the bit an allocation took restores the disk: when
/// `allocate` takes the free bit `b` (the disk going from `d0` to `d1`, as
/// its contract states) and `dealloc(b)` then runs on `d1` (giving `d2`, as
/// its contract states), every block of `d2` equals the block of `d0`.
pub proof fn lemma_bitmap_dealloc_undoes_alloc(bm: Bitmap, d0: Seq<BitmapBlock>, d1: Seq<BitmapBlock>, d2: Seq<BitmapBlock>, b: int)
    requires
        0 <= b < bm.blocks() * 4096,
        bm.start() + bm.blocks() <= d0.len(),
        !bm.bits(d0)[b],
        d1.len() == d0.len(),
        d1[bm.start() + b / 4096]@ == d0[bm.start() + b / 4096]@.update(
            (b % 4096) / 64,
            d0[bm.start() + b / 4096]@[(b % 4096) / 64] | (1u64 << ((b % 64) as u64)),
        ),
        forall|j: int| 0 <= j < d0.len() && j != bm.start() + b / 4096 ==> #[trigger] d1[j] == d0[j],
        d2.len() == d1.len(),
        d2[bm.start() + b / 4096]@ == d1[bm.start() + b / 4096]@.update(
            (b % 4096) / 64,
            (d1[bm.start() + b / 4096]@[(b % 4096) / 64] - (1u64 << ((b % 64) as u64))) as u64,
        ),
        forall|j: int| 0 <= j < d1.len() && j != bm.start() + b / 4096 ==> #[trigger] d2[j] == d1[j],
    ensures
        d2.len() == d0.len(),
        forall|j: int| 0 <= j < d0.len() ==> #[trigger] d2[j]@ == d0[j]@,
{
    let k = bm.start() + b / 4096;
    let w = (b % 4096) / 64;
    let t = (b % 64) as u64;
    assert(bm.bits(d0)[b] == block_bit(d0[k], b % 4096));
    assert((b % 4096) % 64 == b % 64);
    let x = d0[k]@[w];
    lemma_dealloc_undoes_alloc(x, t);
    assert(d2[k]@ =~= d0[k]@);
}

} // verus!
