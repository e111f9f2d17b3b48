//! A fixed-block-size allocator: it carves a caller-supplied region into
//! equal blocks and tracks their occupancy in a bitmap.
//!
//! The bitmap needs storage of its own. When it would fit into the "slop"
//! left over by the floor division of the region into blocks — space too
//! small to hold a block anyway — it is placed there and costs nothing
//! ("dead-bitmap" placement). Otherwise it consumes the leading block or
//! blocks of the region. The choice is fixed at construction and never
//! changes.
//!
//! The allocator performs no internal locking; on a preemptible target every
//! mutating call must be protected externally by the caller.

use vstd::prelude::*;
use crate::bitmap::{
    Bitmap,
    clear_run,
    count_set,
    write_bits_range,
    lemma_count_set_le_len,
    lemma_count_set_update,
    lemma_count_set_write_range,
    lemma_count_set_all_clear,
};
use crate::errors::Error;
use crate::math::{div_round_up, uceil};
use crate::memory::IOVec;

verus! {

/// How many whole blocks a region of `size` bytes holds; the trailing
/// partial block is unused.
pub open spec fn raw_blocks(size: int, bs: int) -> int {
    size / bs
}

/// How many bytes the occupancy bitmap needs: one bit per raw block.
pub open spec fn bitmap_bytes(size: int, bs: int) -> int {
    div_round_up(raw_blocks(size, bs), 8)
}

/// How many whole blocks the bitmap itself would consume.
pub open spec fn bitmap_blocks(size: int, bs: int) -> int {
    div_round_up(bitmap_bytes(size, bs), bs)
}

/// Whether the bitmap fits into the slop left by the floor division, so that
/// no usable block has to be sacrificed for it.
pub open spec fn dead_bitmap(size: int, bs: int) -> bool {
    bitmap_blocks(size, bs) == 1 && bitmap_bytes(size, bs) < size % bs
}

/// The number of blocks left for allocation after the bitmap has been
/// placed.
pub open spec fn usable_blocks(size: int, bs: int) -> int {
    if dead_bitmap(size, bs) {
        raw_blocks(size, bs)
    } else {
        raw_blocks(size, bs) - bitmap_blocks(size, bs)
    }
}

/// Every one of the `num` blocks named by a free request, starting at block
/// `fb`, is inside the bitmap and currently marked used.
pub open spec fn freeable(occ: Seq<bool>, fb: int, num: int) -> bool {
    forall|t: int| fb <= t < fb + num ==> t < occ.len() && #[trigger] occ[t]
}

/// The set-bit count stays below `k` when every bit from `k` on is clear.
pub proof fn lemma_count_set_bound(bm: Seq<bool>, k: int)
    requires
        0 <= k <= bm.len(),
        forall|i: int| k <= i < bm.len() ==> !bm[i],
    ensures
        count_set(bm) <= k,
    decreases bm.len(),
{
    if bm.len() > k {
        lemma_count_set_bound(bm.drop_last(), k);
    } else {
        lemma_count_set_le_len(bm);
    }
}

/// A fixed-block-size allocator over a raw region, tracking block occupancy
/// in a bitmap.
pub struct SlabAllocator {
    blocks: IOVec,
    bitmap: Bitmap,
    block_size: usize,
    num_blocks: usize,
}

impl SlabAllocator {
    /// The base address of the managed data blocks.
    pub closed spec fn spec_base(&self) -> int {
        self.blocks.ptr as int
    }

    /// The fixed size of one block, in bytes.
    pub closed spec fn spec_block_size(&self) -> int {
        self.block_size as int
    }

    /// The total number of managed blocks.
    pub closed spec fn spec_blocks(&self) -> int {
        self.num_blocks as int
    }

    /// The number of blocks currently marked used.
    pub closed spec fn spec_used_blocks(&self) -> int {
        self.bitmap.spec_used() as int
    }

    /// The occupancy bits: bit `i` is set exactly when block `i` is
    /// allocated. Bits past `spec_blocks()` are padding and stay clear.
    pub closed spec fn occupancy(&self) -> Seq<bool> {
        self.bitmap@
    }

    /// The block index a freed region starts at.
    pub open spec fn spec_first_block(&self, iov: IOVec) -> int {
        (iov.ptr - self.spec_base()) / self.spec_block_size()
    }

    /// The number of blocks a freed region covers.
    pub open spec fn spec_free_count(&self, iov: IOVec) -> int {
        iov.size as int / self.spec_block_size()
    }

    /// A freed region's offset and length both honor the block granularity.
    pub open spec fn spec_aligned(&self, iov: IOVec) -> bool {
        (iov.ptr - self.spec_base()) % self.spec_block_size() == 0 && iov.size as int
            % self.spec_block_size() == 0
    }

    /// The allocator's invariant: a well-formed, truthfully counted bitmap
    /// whose set bits all name real blocks, and a data region that is
    /// exactly the managed blocks.
    pub closed spec fn inv(&self) -> bool {
        &&& self.bitmap.wf()
        &&& self.bitmap.synced()
        &&& self.block_size >= 1
        &&& self.num_blocks <= self.bitmap@.len()
        &&& (forall|i: int| self.num_blocks <= i < self.bitmap@.len() ==> !self.bitmap@[i])
        &&& self.blocks.size == self.num_blocks * self.block_size
        &&& self.blocks.wf()
    }

    /// Carves the region into `block_size`-byte blocks and sets up the
    /// occupancy bitmap, placing it in the region's slop when it fits there
    /// ("dead-bitmap" placement) and in the leading blocks otherwise. All
    /// blocks start out free.
    pub fn new(iov: IOVec, block_size: usize) -> (r: SlabAllocator)
        requires
            iov.wf(),
            block_size >= 1,
            iov.size <= usize::MAX / 8,
        ensures
            r.inv(),
            r.spec_block_size() == block_size,
            r.spec_blocks() == usable_blocks(iov.size as int, block_size as int),
            r.spec_used_blocks() == 0,
            r.spec_base() == if dead_bitmap(iov.size as int, block_size as int) {
                iov.ptr as int
            } else {
                iov.ptr + bitmap_blocks(iov.size as int, block_size as int) * block_size
            },
            r.occupancy().len() == 8 * (if dead_bitmap(iov.size as int, block_size as int) {
                iov.size as int % block_size as int
            } else {
                bitmap_bytes(iov.size as int, block_size as int)
            }),
            forall|i: int| 0 <= i < r.occupancy().len() ==> !r.occupancy()[i],
    {
        let size = iov.size;
        let bs = block_size;
        let num_blocks = size / bs;
        let num_bitmap_bytes = uceil(num_blocks, 8);
        let mut num_bitmap_blocks = uceil(num_bitmap_bytes, bs);
        proof {
            let s = size as int;
            let b = bs as int;
            let raw = raw_blocks(s, b);
            assert(raw * b + s % b == s && 0 <= s % b < b && 0 <= raw) by (nonlinear_arith)
                requires b >= 1 && s >= 0 && raw == s / b,
            ;
            assert(raw <= s) by (nonlinear_arith)
                requires b >= 1 && s >= 0 && raw == s / b,
            ;
            assert(bitmap_bytes(s, b) <= raw && raw <= 8 * bitmap_bytes(s, b)) by (nonlinear_arith)
                requires raw >= 0 && bitmap_bytes(s, b) == (raw + 7) / 8 && raw == raw_blocks(s, b),
            ;
            assert(bitmap_blocks(s, b) <= bitmap_bytes(s, b)) by (nonlinear_arith)
                requires b >= 1 && bitmap_bytes(s, b) >= 0 && bitmap_blocks(s, b) == (bitmap_bytes(
                    s,
                    b,
                ) + b - 1) / b,
            ;
        }
        let dead = num_bitmap_blocks == 1 && num_bitmap_bytes < size % bs;
        if dead {
            num_bitmap_blocks = 0;
        }
        let ghost s = size as int;
        let ghost b = bs as int;
        proof {
            assert(dead == dead_bitmap(s, b));
        }
        let (blks, bmap) = if dead {
            let slop = size % bs;
            (IOVec::new(iov.ptr, size - slop), IOVec::new(iov.ptr + (size - slop), slop))
        } else {
            proof {
                assert(num_bitmap_blocks * b <= raw_blocks(s, b) * b && raw_blocks(s, b) * b <= s
                    && (raw_blocks(s, b) - num_bitmap_blocks) * b == raw_blocks(s, b) * b
                    - num_bitmap_blocks * b) by (nonlinear_arith)
                    requires b >= 1 && 0 <= num_bitmap_blocks <= raw_blocks(s, b) && raw_blocks(
                        s,
                        b,
                    ) * b <= s,
                ;
            }
            (
                IOVec::new(iov.ptr + num_bitmap_blocks * bs, (num_blocks - num_bitmap_blocks) * bs),
                IOVec::new(iov.ptr, num_bitmap_bytes),
            )
        };
        let bitmap = Bitmap::from_iov(bmap);
        let r = SlabAllocator {
            blocks: blks,
            bitmap,
            block_size: bs,
            num_blocks: num_blocks - num_bitmap_blocks,
        };
        proof {
            lemma_count_set_all_clear(r.bitmap@);
            if dead_bitmap(s, b) {
                assert(raw_blocks(s, b) <= 8 * bitmap_bytes(s, b) && bitmap_bytes(s, b) < s % b
                    ==> raw_blocks(s, b) < 8 * (s % b)) by (nonlinear_arith);
            }
        }
        r
    }

    /// Allocates `block_count` contiguous blocks: fails with
    /// `InsufficientFree` when the request exceeds the bitmap's free bits,
    /// with `InvalidSize` when it exceeds the managed block total, and
    /// otherwise takes the lowest free run that ends inside the managed
    /// blocks, returning its region. The returned region should be handed
    /// back through `free`.
    pub fn allocate(&mut self, block_count: usize) -> (r: Result<IOVec, Error>)
        requires
            old(self).inv(),
        ensures
            final(self).inv(),
            final(self).spec_base() == old(self).spec_base(),
            final(self).spec_block_size() == old(self).spec_block_size(),
            final(self).spec_blocks() == old(self).spec_blocks(),
            final(self).occupancy().len() == old(self).occupancy().len(),
            r is Err ==> final(self).occupancy() == old(self).occupancy() && final(self).spec_used_blocks() == old(self).spec_used_blocks(),
            block_count > old(self).occupancy().len() - old(self).spec_used_blocks() ==> r
                == Err::<IOVec, Error>(Error::InsufficientFree),
            (block_count <= old(self).occupancy().len() - old(self).spec_used_blocks()
                && block_count > old(self).spec_blocks()) ==> r == Err::<IOVec, Error>(
                Error::InvalidSize,
            ),
            (block_count <= old(self).occupancy().len() - old(self).spec_used_blocks()
                && block_count <= old(self).spec_blocks() && old(self).spec_blocks() >= old(self).occupancy().len()) ==> r == Err::<IOVec, Error>(Error::OutOfBounds),
            (block_count <= old(self).occupancy().len() - old(self).spec_used_blocks()
                && block_count <= old(self).spec_blocks() && old(self).spec_blocks() < old(self).occupancy().len()) ==> match r {
                Ok(v) => block_count > 0 && (exists|start: int|
                    #[trigger] clear_run(old(self).occupancy(), start, block_count as int) && (
                    forall|j: int|
                        0 <= j < start ==> !clear_run(
                            old(self).occupancy(),
                            j,
                            block_count as int,
                        )) && start + block_count <= old(self).spec_blocks() && final(self).occupancy() == write_bits_range(
                        old(self).occupancy(),
                        start,
                        start + block_count,
                        true,
                    ) && final(self).spec_used_blocks() == old(self).spec_used_blocks()
                        + block_count && v.ptr == old(self).spec_base() + start * old(self).spec_block_size() && v.size == block_count * old(self).spec_block_size()),
                Err(e) => (e == Error::InsufficientFree && (block_count == 0 || forall|j: int|
                    !clear_run(old(self).occupancy(), j, block_count as int))) || (e
                    == Error::OutOfBounds && (exists|start: int|
                    #[trigger] clear_run(old(self).occupancy(), start, block_count as int) && (
                    forall|j: int|
                        0 <= j < start ==> !clear_run(
                            old(self).occupancy(),
                            j,
                            block_count as int,
                        )) && start + block_count > old(self).spec_blocks())),
            },
    {
        proof {
            lemma_count_set_le_len(self.bitmap@);
            crate::bitmap::lemma_total_fits(&self.bitmap);
        }
        if block_count > self.bitmap.free() {
            return Err(Error::InsufficientFree);
        }
        if block_count > self.num_blocks {
            return Err(Error::InvalidSize);
        }
        let found = self.bitmap.bounded_find_and_set(block_count, self.num_blocks);
        match found {
            Err(e) => Err(e),
            Ok(start) => {
                proof {
                    lemma_count_set_write_range(
                        old(self).bitmap@,
                        start as int,
                        start + block_count,
                    );
                    assert forall|i: int|
                        self.num_blocks <= i < self.bitmap@.len() implies !self.bitmap@[i] by {}
                    assert(start * self.block_size as int <= self.num_blocks as int
                        * self.block_size as int && (start + block_count) * self.block_size as int
                        <= self.num_blocks as int * self.block_size as int && start
                        * self.block_size as int + block_count * self.block_size as int == (start
                        + block_count) * self.block_size as int) by (nonlinear_arith)
                        requires 0 <= start && start + block_count <= self.num_blocks as int
                            && self.block_size >= 1,
                    ;
                }
                Ok(IOVec::new(self.blocks.as_mut() + start * self.block_size, block_count * self.block_size))
            },
        }
    }

    /// Hands a region back to the allocator, clearing each covered block's
    /// bit in turn with the checked clear. Fails with `Unaligned` when the
    /// region's offset or length does not match the block granularity, and
    /// with `InvalidSize` when it covers more blocks than are used or than
    /// exist. A failing clear mid-run (a block that was not marked used, or
    /// one past the bitmap) stops the walk at once and reports it, leaving
    /// the blocks after the failure point still marked used — a known
    /// partial-failure gap, reported rather than patched.
    pub fn free(&mut self, iov: IOVec) -> (r: Result<(), Error>)
        requires
            old(self).inv(),
            iov.ptr >= old(self).spec_base(),
        ensures
            final(self).inv(),
            final(self).spec_base() == old(self).spec_base(),
            final(self).spec_block_size() == old(self).spec_block_size(),
            final(self).spec_blocks() == old(self).spec_blocks(),
            final(self).occupancy().len() == old(self).occupancy().len(),
            !old(self).spec_aligned(iov) ==> r == Err::<(), Error>(Error::Unaligned) && final(self).occupancy() == old(self).occupancy() && final(self).spec_used_blocks() == old(self).spec_used_blocks(),
            (old(self).spec_aligned(iov) && (old(self).spec_free_count(iov) > old(self).spec_used_blocks() || old(self).spec_free_count(iov) > old(self).spec_blocks()))
                ==> r == Err::<(), Error>(Error::InvalidSize) && final(self).occupancy() == old(self).occupancy() && final(self).spec_used_blocks() == old(self).spec_used_blocks(),
            (old(self).spec_aligned(iov) && old(self).spec_free_count(iov) <= old(self).spec_used_blocks() && old(self).spec_free_count(iov) <= old(self).spec_blocks())
                ==> {
                let fb = old(self).spec_first_block(iov);
                let num = old(self).spec_free_count(iov);
                let occ = old(self).occupancy();
                if freeable(occ, fb, num) {
                    r is Ok && final(self).occupancy() == write_bits_range(occ, fb, fb + num, false)
                        && final(self).spec_used_blocks() == old(self).spec_used_blocks() - num
                } else {
                    exists|j: int|
                        0 <= j < num && (forall|t: int|
                            fb <= t < fb + j ==> t < occ.len() && #[trigger] occ[t]) && !(fb + j
                            < occ.len() && occ[fb + j]) && #[trigger] write_bits_range(
                            occ,
                            fb,
                            fb + j,
                            false,
                        ) == final(self).occupancy() && final(self).spec_used_blocks() == old(self).spec_used_blocks() - j && r == Err::<(), Error>(
                            if fb + j >= occ.len() {
                                Error::OutOfRange
                            } else {
                                Error::AlreadyClear
                            },
                        )
                }
            },
    {
        let offset = iov.ptr - self.blocks.convert_ptr();
        if offset % self.block_size != 0 {
            return Err(Error::Unaligned);
        }
        let first_block = offset / self.block_size;
        if iov.size % self.block_size != 0 {
            return Err(Error::Unaligned);
        }
        let num_blocks = iov.size / self.block_size;
        if num_blocks > self.bitmap.used() {
            return Err(Error::InvalidSize);
        }
        if num_blocks > self.num_blocks {
            return Err(Error::InvalidSize);
        }
        let ghost occ0 = self.bitmap@;
        let ghost used0 = self.bitmap.spec_used() as int;
        proof {
            crate::bitmap::lemma_total_fits(&self.bitmap);
        }
        let mut i: usize = 0;
        while i < num_blocks
            invariant
                old(self).inv(),
                old(self).spec_aligned(iov),
                iov.ptr >= old(self).spec_base(),
                self.bitmap.wf(),
                self.bitmap.synced(),
                occ0.len() <= usize::MAX,
                num_blocks as int <= used0,
                num_blocks <= old(self).num_blocks,
                self.block_size == old(self).block_size,
                self.num_blocks == old(self).num_blocks,
                self.blocks == old(self).blocks,
                i <= num_blocks,
                num_blocks as int == old(self).spec_free_count(iov),
                first_block as int == old(self).spec_first_block(iov),
                occ0 == old(self).occupancy(),
                used0 == old(self).spec_used_blocks(),
                self.bitmap@.len() == occ0.len(),
                forall|t: int|
                    first_block <= t < first_block + i ==> t < occ0.len() && #[trigger] occ0[t],
                self.bitmap@ == write_bits_range(occ0, first_block as int, first_block + i, false),
                self.bitmap.spec_used() == used0 - i,
                i > 0 ==> first_block + i <= occ0.len(),
                forall|p: int| self.num_blocks <= p < self.bitmap@.len() ==> !self.bitmap@[p],
            decreases num_blocks - i,
        {
            let idx = first_block + i;
            proof {
                if idx < self.bitmap@.len() && self.bitmap@[idx as int] {
                    lemma_count_set_update(self.bitmap@, idx as int, false);
                }
            }
            let ghost occ_before = self.bitmap@;
            match self.bitmap.checked_clear(idx) {
                Ok(()) => {
                    proof {
                        lemma_count_set_update(occ_before, idx as int, false);
                        assert(self.bitmap@ =~= write_bits_range(
                            occ0,
                            first_block as int,
                            first_block + (i + 1),
                            false,
                        ));
                        assert(occ0[first_block + i]);
                    }
                },
                Err(e) => {
                    proof {
                        let fb = first_block as int;
                        let num = num_blocks as int;
                        assert(self.bitmap@[fb + i] == occ0[fb + i] || fb + i >= occ0.len());
                        assert(!(fb + i < occ0.len() && occ0[fb + i]));
                        assert(!freeable(occ0, fb, num)) by {
                            if freeable(occ0, fb, num) {
                                let t = fb + i;
                                let w = occ0[t];
                                assert(occ0[t] == w);
                                assert(fb <= t < fb + num);
                                assert(t < occ0.len());
                                assert(occ0[t]);
                            }
                        }
                        assert(0 <= i < num && (forall|t: int|
                            fb <= t < fb + i ==> t < occ0.len() && #[trigger] occ0[t]) && !(fb
                            + i < occ0.len() && occ0[fb + i]) && #[trigger] write_bits_range(
                            occ0,
                            fb,
                            fb + i,
                            false,
                        ) == self.bitmap@ && self.bitmap.spec_used() == used0 - i && e == (
                        if fb + i >= occ0.len() {
                            Error::OutOfRange
                        } else {
                            Error::AlreadyClear
                        }));
                    }
                    return Err(e);
                },
            }
            i = i + 1;
        }
        Ok(())
    }

    /// The total number of managed blocks.
    pub fn blocks(&self) -> (r: usize)
        ensures
            r == self.spec_blocks(),
    {
        self.num_blocks
    }

    /// The number of blocks currently free: the bitmap's free bits minus its
    /// padding bits beyond the managed blocks.
    pub fn free_blocks(&self) -> (r: usize)
        requires
            self.inv(),
        ensures
            r == self.spec_blocks() - self.spec_used_blocks(),
    {
        proof {
            lemma_count_set_le_len(self.bitmap@);
            lemma_count_set_bound(self.bitmap@, self.num_blocks as int);
        }
        self.bitmap.free() - (self.bitmap.count() - self.num_blocks)
    }

    /// The number of blocks currently marked used.
    pub fn used_blocks(&self) -> (r: usize)
        ensures
            r == self.spec_used_blocks(),
    {
        self.bitmap.used()
    }
}

} // verus!

