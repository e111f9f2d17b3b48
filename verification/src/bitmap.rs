//! A fixed-capacity bit vector with used/free accounting and bounded
//! contiguous-run search, backing the block allocator.
//!
//! The unchecked `set` and `clear` adjust the `used` counter without looking
//! at the bit's prior state: setting an already-set bit double-counts, and the
//! counter then no longer matches the stored bits. That sharp edge is kept
//! deliberately — `find_and_set` relies on the unchecked fast path, and the
//! checked variants exist for callers who want the guard.
//!
//! The structure performs no internal locking; on a preemptible target every
//! mutating call must be protected externally by the caller.

use vstd::prelude::*;
use vstd::arithmetic::div_mod::lemma_fundamental_div_mod;
use crate::errors::Error;
use crate::memory::IOVec;

verus! {

/// Whether bit `k` of `byte` is set; bit 0 is the least significant.
pub open spec fn byte_bit(byte: u8, k: int) -> bool
    recommends
        0 <= k < 8,
{
    (byte >> (k as u8)) & 1u8 == 1u8
}

/// Bit `i` of a byte string, byte-major then bit-minor.
pub open spec fn bits_of(bytes: Seq<u8>, i: int) -> bool
    recommends
        0 <= i < bytes.len() * 8,
{
    byte_bit(bytes[i / 8], i % 8)
}

/// The bit string of a byte string, as a boolean sequence.
pub open spec fn bit_view(bytes: Seq<u8>) -> Seq<bool> {
    Seq::new((bytes.len() * 8) as nat, |i: int| bits_of(bytes, i))
}

/// How many bits of `bm` are set.
pub open spec fn count_set(bm: Seq<bool>) -> nat
    decreases bm.len(),
{
    if bm.len() == 0 {
        0
    } else {
        count_set(bm.drop_last()) + if bm.last() {
            1nat
        } else {
            0nat
        }
    }
}

/// `count` contiguous clear bits start at `start`.
pub open spec fn clear_run(bm: Seq<bool>, start: int, count: int) -> bool {
    0 <= start && start + count <= bm.len() && forall|i: int| start <= i < start + count ==> !bm[i]
}

/// The bits of `bm` in `[start, end)` forced to `v`, everything else kept.
pub open spec fn write_bits_range(bm: Seq<bool>, start: int, end: int, v: bool) -> Seq<bool> {
    Seq::new(bm.len(), |i: int| if start <= i < end { v } else { bm[i] })
}

/// Where a range walk beginning at `index` over `count` bits actually stops
/// on a bitmap of `len` bits: at `index + count` when that is in bounds, at
/// `len` when the walk starts in bounds but runs off the end, and at `index`
/// itself (nothing visited) when even the start is out of bounds.
pub open spec fn range_stop(index: int, count: int, len: int) -> int {
    if index + count <= len {
        index + count
    } else if index <= len {
        len
    } else {
        index
    }
}

/// Setting or clearing one bit of one byte: the chosen bit obeys the mask
/// and every other bit of the byte keeps its value.
proof fn lemma_byte_set_bit(b: u8, k: u8)
    by (bit_vector)
    requires
        k < 8,
    ensures
        ((b | (1u8 << k)) >> k) & 1u8 == 1u8,
        forall|j: u8| j < 8 && j != k ==> ((b | (1u8 << k)) >> j) & 1u8 == (b >> j) & 1u8,
{
}

proof fn lemma_byte_clear_bit(b: u8, k: u8)
    by (bit_vector)
    requires
        k < 8,
    ensures
        ((b & !(1u8 << k)) >> k) & 1u8 == 0u8,
        forall|j: u8| j < 8 && j != k ==> ((b & !(1u8 << k)) >> j) & 1u8 == (b >> j) & 1u8,
{
}

/// Testing one bit with a mask agrees with the shifted-bit reading.
proof fn lemma_byte_test_bit(b: u8, k: u8)
    by (bit_vector)
    requires
        k < 8,
    ensures
        (b & (1u8 << k)) > 0 <==> ((b >> k) & 1u8 == 1u8),
{
}

/// A zero byte has no bit set.
proof fn lemma_zero_byte(k: u8)
    by (bit_vector)
    requires
        k < 8,
    ensures
        (0u8 >> k) & 1u8 == 0u8,
{
}

/// A bit index splits into its byte index and bit offset.
proof fn lemma_bit_addr(i: int)
    requires
        i >= 0,
    ensures
        i == 8 * (i / 8) + i % 8,
        0 <= i % 8 < 8,
        i / 8 >= 0,
{
    lemma_fundamental_div_mod(i, 8);
}

/// Replacing the byte that holds bit `i` with one that flips only that bit
/// updates the bit view at `i` alone.
proof fn lemma_bit_view_update(bytes: Seq<u8>, nb: u8, i: int, v: bool)
    requires
        0 <= i < bytes.len() * 8,
        byte_bit(nb, i % 8) == v,
        forall|j: int| 0 <= j < 8 && j != i % 8 ==> byte_bit(nb, j) == byte_bit(bytes[i / 8], j),
    ensures
        bit_view(bytes.update(i / 8, nb)) =~= bit_view(bytes).update(i, v),
{
    lemma_bit_addr(i);
    assert(i / 8 < bytes.len()) by (nonlinear_arith)
        requires i < bytes.len() * 8 && i >= 0,
    ;
    let updated = bytes.update(i / 8, nb);
    assert forall|p: int| 0 <= p < bytes.len() * 8 implies bit_view(updated)[p] == bit_view(
        bytes,
    ).update(i, v)[p] by {
        lemma_bit_addr(p);
        assert(p / 8 < bytes.len()) by (nonlinear_arith)
            requires p < bytes.len() * 8 && p >= 0,
        ;
        if p == i {
        } else if p / 8 == i / 8 {
            assert(p % 8 != i % 8);
        } else {
        }
    }
}

/// Updating one position changes the set-bit count by the difference between
/// the new and the old value there.
pub proof fn lemma_count_set_update(bm: Seq<bool>, i: int, v: bool)
    requires
        0 <= i < bm.len(),
    ensures
        count_set(bm.update(i, v)) == count_set(bm) + (if v {
            1int
        } else {
            0int
        }) - (if bm[i] {
            1int
        } else {
            0int
        }),
    decreases bm.len(),
{
    let upd = bm.update(i, v);
    if i == bm.len() - 1 {
        assert(upd.drop_last() =~= bm.drop_last());
    } else {
        lemma_count_set_update(bm.drop_last(), i, v);
        assert(upd.drop_last() =~= bm.drop_last().update(i, v));
        assert(upd.last() == bm.last());
    }
}

/// A bitmap with no set bit counts zero.
pub proof fn lemma_count_set_all_clear(bm: Seq<bool>)
    requires
        forall|i: int| 0 <= i < bm.len() ==> !bm[i],
    ensures
        count_set(bm) == 0,
    decreases bm.len(),
{
    if bm.len() > 0 {
        lemma_count_set_all_clear(bm.drop_last());
    }
}

/// The set-bit count never exceeds the length.
pub proof fn lemma_count_set_le_len(bm: Seq<bool>)
    ensures
        count_set(bm) <= bm.len(),
    decreases bm.len(),
{
    if bm.len() > 0 {
        lemma_count_set_le_len(bm.drop_last());
    }
}

/// Setting a stretch of clear bits raises the set-bit count by exactly the
/// length of the stretch.
pub proof fn lemma_count_set_write_range(bm: Seq<bool>, start: int, end: int)
    requires
        0 <= start <= end <= bm.len(),
        forall|i: int| start <= i < end ==> !bm[i],
    ensures
        count_set(write_bits_range(bm, start, end, true)) == count_set(bm) + (end - start),
    decreases end - start,
{
    if end == start {
        assert(write_bits_range(bm, start, end, true) =~= bm);
    } else {
        lemma_count_set_write_range(bm, start, end - 1);
        lemma_count_set_update(write_bits_range(bm, start, end - 1, true), end - 1, true);
        assert(write_bits_range(bm, start, end, true) =~= write_bits_range(
            bm,
            start,
            end - 1,
            true,
        ).update(end - 1, true));
        assert(!write_bits_range(bm, start, end - 1, true)[end - 1]);
    }
}

/// Setting a bit makes `is_set` report it, and clearing the same bit
/// afterwards leaves every other bit exactly as it was, with the bit itself
/// clear. Together with the used-counter clauses of `set` and `clear` (up by
/// one, then down by one) the pair of calls returns `used()` to its prior
/// value.
pub proof fn lemma_set_then_clear_restores(bm: Seq<bool>, i: int)
    requires
        0 <= i < bm.len(),
    ensures
        bm.update(i, true)[i],
        !bm.update(i, true).update(i, false)[i],
        forall|j: int|
            0 <= j < bm.len() && j != i ==> bm.update(i, true).update(i, false)[j] == bm[j],
{
}

/// After a successful checked set the bit reads as set, so a second checked
/// set of the same bit meets exactly the condition under which
/// `checked_set` reports `AlreadySet`; the checked clear mirrors this with
/// `AlreadyClear`.
pub proof fn lemma_checked_mutation_conflict(bm: Seq<bool>, i: int)
    requires
        0 <= i < bm.len(),
    ensures
        bm.update(i, true)[i],
        !bm.update(i, false)[i],
{
}

/// A well-formed bitmap's bit count fits in the machine word that stores it.
pub proof fn lemma_total_fits(bm: &Bitmap)
    requires
        bm.wf(),
    ensures
        bm@.len() <= usize::MAX,
{
}

/// A fixed-capacity bit vector over owned byte storage, with a running count
/// of set bits.
pub struct Bitmap {
    mem: Vec<u8>,
    total: usize,
    used: usize,
}

impl View for Bitmap {
    type V = Seq<bool>;

    closed spec fn view(&self) -> Seq<bool> {
        bit_view(self.mem@)
    }
}

impl Bitmap {
    /// The structural invariant: the bit total matches the byte storage.
    pub closed spec fn wf(&self) -> bool {
        self.total == self.mem@.len() * 8
    }

    /// The running used-bits counter. Unchecked mutation can drive it away
    /// from the true count of set bits; `synced` says it has not.
    pub closed spec fn spec_used(&self) -> usize {
        self.used
    }

    /// The owned byte storage behind the bits.
    pub closed spec fn spec_bytes(&self) -> Seq<u8> {
        self.mem@
    }

    /// The used counter agrees with the stored bits: the state every
    /// well-behaved caller (and the slab allocator) maintains.
    pub open spec fn synced(&self) -> bool {
        self.spec_used() == count_set(self@)
    }

    /// Creates a bitmap sized to a region given as a raw address and length.
    /// The bits start out cleared. The storage behind the bits is owned by
    /// the bitmap itself; the region's address is not retained.
    pub fn new(addr: usize, size: usize) -> (r: Bitmap)
        requires
            addr + size <= usize::MAX,
            size <= usize::MAX / 8,
        ensures
            r.wf(),
            r@.len() == size * 8,
            r.spec_used() == 0,
            forall|i: int| 0 <= i < r@.len() ==> !r@[i],
            r.synced(),
    {
        Bitmap::from_iov(IOVec::new(addr, size))
    }

    /// Consumes a region descriptor and returns a bitmap with one bit per
    /// bit of the region, all cleared.
    pub fn from_iov(iov: IOVec) -> (r: Bitmap)
        requires
            iov.size <= usize::MAX / 8,
        ensures
            r.wf(),
            r@.len() == iov.size * 8,
            r.spec_used() == 0,
            forall|i: int| 0 <= i < r@.len() ==> !r@[i],
            r.synced(),
    {
        let mut mem: Vec<u8> = Vec::new();
        let mut i: usize = 0;
        while i < iov.size
            invariant
                i <= iov.size,
                mem@.len() == i,
            decreases iov.size - i,
        {
            mem.push(0u8);
            i = i + 1;
        }
        assert(iov.size * 8 <= usize::MAX) by (nonlinear_arith)
            requires iov.size <= usize::MAX / 8,
        ;
        let mut result = Bitmap { mem, total: iov.size * 8, used: 0 };
        result.clear_all();
        result
    }

    /// Clears every bit and resets the used counter; anything previously
    /// recorded in the bitmap is forgotten.
    pub fn clear_all(&mut self)
        requires
            old(self).wf(),
        ensures
            final(self).wf(),
            final(self)@.len() == old(self)@.len(),
            final(self).spec_used() == 0,
            forall|i: int| 0 <= i < final(self)@.len() ==> !final(self)@[i],
            final(self).synced(),
    {
        self.used = 0;
        let len = self.mem.len();
        crate::memory::memset(&mut self.mem, 0, 0, len);
        proof {
            assert forall|i: int| 0 <= i < self@.len() implies !self@[i] by {
                lemma_bit_addr(i);
                assert(i / 8 < self.mem@.len()) by (nonlinear_arith)
                    requires i < self.mem@.len() * 8 && i >= 0,
                ;
                lemma_zero_byte((i % 8) as u8);
            }
            lemma_count_set_all_clear(self@);
        }
    }

    /// The total number of bits.
    pub fn count(&self) -> (r: usize)
        requires
            self.wf(),
        ensures
            r == self@.len(),
    {
        self.total
    }

    /// The running used-bits counter.
    pub fn used(&self) -> (r: usize)
        ensures
            r == self.spec_used(),
    {
        self.used
    }

    /// Total minus used. The difference underflows once unchecked mutation
    /// has pushed the counter past the total, so that state is excluded.
    pub fn free(&self) -> (r: usize)
        requires
            self.wf(),
            self.spec_used() <= self@.len(),
        ensures
            r == self@.len() - self.spec_used(),
    {
        self.total - self.used
    }

    /// Reads bit `index`. No bounds check is made: staying inside the bitmap
    /// is the caller's contract.
    pub fn is_set(&self, index: usize) -> (r: bool)
        requires
            self.wf(),
            index < self@.len(),
        ensures
            r == self@[index as int],
    {
        proof {
            lemma_bit_addr(index as int);
            assert(index as int / 8 < self.mem@.len()) by (nonlinear_arith)
                requires (index as int) < self.mem@.len() * 8 && index >= 0,
            ;
        }
        let val = self.mem[index / 8];
        let k: u8 = (index % 8) as u8;
        proof {
            lemma_byte_test_bit(val, k);
        }
        (val & (1u8 << k)) > 0
    }

    /// One byte of the backing storage, exposing how the bits are packed:
    /// bit `index * 8 + k` of the bitmap is bit `k` of the returned byte.
    pub fn byte_at(&self, index: usize) -> (r: u8)
        requires
            self.wf(),
            (index as int) * 8 < self@.len(),
        ensures
            forall|k: int| 0 <= k < 8 ==> byte_bit(r, k) == self@[index as int * 8 + k],
    {
        proof {
            assert((index as int) < self.mem@.len()) by (nonlinear_arith)
                requires (index as int) * 8 < self.mem@.len() * 8,
            ;
            assert forall|k: int| 0 <= k < 8 implies bits_of(self.mem@, index as int * 8 + k)
                == byte_bit(self.mem@[index as int], k) by {
                assert((index as int * 8 + k) / 8 == index as int && (index as int * 8 + k) % 8
                    == k) by (nonlinear_arith)
                    requires 0 <= k < 8 && index >= 0,
                ;
            }
            assert((index as int) * 8 + 8 <= self.mem@.len() * 8) by (nonlinear_arith)
                requires (index as int) < self.mem@.len(),
            ;
        }
        self.mem[index]
    }

    /// Sets bit `index` and bumps the used counter — without looking at the
    /// bit's prior state, so setting an already-set bit double-counts.
    /// Fails with `OutOfRange` when the index is outside the bitmap.
    pub fn set(&mut self, index: usize) -> (r: Result<(), Error>)
        requires
            old(self).wf(),
            index < old(self)@.len() ==> old(self).spec_used() < usize::MAX,
        ensures
            final(self).wf(),
            final(self)@.len() == old(self)@.len(),
            index < old(self)@.len() ==> r is Ok && final(self)@ == old(self)@.update(
                index as int,
                true,
            ) && final(self).spec_used() == old(self).spec_used() + 1,
            index >= old(self)@.len() ==> r == Err::<(), Error>(Error::OutOfRange) && final(self)@ == old(self)@ && final(self).spec_used() == old(self).spec_used(),
    {
        if index >= self.total {
            return Err(Error::OutOfRange);
        }
        proof {
            lemma_bit_addr(index as int);
            assert(index as int / 8 < self.mem@.len()) by (nonlinear_arith)
                requires (index as int) < self.mem@.len() * 8 && index >= 0,
            ;
        }
        let byte_i = index / 8;
        let k: u8 = (index % 8) as u8;
        let b = self.mem[byte_i];
        let nb = b | (1u8 << k);
        self.mem.set(byte_i, nb);
        self.used = self.used + 1;
        proof {
            lemma_byte_set_bit(b, k);
            assert forall|j: int| 0 <= j < 8 && j != index as int % 8 implies byte_bit(nb, j)
                == byte_bit(b, j) by {
                let ju = j as u8;
                assert((nb >> ju) & 1u8 == (b >> ju) & 1u8);
            }
            lemma_bit_view_update(old(self).spec_bytes(), nb, index as int, true);
            assert(self@ =~= old(self)@.update(index as int, true));
        }
        Ok(())
    }

    /// Clears bit `index` and drops the used counter — again without looking
    /// at the prior state, so clearing an already-clear bit double-counts
    /// downwards. Fails with `OutOfRange` when the index is outside the
    /// bitmap.
    pub fn clear(&mut self, index: usize) -> (r: Result<(), Error>)
        requires
            old(self).wf(),
            index < old(self)@.len() ==> old(self).spec_used() >= 1,
        ensures
            final(self).wf(),
            final(self)@.len() == old(self)@.len(),
            index < old(self)@.len() ==> r is Ok && final(self)@ == old(self)@.update(
                index as int,
                false,
            ) && final(self).spec_used() == old(self).spec_used() - 1,
            index >= old(self)@.len() ==> r == Err::<(), Error>(Error::OutOfRange) && final(self)@ == old(self)@ && final(self).spec_used() == old(self).spec_used(),
    {
        if index >= self.total {
            return Err(Error::OutOfRange);
        }
        proof {
            lemma_bit_addr(index as int);
            assert(index as int / 8 < self.mem@.len()) by (nonlinear_arith)
                requires (index as int) < self.mem@.len() * 8 && index >= 0,
            ;
        }
        let byte_i = index / 8;
        let k: u8 = (index % 8) as u8;
        let b = self.mem[byte_i];
        let nb = b & !(1u8 << k);
        self.mem.set(byte_i, nb);
        self.used = self.used - 1;
        proof {
            lemma_byte_clear_bit(b, k);
            assert forall|j: int| 0 <= j < 8 && j != index as int % 8 implies byte_bit(nb, j)
                == byte_bit(b, j) by {
                let ju = j as u8;
                assert((nb >> ju) & 1u8 == (b >> ju) & 1u8);
            }
            lemma_bit_view_update(old(self).spec_bytes(), nb, index as int, false);
            assert(self@ =~= old(self)@.update(index as int, false));
        }
        Ok(())
    }

    /// Like `set`, but fails with `AlreadySet` when the bit is already set,
    /// leaving both the bit and the used counter untouched.
    pub fn checked_set(&mut self, index: usize) -> (r: Result<(), Error>)
        requires
            old(self).wf(),
            (index < old(self)@.len() && !old(self)@[index as int]) ==> old(self).spec_used()
                < usize::MAX,
        ensures
            final(self).wf(),
            final(self)@.len() == old(self)@.len(),
            index >= old(self)@.len() ==> r == Err::<(), Error>(Error::OutOfRange) && final(self)@ == old(self)@ && final(self).spec_used() == old(self).spec_used(),
            index < old(self)@.len() && old(self)@[index as int] ==> r == Err::<(), Error>(
                Error::AlreadySet,
            ) && final(self)@ == old(self)@ && final(self).spec_used() == old(self).spec_used(),
            index < old(self)@.len() && !old(self)@[index as int] ==> r is Ok && final(self)@
                == old(self)@.update(index as int, true) && final(self).spec_used() == old(self).spec_used() + 1,
    {
        if index >= self.total {
            return Err(Error::OutOfRange);
        }
        proof {
            lemma_bit_addr(index as int);
            assert(index as int / 8 < self.mem@.len()) by (nonlinear_arith)
                requires (index as int) < self.mem@.len() * 8 && index >= 0,
            ;
        }
        let byte_i = index / 8;
        let k: u8 = (index % 8) as u8;
        let b = self.mem[byte_i];
        let mask: u8 = 1u8 << k;
        proof {
            lemma_byte_test_bit(b, k);
        }
        if b & mask != 0 {
            return Err(Error::AlreadySet);
        }
        let nb = b | mask;
        self.mem.set(byte_i, nb);
        self.used = self.used + 1;
        proof {
            lemma_byte_set_bit(b, k);
            assert forall|j: int| 0 <= j < 8 && j != index as int % 8 implies byte_bit(nb, j)
                == byte_bit(b, j) by {
                let ju = j as u8;
                assert((nb >> ju) & 1u8 == (b >> ju) & 1u8);
            }
            lemma_bit_view_update(old(self).spec_bytes(), nb, index as int, true);
            assert(self@ =~= old(self)@.update(index as int, true));
        }
        Ok(())
    }

    /// Like `clear`, but fails with `AlreadyClear` when the bit is already
    /// clear, leaving both the bit and the used counter untouched.
    pub fn checked_clear(&mut self, index: usize) -> (r: Result<(), Error>)
        requires
            old(self).wf(),
            (index < old(self)@.len() && old(self)@[index as int]) ==> old(self).spec_used() >= 1,
        ensures
            final(self).wf(),
            final(self)@.len() == old(self)@.len(),
            index >= old(self)@.len() ==> r == Err::<(), Error>(Error::OutOfRange) && final(self)@ == old(self)@ && final(self).spec_used() == old(self).spec_used(),
            index < old(self)@.len() && !old(self)@[index as int] ==> r == Err::<(), Error>(
                Error::AlreadyClear,
            ) && final(self)@ == old(self)@ && final(self).spec_used() == old(self).spec_used(),
            index < old(self)@.len() && old(self)@[index as int] ==> r is Ok && final(self)@
                == old(self)@.update(index as int, false) && final(self).spec_used() == old(self).spec_used() - 1,
    {
        if index >= self.total {
            return Err(Error::OutOfRange);
        }
        proof {
            lemma_bit_addr(index as int);
            assert(index as int / 8 < self.mem@.len()) by (nonlinear_arith)
                requires (index as int) < self.mem@.len() * 8 && index >= 0,
            ;
        }
        let byte_i = index / 8;
        let k: u8 = (index % 8) as u8;
        let b = self.mem[byte_i];
        let mask: u8 = 1u8 << k;
        proof {
            lemma_byte_test_bit(b, k);
        }
        if b & mask == 0 {
            return Err(Error::AlreadyClear);
        }
        let nb = b & !mask;
        self.mem.set(byte_i, nb);
        self.used = self.used - 1;
        proof {
            lemma_byte_clear_bit(b, k);
            assert forall|j: int| 0 <= j < 8 && j != index as int % 8 implies byte_bit(nb, j)
                == byte_bit(b, j) by {
                let ju = j as u8;
                assert((nb >> ju) & 1u8 == (b >> ju) & 1u8);
            }
            lemma_bit_view_update(old(self).spec_bytes(), nb, index as int, false);
            assert(self@ =~= old(self)@.update(index as int, false));
        }
        Ok(())
    }

    /// Sets the `count` bits starting at `index`, one at a time with the
    /// unchecked `set`. Not transactional: the walk stops at the first index
    /// outside the bitmap and reports `OutOfRange`, leaving every bit before
    /// the failure point set (and counted).
    pub fn set_range(&mut self, index: usize, count: usize) -> (r: Result<(), Error>)
        requires
            old(self).wf(),
            index + count <= usize::MAX,
            old(self).spec_used() + range_stop(
                index as int,
                count as int,
                old(self)@.len() as int,
            ) - index <= usize::MAX,
        ensures
            final(self).wf(),
            final(self)@.len() == old(self)@.len(),
            r is Ok <==> (count == 0 || index + count <= old(self)@.len()),
            r is Err ==> r == Err::<(), Error>(Error::OutOfRange),
            final(self)@ == write_bits_range(
                old(self)@,
                index as int,
                range_stop(index as int, count as int, old(self)@.len() as int),
                true,
            ),
            final(self).spec_used() == old(self).spec_used() + range_stop(
                index as int,
                count as int,
                old(self)@.len() as int,
            ) - index,
    {
        let ghost stop = range_stop(index as int, count as int, old(self)@.len() as int);
        let end = index + count;
        let mut i: usize = index;
        while i < end
            invariant
                self.wf(),
                self@.len() == old(self)@.len(),
                index <= i <= end,
                end == index + count,
                stop == range_stop(index as int, count as int, old(self)@.len() as int),
                old(self).spec_used() + stop - index <= usize::MAX,
                i > index ==> i <= old(self)@.len(),
                self@ == write_bits_range(old(self)@, index as int, i as int, true),
                self.spec_used() == old(self).spec_used() + i - index,
            decreases end - i,
        {
            proof {
                if (i as int) < self@.len() {
                    assert(i < stop);
                }
            }
            match self.set(i) {
                Ok(()) => {
                    proof {
                        assert(self@ =~= write_bits_range(
                            old(self)@,
                            index as int,
                            i + 1,
                            true,
                        ));
                    }
                },
                Err(e) => {
                    proof {
                        assert(i >= old(self)@.len());
                        assert(stop == i);
                    }
                    return Err(e);
                },
            }
            i = i + 1;
        }
        proof {
            assert(stop == end);
            assert(self@ =~= write_bits_range(old(self)@, index as int, stop, true));
        }
        Ok(())
    }

    /// Clears the `count` bits starting at `index`, one at a time with the
    /// unchecked `clear`. Not transactional, exactly like `set_range`.
    pub fn clear_range(&mut self, index: usize, count: usize) -> (r: Result<(), Error>)
        requires
            old(self).wf(),
            index + count <= usize::MAX,
            old(self).spec_used() >= range_stop(
                index as int,
                count as int,
                old(self)@.len() as int,
            ) - index,
        ensures
            final(self).wf(),
            final(self)@.len() == old(self)@.len(),
            r is Ok <==> (count == 0 || index + count <= old(self)@.len()),
            r is Err ==> r == Err::<(), Error>(Error::OutOfRange),
            final(self)@ == write_bits_range(
                old(self)@,
                index as int,
                range_stop(index as int, count as int, old(self)@.len() as int),
                false,
            ),
            final(self).spec_used() == old(self).spec_used() - (range_stop(
                index as int,
                count as int,
                old(self)@.len() as int,
            ) - index),
    {
        let ghost stop = range_stop(index as int, count as int, old(self)@.len() as int);
        let end = index + count;
        let mut i: usize = index;
        while i < end
            invariant
                self.wf(),
                self@.len() == old(self)@.len(),
                index <= i <= end,
                end == index + count,
                stop == range_stop(index as int, count as int, old(self)@.len() as int),
                old(self).spec_used() >= stop - index,
                i > index ==> i <= old(self)@.len(),
                self@ == write_bits_range(old(self)@, index as int, i as int, false),
                self.spec_used() == old(self).spec_used() - (i - index),
            decreases end - i,
        {
            proof {
                if (i as int) < self@.len() {
                    assert(i < stop);
                }
            }
            match self.clear(i) {
                Ok(()) => {
                    proof {
                        assert(self@ =~= write_bits_range(
                            old(self)@,
                            index as int,
                            i + 1,
                            false,
                        ));
                    }
                },
                Err(e) => {
                    proof {
                        assert(i >= old(self)@.len());
                        assert(stop == i);
                    }
                    return Err(e);
                },
            }
            i = i + 1;
        }
        proof {
            assert(stop == end);
            assert(self@ =~= write_bits_range(old(self)@, index as int, stop, false));
        }
        Ok(())
    }

    /// Scans for the first run of `count` contiguous clear bits, in bit
    /// order, and returns the index of its lowest bit. Ties always go to the
    /// lowest-index run. Asking for a run of zero bits finds nothing.
    pub fn find(&self, count: usize) -> (r: Option<usize>)
        requires
            self.wf(),
        ensures
            count == 0 ==> r is None,
            r matches Some(start) ==> count > 0 && clear_run(self@, start as int, count as int)
                && (forall|j: int| 0 <= j < start ==> !clear_run(self@, j, count as int)),
            (r is None && count > 0) ==> (forall|j: int| !clear_run(self@, j, count as int)),
    {
        let mut contig: usize = 0;
        let mut first_contig: usize = 0;
        let total = self.count();
        let mut p: usize = 0;
        while p < total
            invariant
                self.wf(),
                total == self@.len(),
                p <= total,
                contig <= p,
                count > 0 ==> contig < count,
                contig > 0 ==> first_contig + contig == p,
                forall|q: int| p - contig <= q < p ==> !self@[q],
                count > 0 ==> (forall|j: int|
                    0 <= j < p - contig ==> !clear_run(self@, j, count as int)),
            decreases total - p,
        {
            if self.is_set(p) {
                proof {
                    if count > 0 {
                        assert forall|j: int| 0 <= j < p + 1 implies !clear_run(
                            self@,
                            j,
                            count as int,
                        ) by {
                            if p - contig <= j {
                                if clear_run(self@, j, count as int) {
                                    if j + count <= p {
                                        assert(count <= p - j <= contig);
                                    } else {
                                        assert(j <= p < j + count);
                                        assert(!self@[p as int]);
                                    }
                                }
                            }
                        }
                    }
                }
                contig = 0;
            } else {
                if contig == 0 {
                    first_contig = p;
                }
                contig = contig + 1;
                if contig == count {
                    proof {
                        assert forall|q: int|
                            first_contig <= q < first_contig + count implies !self@[q] by {}
                    }
                    return Some(first_contig);
                }
            }
            p = p + 1;
        }
        proof {
            if count > 0 {
                assert forall|j: int| !clear_run(self@, j, count as int) by {
                    if 0 <= j < total - contig {
                    } else if clear_run(self@, j, count as int) {
                        assert(total - contig <= j);
                        assert(j + count <= total);
                        assert(count <= total - j <= contig);
                    }
                }
            }
        }
        None
    }

    /// Finds the first run of `count` contiguous clear bits and sets it,
    /// returning the index of its lowest bit, or `InsufficientFree` when no
    /// such run exists. The run is set with the unchecked `set`, so safety
    /// under concurrent mutation is on the caller.
    pub fn find_and_set(&mut self, count: usize) -> (r: Result<usize, Error>)
        requires
            old(self).wf(),
            count <= old(self)@.len() ==> old(self).spec_used() + count <= usize::MAX,
        ensures
            final(self).wf(),
            final(self)@.len() == old(self)@.len(),
            r matches Ok(start) ==> count > 0 && clear_run(old(self)@, start as int, count as int)
                && (forall|j: int| 0 <= j < start ==> !clear_run(old(self)@, j, count as int))
                && final(self)@ == write_bits_range(
                old(self)@,
                start as int,
                start + count,
                true,
            ) && final(self).spec_used() == old(self).spec_used() + count,
            r matches Err(e) ==> e == Error::InsufficientFree && (count == 0 || forall|j: int|
                !clear_run(old(self)@, j, count as int)) && final(self)@ == old(self)@ && final(
                self).spec_used() == old(self).spec_used(),
    {
        let found = self.find(count);
        if found.is_none() {
            return Err(Error::InsufficientFree);
        }
        let bit = found.unwrap();
        proof {
            assert(bit + count <= self@.len());
        }
        let result = self.set_range(bit, count);
        if result.is_err() {
            match result {
                Err(e) => Err(e),
                Ok(_) => Ok(bit),
            }
        } else {
            Ok(bit)
        }
    }

    /// Like `find_and_set`, but only accepts a run that ends at or before
    /// `bound`: a bitmap always manages a multiple of eight bits, and the
    /// bound cuts the tail off without storing another size. Fails with
    /// `OutOfBounds` when the bound reaches past the bitmap or when the first
    /// free run ends beyond the bound.
    pub fn bounded_find_and_set(&mut self, count: usize, bound: usize) -> (r: Result<usize, Error>)
        requires
            old(self).wf(),
            count <= old(self)@.len() ==> old(self).spec_used() + count <= usize::MAX,
        ensures
            final(self).wf(),
            final(self)@.len() == old(self)@.len(),
            bound >= old(self)@.len() ==> r == Err::<usize, Error>(Error::OutOfBounds) && final(
                self)@ == old(self)@ && final(self).spec_used() == old(self).spec_used(),
            r matches Ok(start) ==> bound < old(self)@.len() && count > 0 && clear_run(
                old(self)@,
                start as int,
                count as int,
            ) && (forall|j: int| 0 <= j < start ==> !clear_run(old(self)@, j, count as int))
                && start + count <= bound && final(self)@ == write_bits_range(
                old(self)@,
                start as int,
                start + count,
                true,
            ) && final(self).spec_used() == old(self).spec_used() + count,
            bound < old(self)@.len() ==> (r matches Err(e) ==> final(self)@ == old(self)@
                && final(self).spec_used() == old(self).spec_used() && ((e
                == Error::InsufficientFree && (count == 0 || forall|j: int|
                !clear_run(old(self)@, j, count as int))) || (e == Error::OutOfBounds && (exists|
                s: int,
            |
                clear_run(old(self)@, s, count as int) && (forall|j: int|
                    0 <= j < s ==> !clear_run(old(self)@, j, count as int)) && s + count
                    > bound)))),
    {
        if bound >= self.count() {
            return Err(Error::OutOfBounds);
        }
        let found = self.find(count);
        if found.is_none() {
            return Err(Error::InsufficientFree);
        }
        let bit = found.unwrap();
        proof {
            assert(bit + count <= self@.len());
        }
        if bit + count > bound {
            proof {
                assert(clear_run(self@, bit as int, count as int) && (forall|j: int|
                    0 <= j < bit ==> !clear_run(self@, j, count as int)) && bit + count > bound);
            }
            return Err(Error::OutOfBounds);
        }
        let result = self.set_range(bit, count);
        if result.is_err() {
            match result {
                Err(e) => Err(e),
                Ok(_) => Ok(bit),
            }
        } else {
            Ok(bit)
        }
    }
}

} // verus!


