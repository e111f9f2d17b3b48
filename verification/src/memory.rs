//! Raw memory-region descriptors and byte-region primitives.
//!
//! An [`IOVec`] is a non-owning `(address, length)` view: it never owns the
//! storage it describes, and nothing tracks at runtime that the storage
//! outlives the view — that remains the caller's responsibility, as on any
//! bare-metal target. The byte primitives operate on an explicit, owned byte
//! buffer with bounds-checked offsets, which stands in for the span of raw
//! memory that a pointer-based implementation would touch.

use vstd::prelude::*;
use crate::errors::Error;

verus! {

/// Lexicographic tri-state comparison of two equal-length byte sequences:
/// `-1` when `a` orders below `b`, `1` when above, `0` when equal.
pub open spec fn lex_cmp(a: Seq<u8>, b: Seq<u8>) -> int
    recommends
        a.len() == b.len(),
    decreases a.len(),
{
    if a.len() == 0 || b.len() == 0 {
        0
    } else if a[0] < b[0] {
        -1
    } else if a[0] > b[0] {
        1
    } else {
        lex_cmp(a.subrange(1, a.len() as int), b.subrange(1, b.len() as int))
    }
}

/// The comparison is decided by the first differing byte: whatever follows a
/// difference at position `k` cannot change the outcome.
pub proof fn lemma_lex_cmp_first_diff(a: Seq<u8>, b: Seq<u8>, k: int)
    requires
        a.len() == b.len(),
        0 <= k < a.len(),
        forall|i: int| 0 <= i < k ==> a[i] == b[i],
        a[k] != b[k],
    ensures
        lex_cmp(a, b) == if a[k] < b[k] { -1int } else { 1int },
    decreases k,
{
    if k == 0 {
    } else {
        assert(a[0] == b[0]);
        lemma_lex_cmp_first_diff(
            a.subrange(1, a.len() as int),
            b.subrange(1, b.len() as int),
            k - 1,
        );
    }
}

/// Two equal-length regions compare as "equal" exactly when their contents
/// match byte for byte. Together with the contract of `memcpy` this gives
/// the round trip: copying one region onto another and then comparing the
/// two yields "equal".
pub proof fn lemma_lex_cmp_equal(a: Seq<u8>, b: Seq<u8>)
    requires
        a.len() == b.len(),
    ensures
        (lex_cmp(a, b) == 0) <==> a =~= b,
    decreases a.len(),
{
    if a.len() == 0 {
        assert(a =~= b);
    } else {
        lemma_lex_cmp_equal(a.subrange(1, a.len() as int), b.subrange(1, b.len() as int));
        if a[0] == b[0] && a.subrange(1, a.len() as int) =~= b.subrange(1, b.len() as int) {
            assert forall|i: int| 0 <= i < a.len() implies a[i] == b[i] by {
                if i > 0 {
                    assert(a.subrange(1, a.len() as int)[i - 1] == b.subrange(
                        1,
                        b.len() as int,
                    )[i - 1]);
                }
            }
            assert(a =~= b);
        }
        if a =~= b {
            assert(a.subrange(1, a.len() as int) =~= b.subrange(1, b.len() as int));
        }
    }
}

/// Writes `val` to `cnt` bytes of `dest` starting at `offset`; every other
/// byte is left untouched. On hardware this is a volatile (non-elidable)
/// write, for the benefit of memory-mapped storage.
pub fn memset(dest: &mut Vec<u8>, offset: usize, val: u8, cnt: usize)
    requires
        offset + cnt <= old(dest)@.len(),
    ensures
        final(dest)@.len() == old(dest)@.len(),
        forall|j: int| offset <= j < offset + cnt ==> final(dest)@[j] == val,
        forall|j: int|
            0 <= j < final(dest)@.len() && !(offset <= j < offset + cnt) ==> final(dest)@[j]
                == old(dest)@[j],
{
    proof {
        vstd::std_specs::vec::axiom_spec_len(dest);
    }
    let mut i: usize = 0;
    while i < cnt
        invariant
            offset + cnt <= dest@.len(),
            dest@.len() <= usize::MAX,
            dest@.len() == old(dest)@.len(),
            i <= cnt,
            forall|j: int| offset <= j < offset + i ==> dest@[j] == val,
            forall|j: int|
                0 <= j < dest@.len() && !(offset <= j < offset + cnt) ==> dest@[j] == old(
                    dest,
                )@[j],
        decreases cnt - i,
    {
        dest.set(offset + i, val);
        i = i + 1;
    }
}

/// Compares `byte_cnt` bytes of `a` at `a_off` against `b` at `b_off`,
/// walking full `step`-wide chunks first and the remainder byte by byte.
/// The result is the lexicographic tri-state of the two byte ranges, so it
/// does not depend on the chosen step width.
pub fn memcmp_t(
    a: &Vec<u8>,
    a_off: usize,
    b: &Vec<u8>,
    b_off: usize,
    byte_cnt: usize,
    step: usize,
) -> (r: i8)
    requires
        a_off + byte_cnt <= a@.len(),
        b_off + byte_cnt <= b@.len(),
        step == 1 || step == 2 || step == 4 || step == 8,
    ensures
        r as int == lex_cmp(
            a@.subrange(a_off as int, a_off + byte_cnt),
            b@.subrange(b_off as int, b_off + byte_cnt),
        ),
        -1 <= r <= 1,
{
    proof {
        vstd::std_specs::vec::axiom_spec_len(a);
        vstd::std_specs::vec::axiom_spec_len(b);
    }
    let ghost ga = a@.subrange(a_off as int, a_off + byte_cnt);
    let ghost gb = b@.subrange(b_off as int, b_off + byte_cnt);
    let mut pos: usize = 0;
    while byte_cnt - pos >= step
        invariant
            a_off + byte_cnt <= a@.len(),
            b_off + byte_cnt <= b@.len(),
            a@.len() <= usize::MAX,
            b@.len() <= usize::MAX,
            step >= 1,
            pos <= byte_cnt,
            ga == a@.subrange(a_off as int, a_off + byte_cnt),
            gb == b@.subrange(b_off as int, b_off + byte_cnt),
            forall|j: int| 0 <= j < pos ==> ga[j] == gb[j],
        decreases byte_cnt - pos,
    {
        let mut k: usize = 0;
        while k < step
            invariant
                a_off + byte_cnt <= a@.len(),
                b_off + byte_cnt <= b@.len(),
                a@.len() <= usize::MAX,
                b@.len() <= usize::MAX,
                k <= step,
                pos + step <= byte_cnt,
                ga == a@.subrange(a_off as int, a_off + byte_cnt),
                gb == b@.subrange(b_off as int, b_off + byte_cnt),
                forall|j: int| 0 <= j < pos + k ==> ga[j] == gb[j],
            decreases step - k,
        {
            let av = a[a_off + pos + k];
            let bv = b[b_off + pos + k];
            if av != bv {
                proof {
                    lemma_lex_cmp_first_diff(ga, gb, pos + k);
                }
                return if av < bv {
                    -1
                } else {
                    1
                };
            }
            k = k + 1;
        }
        pos = pos + step;
    }
    while pos < byte_cnt
        invariant
            a_off + byte_cnt <= a@.len(),
            b_off + byte_cnt <= b@.len(),
            a@.len() <= usize::MAX,
            b@.len() <= usize::MAX,
            pos <= byte_cnt,
            ga == a@.subrange(a_off as int, a_off + byte_cnt),
            gb == b@.subrange(b_off as int, b_off + byte_cnt),
            forall|j: int| 0 <= j < pos ==> ga[j] == gb[j],
        decreases byte_cnt - pos,
    {
        let av = a[a_off + pos];
        let bv = b[b_off + pos];
        if av != bv {
            proof {
                lemma_lex_cmp_first_diff(ga, gb, pos as int);
            }
            return if av < bv {
                -1
            } else {
                1
            };
        }
        pos = pos + 1;
    }
    proof {
        assert(ga =~= gb);
        lemma_lex_cmp_equal(ga, gb);
    }
    0
}

/// Compares two byte ranges a machine word (eight bytes) at a time; a thin
/// wrapper around `memcmp_t` with the widest step.
pub fn memcmp(a: &Vec<u8>, a_off: usize, b: &Vec<u8>, b_off: usize, byte_cnt: usize) -> (r: i8)
    requires
        a_off + byte_cnt <= a@.len(),
        b_off + byte_cnt <= b@.len(),
    ensures
        r as int == lex_cmp(
            a@.subrange(a_off as int, a_off + byte_cnt),
            b@.subrange(b_off as int, b_off + byte_cnt),
        ),
        -1 <= r <= 1,
{
    memcmp_t(a, a_off, b, b_off, byte_cnt, 8)
}

/// Copies `byte_cnt` bytes within `buf` from `src_off` to `dst_off`. When the
/// two ranges overlap, the copy runs in the direction that preserves the
/// source bytes (memmove semantics); otherwise a straight forward copy is
/// used. Either way the destination ends up holding the bytes the source
/// held before the call, and everything outside the destination range is
/// untouched.
pub fn memcpy(buf: &mut Vec<u8>, dst_off: usize, src_off: usize, byte_cnt: usize)
    requires
        dst_off + byte_cnt <= old(buf)@.len(),
        src_off + byte_cnt <= old(buf)@.len(),
    ensures
        final(buf)@.len() == old(buf)@.len(),
        forall|i: int| 0 <= i < byte_cnt ==> #[trigger] final(buf)@[dst_off + i] == old(buf)@[src_off + i],
        forall|i: int|
            0 <= i < final(buf)@.len() && !(dst_off <= i < dst_off + byte_cnt) ==> final(buf)@[i]
                == old(buf)@[i],
{
    proof {
        vstd::std_specs::vec::axiom_spec_len(buf);
    }
    let overlap = (dst_off < src_off && dst_off + byte_cnt > src_off) || (src_off < dst_off
        && src_off + byte_cnt > dst_off);
    if overlap && src_off < dst_off {
        // Backward copy: the tail of the destination is written first, so
        // every read still sees an original source byte.
        let mut i: usize = byte_cnt;
        while i > 0
            invariant
                dst_off + byte_cnt <= buf@.len(),
                src_off + byte_cnt <= buf@.len(),
                buf@.len() <= usize::MAX,
                src_off < dst_off,
                i <= byte_cnt,
                buf@.len() == old(buf)@.len(),
                forall|j: int| i <= j < byte_cnt ==> #[trigger] buf@[dst_off + j] == old(buf)@[src_off + j],
                forall|j: int|
                    0 <= j < buf@.len() && !(dst_off + i <= j < dst_off + byte_cnt) ==> buf@[j]
                        == old(buf)@[j],
            decreases i,
        {
            i = i - 1;
            let v = buf[src_off + i];
            buf.set(dst_off + i, v);
        }
    } else {
        // Forward copy: with disjoint ranges, or with the destination below
        // the source, every read still sees an original source byte.
        let mut i: usize = 0;
        while i < byte_cnt
            invariant
                dst_off + byte_cnt <= buf@.len(),
                src_off + byte_cnt <= buf@.len(),
                buf@.len() <= usize::MAX,
                dst_off <= src_off || src_off + byte_cnt <= dst_off,
                i <= byte_cnt,
                buf@.len() == old(buf)@.len(),
                forall|j: int| 0 <= j < i ==> #[trigger] buf@[dst_off + j] == old(buf)@[src_off + j],
                forall|j: int|
                    0 <= j < buf@.len() && !(dst_off <= j < dst_off + i) ==> buf@[j] == old(
                        buf,
                    )@[j],
            decreases byte_cnt - i,
        {
            let v = buf[src_off + i];
            buf.set(dst_off + i, v);
            i = i + 1;
        }
    }
}

/// A non-owning I/O vector: a raw address and a size in bytes. The address
/// space is modelled as plain numbers, so the descriptor carries no
/// provenance — exactly like the `(pointer, length)` pair it stands for.
#[derive(Clone, Copy, Debug, PartialEq, Eq, Structural)]
pub struct IOVec {
    pub ptr: usize,
    pub size: usize,
}

impl IOVec {
    /// The described span stays inside the address space.
    pub open spec fn wf(&self) -> bool {
        self.ptr + self.size <= usize::MAX
    }

    /// Builds a descriptor from a raw address and a size.
    pub fn new(ptr: usize, size: usize) -> (r: IOVec)
        requires
            ptr + size <= usize::MAX,
        ensures
            r.ptr == ptr,
            r.size == size,
            r.wf(),
    {
        IOVec { ptr, size }
    }

    /// Builds a descriptor from a 32-bit register address and a size.
    pub fn from_addr(addr: u32, size: usize) -> (r: IOVec)
        requires
            addr + size <= usize::MAX,
        ensures
            r.ptr == addr,
            r.size == size,
            r.wf(),
    {
        IOVec { ptr: addr as usize, size }
    }

    /// Builds a descriptor spanning `[begin, end)`. An inverted range (end
    /// before begin) was undefined behaviour for the pointer arithmetic this
    /// models, so it is rejected here.
    pub fn from_range(begin: usize, end: usize) -> (r: Result<IOVec, Error>)
        ensures
            begin <= end ==> (r matches Ok(v) && v.ptr == begin && v.size == end - begin
                && v.wf()),
            begin > end ==> (r matches Err(e) && e == Error::InvalidRange),
    {
        if end < begin {
            Err(Error::InvalidRange)
        } else {
            Ok(IOVec { ptr: begin, size: end - begin })
        }
    }

    /// The raw address, standing in for a cast to a typed pointer.
    pub fn convert_ptr(&self) -> (r: usize)
        ensures
            r == self.ptr,
    {
        self.ptr
    }

    /// The raw address, standing in for a cast to a mutable typed pointer.
    pub fn convert_mut_ptr(&self) -> (r: usize)
        ensures
            r == self.ptr,
    {
        self.ptr
    }

    /// The raw address, standing in for a mutable byte pointer.
    pub fn as_mut(&self) -> (r: usize)
        ensures
            r == self.ptr,
    {
        self.ptr
    }
}

} // verus!
