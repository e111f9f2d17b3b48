//! A fixed-capacity circular buffer over caller-provided typed storage, with
//! relative-index addressing: relative index 0 is always the oldest live
//! element, and `size() - 1` the newest once the buffer has wrapped.
//!
//! Elements are overwritten in place and never individually freed. The
//! buffer performs no internal locking; on a preemptible target every
//! mutating call must be protected externally by the caller.

use vstd::prelude::*;
use crate::errors::Error;

verus! {

/// A circular buffer: storage, a write cursor, and whether the cursor has
/// ever wrapped past the end.
pub struct RingBuffer<T> {
    mem: Vec<T>,
    scribe: usize,
    has_rolled: bool,
}

impl<T> View for RingBuffer<T> {
    type V = Seq<T>;

    /// The live contents, oldest first: everything written so far before the
    /// first wrap, and one full window of the storage afterwards.
    closed spec fn view(&self) -> Seq<T> {
        if !self.has_rolled {
            self.mem@.subrange(0, self.scribe as int)
        } else {
            Seq::new(self.mem@.len(), |i: int| self.mem@[(self.scribe + i) % self.mem@.len() as int])
        }
    }
}

impl<T> RingBuffer<T> {
    /// The write cursor stays inside the storage, and an empty storage never
    /// counts as wrapped.
    pub closed spec fn wf(&self) -> bool {
        &&& (self.mem@.len() == 0 ==> self.scribe == 0 && !self.has_rolled)
        &&& (self.mem@.len() > 0 ==> self.scribe < self.mem@.len())
    }

    /// The element capacity.
    pub closed spec fn spec_size(&self) -> nat {
        self.mem@.len()
    }

    /// Whether the write cursor has ever wrapped.
    pub closed spec fn spec_rolled(&self) -> bool {
        self.has_rolled
    }

    /// Creates a ring buffer over the given element storage; the capacity is
    /// the storage length. On a bare-metal target the storage would be a raw
    /// region; here the buffer owns it.
    pub fn new(mem: Vec<T>) -> (r: RingBuffer<T>)
        ensures
            r.wf(),
            r.spec_size() == mem@.len(),
            r@.len() == 0,
            !r.spec_rolled(),
    {
        let r = RingBuffer { mem, scribe: 0, has_rolled: false };
        proof {
            assert(r@ =~= Seq::<T>::empty());
        }
        r
    }

    /// Creates a ring buffer from the given element storage, like `new` —
    /// the slice-flavoured constructor.
    pub fn from(mem: Vec<T>) -> (r: RingBuffer<T>)
        ensures
            r.wf(),
            r.spec_size() == mem@.len(),
            r@.len() == 0,
            !r.spec_rolled(),
    {
        RingBuffer::new(mem)
    }

    /// The number of elements the buffer can hold.
    pub fn size(&self) -> (r: usize)
        requires
            self.wf(),
        ensures
            r == self.spec_size(),
    {
        self.mem.len()
    }

    /// The value at a relative index: 0 is the oldest live element,
    /// `size() - 1` the newest once wrapped. Before the first wrap, an index
    /// at or past the number of pushes fails with `NotYetWritten`; after it,
    /// an index at or past the capacity fails with `OutOfRange`.
    pub fn get(&self, index: usize) -> (r: Result<&T, Error>)
        requires
            self.wf(),
        ensures
            index < self@.len() ==> (r matches Ok(v) && *v == self@[index as int]),
            index >= self@.len() && !self.spec_rolled() ==> r == Err::<&T, Error>(
                Error::NotYetWritten,
            ),
            index >= self@.len() && self.spec_rolled() ==> r == Err::<&T, Error>(
                Error::OutOfRange,
            ),
    {
        if !self.has_rolled {
            if index >= self.scribe {
                Err(Error::NotYetWritten)
            } else {
                Ok(&self.mem[index])
            }
        } else {
            let size = self.size();
            if index >= size {
                Err(Error::OutOfRange)
            } else {
                // Map the relative index to its absolute slot,
                // (scribe + index) % size, without overflowing the sum.
                let slot = if index < size - self.scribe {
                    self.scribe + index
                } else {
                    index - (size - self.scribe)
                };
                proof {
                    let s = self.scribe as int;
                    let n = self.mem@.len() as int;
                    if index < n - s {
                        assert((s + index) % n == s + index) by (nonlinear_arith)
                            requires 0 <= s + index < n,
                        ;
                    } else {
                        assert((s + index) % n == s + index - n) by (nonlinear_arith)
                            requires n <= s + index < 2 * n && n > 0,
                        ;
                    }
                }
                Ok(&self.mem[slot])
            }
        }
    }

    /// Writes `val` at the cursor, overwriting the oldest value once the
    /// buffer is full; the cursor wraps to 0 at the end of the storage and
    /// the buffer is then permanently marked as wrapped. While the buffer
    /// still has room the live contents grow by one; at capacity the oldest
    /// element falls out and the new one comes in at the newest end.
    pub fn push(&mut self, val: T)
        requires
            old(self).wf(),
            old(self).spec_size() > 0,
        ensures
            final(self).wf(),
            final(self).spec_size() == old(self).spec_size(),
            old(self)@.len() < old(self).spec_size() ==> final(self)@ == old(self)@.push(val),
            old(self)@.len() == old(self).spec_size() ==> final(self)@ == old(self)@.subrange(
                1,
                old(self)@.len() as int,
            ).push(val),
            final(self).spec_rolled() == (old(self).spec_rolled() || old(self)@.len() + 1 == old(
                self,
            ).spec_size()),
    {
        proof {
            vstd::std_specs::vec::axiom_spec_len(&self.mem);
        }
        let ghost n = self.mem@.len() as int;
        let ghost s = self.scribe as int;
        self.mem.set(self.scribe, val);
        self.scribe = self.scribe + 1;
        if self.scribe == self.mem.len() {
            self.scribe = 0;
            self.has_rolled = true;
        }
        proof {
            let oldv = old(self)@;
            if !old(self).has_rolled {
                if s + 1 < n {
                    assert(self@ =~= oldv.push(val));
                } else {
                    assert forall|i: int| 0 <= i < n implies self@[i] == oldv.push(val)[i] by {
                        assert(i % n == i) by (nonlinear_arith)
                            requires 0 <= i < n,
                        ;
                    }
                    assert(self@ =~= oldv.push(val));
                }
            } else {
                let s2 = if s + 1 == n {
                    0int
                } else {
                    s + 1
                };
                assert forall|i: int| 0 <= i < n implies self@[i] == oldv.subrange(1, n).push(
                    val,
                )[i] by {
                    assert(0 <= (s2 + i) % n < n) by (nonlinear_arith)
                        requires n > 0 && s2 >= 0 && i >= 0,
                    ;
                    if i < n - 1 {
                        assert((s2 + i) % n == (s + (i + 1)) % n) by (nonlinear_arith)
                            requires n > 0 && 0 <= s < n && 0 <= i < n - 1 && s2 == (if s + 1 == n {
                                0int
                            } else {
                                s + 1
                            }),
                        ;
                        assert((s + (i + 1)) % n != s) by (nonlinear_arith)
                            requires n > 0 && 0 <= s < n && 1 <= i + 1 < n,
                        ;
                    } else {
                        assert((s2 + i) % n == s) by (nonlinear_arith)
                            requires n > 0 && 0 <= s < n && i == n - 1 && s2 == (if s + 1 == n {
                                0int
                            } else {
                                s + 1
                            }),
                        ;
                    }
                }
                assert(self@ =~= oldv.subrange(1, n).push(val));
            }
        }
    }

    /// The most recently written element; fails with `Empty` when nothing
    /// has been written yet.
    pub fn newest(&self) -> (r: Result<&T, Error>)
        requires
            self.wf(),
        ensures
            self@.len() == 0 ==> r == Err::<&T, Error>(Error::Empty),
            self@.len() > 0 ==> (r matches Ok(v) && *v == self@[self@.len() - 1]),
    {
        if !self.has_rolled && self.scribe == 0 {
            Err(Error::Empty)
        } else if self.scribe == 0 {
            let size = self.size();
            self.get(size - 1)
        } else {
            proof {
                if self.has_rolled {
                    let s = self.scribe as int;
                    let n = self.mem@.len() as int;
                    assert((s + (n - 1)) % n == s - 1) by (nonlinear_arith)
                        requires n > 0 && 1 <= s < n,
                    ;
                }
            }
            Ok(&self.mem[self.scribe - 1])
        }
    }

    /// The oldest live element — relative index 0; fails with `Empty` when
    /// nothing has been written yet.
    pub fn oldest(&self) -> (r: Result<&T, Error>)
        requires
            self.wf(),
        ensures
            self@.len() == 0 ==> r == Err::<&T, Error>(Error::Empty),
            self@.len() > 0 ==> (r matches Ok(v) && *v == self@[0]),
    {
        if !self.has_rolled && self.scribe == 0 {
            Err(Error::Empty)
        } else {
            self.get(0)
        }
    }
}

} // verus!
