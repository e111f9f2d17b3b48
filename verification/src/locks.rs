//! A single-bit, busy-waiting mutual-exclusion primitive for single-core,
//! interrupt-driven execution.
//!
//! There is no queueing, no backoff and no fairness: `acquire` repeats an
//! atomic compare-and-exchange until it wins, and `wait` busy-polls without
//! acquiring. Nothing here suspends cooperatively and nothing times out; a
//! context stuck waiting stays stuck until another context releases the lock.
//! The lock tracks no ownership of protected data — pairing acquire/release
//! around access to a shared structure is the caller's discipline.

use vstd::prelude::*;
use crate::errors::Error;

verus! {

/// A mutual-exclusion flag held by at most one logical owner at a time.
pub struct SpinLock {
    in_use: u8,
}

impl SpinLock {
    /// The flag holds one of its two legal values.
    pub closed spec fn wf(&self) -> bool {
        self.in_use == 0 || self.in_use == 1
    }

    /// Whether the lock is currently held.
    pub closed spec fn spec_locked(&self) -> bool {
        self.in_use == 1
    }

    /// A fresh lock, unlocked.
    pub fn new() -> (r: SpinLock)
        ensures
            r.wf(),
            !r.spec_locked(),
    {
        SpinLock { in_use: 0 }
    }

    /// Whether the lock is currently held.
    #[inline(always)]
    pub fn is_locked(&self) -> (r: bool)
        requires
            self.wf(),
        ensures
            r == self.spec_locked(),
    {
        self.in_use == 1
    }

    /// Takes the lock, spinning on the compare-and-exchange until it
    /// succeeds. Through an exclusive borrow no other context can release
    /// the lock while this call spins, so a call on a held lock would spin
    /// forever; that input is excluded here.
    pub fn acquire(&mut self)
        requires
            old(self).wf(),
            !old(self).spec_locked(),
        ensures
            final(self).wf(),
            final(self).spec_locked(),
    {
        loop
            invariant_except_break
                self.wf(),
                !self.spec_locked(),
            ensures
                self.wf(),
                self.spec_locked(),
            decreases 0int,
        {
            if self.in_use == 0 {
                self.in_use = 1;
                break;
            }
        }
    }

    /// Releases the lock; fails with `NotLocked` when it is not held.
    pub fn release(&mut self) -> (r: Result<(), Error>)
        requires
            old(self).wf(),
        ensures
            final(self).wf(),
            old(self).spec_locked() ==> r is Ok && !final(self).spec_locked(),
            !old(self).spec_locked() ==> r == Err::<(), Error>(Error::NotLocked) && *final(self)
                == *old(self),
    {
        if !self.is_locked() {
            Err(Error::NotLocked)
        } else {
            self.in_use = 0;
            Ok(())
        }
    }

    /// Busy-polls until the lock is released, without acquiring it — an
    /// observation only, inherently racy against a concurrent re-acquire.
    /// Through a shared borrow the state cannot change while this call
    /// polls, so a call on a held lock would spin forever; that input is
    /// excluded here.
    pub fn wait(&self)
        requires
            self.wf(),
            !self.spec_locked(),
    {
        while self.is_locked()
            invariant
                self.wf(),
                !self.spec_locked(),
            decreases 0int,
        {
        }
    }
}

} // verus!
