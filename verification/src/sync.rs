//! The spinlock: taken with interrupts off, so that an interrupt handler on
//! the same processor can never wait for what it interrupted.

use vstd::prelude::*;

verus! {

/// A lock and the value that it guards.
pub struct Spinlock<T> {
    pub locked: bool,
    pub data: T,
}

/// The holder's token: the processor flags from before the lock was taken.
pub struct Guard {
    pub rflags: u64,
}

impl<T> Spinlock<T> {
    /// An open lock around `value`.
    pub fn new(value: T) -> (l: Spinlock<T>)
        ensures
            l.data == value,
            !l.locked,
    {
        Spinlock { locked: false, data: value }
    }

    /// One attempt to take the lock, with interrupts already off and the
    /// flags from before in `rflags`. A holder of the guard may use the data;
    /// without one the attempt is repeated.
    pub fn lock(&mut self, rflags: u64) -> (r: Option<Guard>)
        ensures
            final(self).locked,
            final(self).data == old(self).data,
            r == (if old(self).locked {
                None
            } else {
                Some(Guard { rflags })
            }),
    {
        if self.locked {
            None
        } else {
            self.locked = true;
            Some(Guard { rflags })
        }
    }

    /// Opens the lock and gives the flags that are to be restored.
    pub fn unlock(&mut self, g: Guard) -> (rflags: u64)
        ensures
            !final(self).locked,
            final(self).data == old(self).data,
            rflags == g.rflags,
    {
        self.locked = false;
        g.rflags
    }
}

} // verus!
