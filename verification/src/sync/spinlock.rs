//! Interrupt-saving spinlock: the lock word and the interrupt flag it saves.
use vstd::prelude::*;

verus! {

/// A lock over `data`. Taking it disables interrupts; releasing it restores the
/// interrupt state seen when it was taken.
pub struct SpinLock<T> {
    pub locked: bool,
    pub data: T,
}

/// Held while the lock is taken: whether interrupts were enabled before.
pub struct SpinLockGuard {
    pub irq_was_enabled: bool,
}

impl<T> SpinLock<T> {
    /// An unlocked lock over `data`.
    pub fn new(data: T) -> (l: Self)
        ensures
            !l.locked,
            l.data == data,
    {
        SpinLock { locked: false, data }
    }

    /// One attempt of `lock`, made with interrupts disabled: gives the guard when the
    /// lock was free, else `None` and the caller spins (interrupts stay disabled).
    pub fn lock(&mut self, irq_was_enabled: bool) -> (g: Option<SpinLockGuard>)
        ensures
            final(self).locked,
            final(self).data == old(self).data,
            old(self).locked ==> g is None,
            !old(self).locked ==> g == Some(SpinLockGuard { irq_was_enabled }),
    {
        if self.locked {
            None
        } else {
            self.locked = true;
            Some(SpinLockGuard { irq_was_enabled })
        }
    }

    /// Take the lock if it is free. Gives the guard, and whether interrupts are
    /// enabled afterwards: disabled while the lock is held, restored on failure.
    pub fn try_lock(&mut self, irq_was_enabled: bool) -> (r: (Option<SpinLockGuard>, bool))
        ensures
            final(self).locked,
            final(self).data == old(self).data,
            (r.0 is Some, r.1) == try_lock_spec(old(self).locked, irq_was_enabled),
            r.0 is Some ==> r.0 == Some(SpinLockGuard { irq_was_enabled }),
    {
        if self.locked {
            (None, irq_was_enabled)
        } else {
            self.locked = true;
            (Some(SpinLockGuard { irq_was_enabled }), false)
        }
    }

    /// Release the lock; gives whether interrupts are to be enabled again.
    pub fn unlock(&mut self, guard: SpinLockGuard) -> (irq_on: bool)
        ensures
            !final(self).locked,
            final(self).data == old(self).data,
            irq_on == guard.irq_was_enabled,
    {
        self.locked = false;
        guard.irq_was_enabled
    }
}

/// Whether `try_lock` takes a lock whose word is `locked`, and whether interrupts are
/// enabled after it, when they were `irq` before.
pub open spec fn try_lock_spec(locked: bool, irq: bool) -> (bool, bool) {
    if locked {
        (false, irq)
    } else {
        (true, false)
    }
}

/// Mutual exclusion, with interrupts off while the lock is held: `try_lock` on a free
/// lock takes it and leaves interrupts disabled; a second `try_lock` before `unlock`
/// fails and leaves the interrupt state as it found it.
pub proof fn law_spinlock(irq: bool, irq2: bool)
    ensures
        try_lock_spec(false, irq) == (true, false),
        try_lock_spec(true, irq2) == (false, irq2),
{
}

} // verus!
