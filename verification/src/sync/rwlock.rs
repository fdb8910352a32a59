//! Reader-writer lock: the lock word and the two queues of waiting tasks.
use vstd::prelude::*;
use crate::sync::waitqueue::{WaitQueue, wake_one_spec};

verus! {

/// Readers share the lock, a writer holds it alone. The word counts the readers, or
/// is -1 while a writer holds it; tasks that find the lock taken wait in a queue.
pub struct RwLock<T> {
    pub state: i64,
    pub write_waiters: WaitQueue,
    pub read_waiters: WaitQueue,
    pub data: T,
}

/// Held by a reader.
pub struct RwLockReadGuard {
    pub reader: u64,
}

/// Held by the writer.
pub struct RwLockWriteGuard {
    pub writer: u64,
}

/// A reader gets the lock when no writer holds it.
pub open spec fn read_granted(state: i64) -> bool {
    state >= 0
}

/// A writer gets the lock when nobody holds it.
pub open spec fn write_granted(state: i64) -> bool {
    state == 0
}

impl<T> RwLock<T> {
    pub open spec fn wf(&self) -> bool {
        self.state >= -1
    }

    /// An unlocked lock over `data`, with nobody waiting.
    pub fn new(data: T) -> (l: Self)
        ensures
            l.wf(),
            l.state == 0,
            l.write_waiters@ == Seq::<u64>::empty(),
            l.read_waiters@ == Seq::<u64>::empty(),
            l.data == data,
    {
        RwLock { state: 0, write_waiters: WaitQueue::new(), read_waiters: WaitQueue::new(), data }
    }

    /// One attempt of `read` by task `task`: the guard when no writer holds the lock,
    /// else the task joins the reader queue and waits.
    pub fn read(&mut self, task: u64) -> (g: Option<RwLockReadGuard>)
        requires
            old(self).wf(),
            old(self).state < i64::MAX,
        ensures
            final(self).wf(),
            final(self).data == old(self).data,
            final(self).write_waiters@ == old(self).write_waiters@,
            read_granted(old(self).state) ==> g == Some(RwLockReadGuard { reader: task })
                && final(self).state == old(self).state + 1
                && final(self).read_waiters@ == old(self).read_waiters@,
            !read_granted(old(self).state) ==> g is None
                && final(self).state == old(self).state
                && final(self).read_waiters@ == old(self).read_waiters@.push(task),
    {
        if self.state >= 0 {
            self.state = self.state + 1;
            Some(RwLockReadGuard { reader: task })
        } else {
            self.read_waiters.wait(task);
            None
        }
    }

    /// One attempt of `write` by task `task`: the guard when the lock is free, else the
    /// task joins the writer queue and waits.
    pub fn write(&mut self, task: u64) -> (g: Option<RwLockWriteGuard>)
        requires
            old(self).wf(),
        ensures
            final(self).wf(),
            final(self).data == old(self).data,
            final(self).read_waiters@ == old(self).read_waiters@,
            write_granted(old(self).state) ==> g == Some(RwLockWriteGuard { writer: task })
                && final(self).state == -1
                && final(self).write_waiters@ == old(self).write_waiters@,
            !write_granted(old(self).state) ==> g is None
                && final(self).state == old(self).state
                && final(self).write_waiters@ == old(self).write_waiters@.push(task),
    {
        if self.state == 0 {
            self.state = -1;
            Some(RwLockWriteGuard { writer: task })
        } else {
            self.write_waiters.wait(task);
            None
        }
    }

    /// A reader lets go; the last reader wakes one waiting writer, which it gives.
    pub fn release_read(&mut self, guard: RwLockReadGuard) -> (woken: Option<u64>)
        requires
            old(self).wf(),
            old(self).state > 0,
        ensures
            final(self).wf(),
            final(self).data == old(self).data,
            final(self).state == old(self).state - 1,
            final(self).read_waiters@ == old(self).read_waiters@,
            old(self).state == 1 ==> (woken, final(self).write_waiters@) == wake_one_spec(old(self).write_waiters@),
            old(self).state > 1 ==> woken is None && final(self).write_waiters@ == old(self).write_waiters@,
    {
        let prev = self.state;
        self.state = prev - 1;
        if prev == 1 {
            self.write_waiters.wake_one()
        } else {
            None
        }
    }

    /// The writer lets go: every waiting reader is woken, then one waiting writer.
    pub fn release_write(&mut self, guard: RwLockWriteGuard) -> (woken: (Vec<u64>, Option<u64>))
        requires
            old(self).wf(),
            old(self).state == -1,
        ensures
            final(self).wf(),
            final(self).data == old(self).data,
            final(self).state == 0,
            woken.0@ == old(self).read_waiters@,
            final(self).read_waiters@ == Seq::<u64>::empty(),
            (woken.1, final(self).write_waiters@) == wake_one_spec(old(self).write_waiters@),
    {
        self.state = 0;
        let readers = self.read_waiters.wake_all();
        let writer = self.write_waiters.wake_one();
        (readers, writer)
    }
}

/// A writer excludes everyone and readers exclude writers: once a writer has the lock
/// no reader or writer gets it, and while a reader holds it no writer gets it.
pub proof fn law_rwlock_exclusion(state: i64)
    requires
        state >= -1,
        state < i64::MAX,
    ensures
        write_granted(state) ==> !read_granted(-1i64) && !write_granted(-1i64),
        read_granted(state) ==> !write_granted((state + 1) as i64),
{
}

} // verus!
