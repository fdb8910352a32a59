//! Wait queue: tasks wait in arrival order and are woken oldest first.
use vstd::prelude::*;

verus! {

/// The waiting tasks, oldest first; a task is named by the number of the flag it
/// blocks on.
pub struct WaitQueue {
    pub queue: Vec<u64>,
}

/// What `wake_one` does to a queue: the task it wakes and the queue left behind.
pub open spec fn wake_one_spec(q: Seq<u64>) -> (Option<u64>, Seq<u64>) {
    if q.len() == 0 {
        (None, q)
    } else {
        (Some(q[0]), q.drop_first())
    }
}

impl View for WaitQueue {
    type V = Seq<u64>;

    open spec fn view(&self) -> Seq<u64> {
        self.queue@
    }
}

impl WaitQueue {
    /// No task waiting.
    pub fn new() -> (q: Self)
        ensures
            q@ == Seq::<u64>::empty(),
    {
        WaitQueue { queue: Vec::new() }
    }

    /// Queue `waiter` behind the tasks already waiting.
    pub fn wait(&mut self, waiter: u64)
        ensures
            final(self)@ == old(self)@.push(waiter),
    {
        self.queue.push(waiter);
    }

    /// Wake the task that has waited longest, if any.
    pub fn wake_one(&mut self) -> (w: Option<u64>)
        ensures
            (w, final(self)@) == wake_one_spec(old(self)@),
    {
        if self.queue.len() == 0 {
            None
        } else {
            let w = self.queue.remove(0);
            assert(self.queue@ =~= old(self)@.drop_first());
            Some(w)
        }
    }

    /// Wake every waiting task; gives them in the order they waited.
    pub fn wake_all(&mut self) -> (ws: Vec<u64>)
        ensures
            ws@ == old(self)@,
            final(self)@ == Seq::<u64>::empty(),
    {
        let mut ws: Vec<u64> = Vec::new();
        while self.queue.len() > 0
            invariant
                ws@ + self.queue@ == old(self)@,
            decreases self.queue@.len(),
        {
            let w = self.queue.remove(0);
            ws.push(w);
        }
        assert(ws@ =~= old(self)@);
        ws
    }

    /// Number of waiting tasks.
    pub fn waiters(&self) -> (n: usize)
        ensures
            n == self@.len(),
    {
        self.queue.len()
    }
}

/// First in, first out: a task that waits behind others is woken after all of them,
/// and a task waiting alone is woken at once.
pub proof fn law_fifo(q: Seq<u64>, x: u64)
    ensures
        q.len() == 0 ==> wake_one_spec(q.push(x)) == (Some(x), Seq::<u64>::empty()),
        q.len() > 0 ==> wake_one_spec(q.push(x)) == (Some(q[0]), q.drop_first().push(x)),
{
    if q.len() == 0 {
        assert(q.push(x).drop_first() =~= Seq::<u64>::empty());
    } else {
        assert(q.push(x).drop_first() =~= q.drop_first().push(x));
    }
}

} // verus!
