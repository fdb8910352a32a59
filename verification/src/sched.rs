//! Multi-Level Feedback Queue scheduler.
//!
//! Four priority levels with increasing quanta (10/20/40/80 ms). Tasks that exhaust
//! their quantum are demoted; a priority boost every second moves every queued task to
//! the highest level. The scheduler decides which task runs; switching the CPU's
//! registers to that task is left to the caller.
use vstd::prelude::*;
use std::collections::VecDeque;
use crate::process::task::{Priority, Task, TaskId, TaskState, quantum_spec, PRIORITY_LEVELS};

verus! {

/// A context switch the caller must perform: save the registers of task slot `from`
/// and load those of task slot `to`.
#[derive(Debug, Clone, Copy, PartialEq, Eq, Structural)]
pub struct Switch {
    pub from: usize,
    pub to: usize,
}

/// Interval between priority boosts, in ticks.
pub const BOOST_INTERVAL: u64 = 1000;

/// The tasks with slot `i` marked running, if that slot holds a task.
pub open spec fn mark_running(tasks: Seq<Option<Task>>, i: int) -> Seq<Option<Task>> {
    if 0 <= i < tasks.len() && tasks[i] is Some {
        tasks.update(i, Some(Task { state: TaskState::Running, ..tasks[i]->0 }))
    } else {
        tasks
    }
}

/// A task moved to the highest level with a fresh quantum.
pub open spec fn boosted(t: Option<Task>) -> Option<Task> {
    match t {
        Some(t) => Some(Task { priority: Priority(0), ticks_remaining: 10, ..t }),
        None => None,
    }
}

/// The tasks after every slot listed in `moved` is boosted.
pub open spec fn boost_tasks(tasks: Seq<Option<Task>>, moved: Seq<usize>) -> Seq<Option<Task>> {
    Seq::new(tasks.len(), |i: int| if moved.contains(i as usize) { boosted(tasks[i]) } else { tasks[i] })
}

/// The highest-priority non-empty level of four queues.
pub open spec fn first_nonempty_level(q: Seq<Seq<usize>>) -> Option<int> {
    if q[0].len() > 0 {
        Some(0)
    } else if q[1].len() > 0 {
        Some(1)
    } else if q[2].len() > 0 {
        Some(2)
    } else if q[3].len() > 0 {
        Some(3)
    } else {
        None
    }
}

/// The slot picked to run next: the front of the highest-priority non-empty queue, or
/// the running slot when all are empty.
pub open spec fn pick_next(q: Seq<Seq<usize>>, current: usize) -> usize {
    match first_nonempty_level(q) {
        Some(lv) => q[lv][0],
        None => current,
    }
}

/// The queues after the next slot is taken off.
pub open spec fn queues_after_pick(q: Seq<Seq<usize>>) -> Seq<Seq<usize>> {
    match first_nonempty_level(q) {
        Some(lv) => q.update(lv, q[lv].drop_first()),
        None => q,
    }
}

/// The queues after a boost: everything in level 0, in level order.
pub open spec fn boost_queues(q: Seq<Seq<usize>>) -> Seq<Seq<usize>> {
    seq![q[0] + q[1] + q[2] + q[3], Seq::empty(), Seq::empty(), Seq::empty()]
}

/// A task after one timer tick: one more tick run, one less tick left in its quantum.
pub open spec fn tick_task(t: Task) -> Task {
    Task {
        total_ticks: (t.total_ticks + 1) as u64,
        ticks_remaining: if t.ticks_remaining > 0 { (t.ticks_remaining - 1) as u64 } else { 0 },
        ..t
    }
}

/// A task whose quantum ran out: one level lower (unless already lowest), with that
/// level's quantum, ready to run again.
pub open spec fn expire(t: Task) -> Task {
    let p = if t.priority.0 < 3 { (t.priority.0 + 1) as u8 } else { t.priority.0 };
    Task { priority: Priority(p), ticks_remaining: quantum_spec(p), state: TaskState::Ready, ..t }
}

/// The MLFQ scheduler state: one run queue of task slots per level, the task slots,
/// the running slot and the tick of the last boost.
pub struct Scheduler {
    q0: VecDeque<usize>,
    q1: VecDeque<usize>,
    q2: VecDeque<usize>,
    q3: VecDeque<usize>,
    tasks: Vec<Option<Task>>,
    current: usize,
    last_boost_tick: u64,
}

impl Scheduler {
    /// The run queue of a level, front first.
    pub closed spec fn queue(&self, level: int) -> Seq<usize> {
        if level == 0 {
            self.q0@
        } else if level == 1 {
            self.q1@
        } else if level == 2 {
            self.q2@
        } else if level == 3 {
            self.q3@
        } else {
            Seq::empty()
        }
    }

    /// The four run queues, highest priority first.
    pub open spec fn queues(&self) -> Seq<Seq<usize>> {
        seq![self.queue(0), self.queue(1), self.queue(2), self.queue(3)]
    }

    pub closed spec fn tasks(&self) -> Seq<Option<Task>> {
        self.tasks@
    }

    pub closed spec fn current(&self) -> usize {
        self.current
    }

    pub closed spec fn last_boost_tick(&self) -> u64 {
        self.last_boost_tick
    }

    /// The highest-priority level with a queued task.
    pub open spec fn first_nonempty(&self) -> Option<int> {
        if self.queue(0).len() > 0 {
            Some(0)
        } else if self.queue(1).len() > 0 {
            Some(1)
        } else if self.queue(2).len() > 0 {
            Some(2)
        } else if self.queue(3).len() > 0 {
            Some(3)
        } else {
            None
        }
    }

    /// The running slot and every queued slot name a task slot, and every task has a
    /// valid level.
    pub open spec fn wf(&self) -> bool {
        &&& self.current() < self.tasks().len()
        &&& forall|l: int, k: int| 0 <= l < 4 && 0 <= k < self.queue(l).len() ==> #[trigger] self.queue(l)[k]
            < self.tasks().len()
        &&& forall|i: int| 0 <= i < self.tasks().len() && #[trigger] self.tasks()[i] is Some ==> self.tasks()[i]->0.priority.0
            < PRIORITY_LEVELS
    }

    fn push_level(&mut self, level: u8, idx: usize)
        requires
            level < 4,
        ensures
            final(self).queue(level as int) == old(self).queue(level as int).push(idx),
            forall|l: int| l != level ==> #[trigger] final(self).queue(l) == old(self).queue(l),
            final(self).tasks() == old(self).tasks(),
            final(self).current() == old(self).current(),
            final(self).last_boost_tick() == old(self).last_boost_tick(),
    {
        if level == 0 {
            self.q0.push_back(idx);
        } else if level == 1 {
            self.q1.push_back(idx);
        } else if level == 2 {
            self.q2.push_back(idx);
        } else {
            self.q3.push_back(idx);
        }
    }

    fn pop_level(&mut self, level: u8) -> (r: Option<usize>)
        requires
            level < 4,
        ensures
            old(self).queue(level as int).len() == 0 ==> r is None && final(self).queue(level as int) == old(self).queue(level as int),
            old(self).queue(level as int).len() > 0 ==> r == Some(old(self).queue(level as int)[0])
                && final(self).queue(level as int) == old(self).queue(level as int).drop_first(),
            forall|l: int| l != level ==> #[trigger] final(self).queue(l) == old(self).queue(l),
            final(self).tasks() == old(self).tasks(),
            final(self).current() == old(self).current(),
            final(self).last_boost_tick() == old(self).last_boost_tick(),
    {
        if level == 0 {
            self.q0.pop_front()
        } else if level == 1 {
            self.q1.pop_front()
        } else if level == 2 {
            self.q2.pop_front()
        } else {
            self.q3.pop_front()
        }
    }

    fn set_running(&mut self, i: usize)
        requires
            i < old(self).tasks().len(),
        ensures
            final(self).tasks() == mark_running(old(self).tasks(), i as int),
            forall|l: int| #[trigger] final(self).queue(l) == old(self).queue(l),
            final(self).current() == old(self).current(),
            final(self).last_boost_tick() == old(self).last_boost_tick(),
    {
        match self.tasks[i] {
            Some(t) => {
                self.tasks.set(i, Some(Task { state: TaskState::Running, ..t }));
            },
            None => {},
        }
    }

    /// Pick the next task: the front of the highest-priority non-empty queue, or the
    /// running task when every queue is empty. The picked task is marked running; a
    /// switch is returned when it is not the running task.
    fn do_switch(&mut self) -> (r: Option<Switch>)
        requires
            old(self).wf(),
        ensures
            final(self).wf(),
            final(self).queues() == queues_after_pick(old(self).queues()),
            final(self).current() == pick_next(old(self).queues(), old(self).current()),
            final(self).tasks() == mark_running(old(self).tasks(), pick_next(old(self).queues(), old(self).current()) as int),
            r == (if pick_next(old(self).queues(), old(self).current()) == old(self).current() {
                None
            } else {
                Some(Switch { from: old(self).current(), to: pick_next(old(self).queues(), old(self).current()) })
            }),
            final(self).last_boost_tick() == old(self).last_boost_tick(),
            match old(self).first_nonempty() {
                None => {
                    &&& r is None
                    &&& final(self).current() == old(self).current()
                    &&& final(self).tasks() == mark_running(old(self).tasks(), old(self).current() as int)
                    &&& forall|l: int| #[trigger] final(self).queue(l) == old(self).queue(l)
                },
                Some(lv) => {
                    let next = old(self).queue(lv)[0];
                    &&& final(self).queue(lv) == old(self).queue(lv).drop_first()
                    &&& forall|l: int| l != lv ==> #[trigger] final(self).queue(l) == old(self).queue(l)
                    &&& final(self).current() == next
                    &&& final(self).tasks() == mark_running(old(self).tasks(), next as int)
                    &&& r == (if next == old(self).current() {
                        None
                    } else {
                        Some(Switch { from: old(self).current(), to: next })
                    })
                },
            },
    {
        let ghost s0 = *self;
        proof {
            assert(s0.queue(0).len() > 0 ==> s0.queue(0)[0] < s0.tasks().len());
            assert(s0.queue(1).len() > 0 ==> s0.queue(1)[0] < s0.tasks().len());
            assert(s0.queue(2).len() > 0 ==> s0.queue(2)[0] < s0.tasks().len());
            assert(s0.queue(3).len() > 0 ==> s0.queue(3)[0] < s0.tasks().len());
        }
        let next = match self.pop_level(0) {
            Some(i) => Some(i),
            None => match self.pop_level(1) {
                Some(i) => Some(i),
                None => match self.pop_level(2) {
                    Some(i) => Some(i),
                    None => self.pop_level(3),
                },
            },
        };
        let next_idx = match next {
            Some(i) => i,
            None => self.current,
        };
        let ghost s1 = *self;
        proof {
            assert forall|l: int, k: int| 0 <= l < 4 && 0 <= k < self.queue(l).len() implies #[trigger] self.queue(l)[k]
                < self.tasks().len() by {
                if self.queue(l) != s0.queue(l) {
                    assert(self.queue(l)[k] == s0.queue(l)[k + 1]);
                }
            }
        }
        proof {
            assert(first_nonempty_level(s0.queues()) == s0.first_nonempty());
        }
        if next_idx == self.current {
            self.set_running(self.current);
            proof {
                assert(self.queues() =~= queues_after_pick(s0.queues()));
            }
            return None;
        }
        let old_cur = self.current;
        self.current = next_idx;
        assert(forall|l: int| #[trigger] self.queue(l) == s1.queue(l));
        self.set_running(next_idx);
        proof {
            assert(self.current() < self.tasks().len());
            assert forall|i: int| 0 <= i < self.tasks().len() && #[trigger] self.tasks()[i] is Some implies self.tasks()[i]->0.priority.0
                < PRIORITY_LEVELS by {
                assert(s0.tasks()[i] is Some);
            }
            assert(s0.first_nonempty() is Some);
            assert(self.queue(0) == s1.queue(0));
            assert(self.queue(1) == s1.queue(1));
            assert(self.queue(2) == s1.queue(2));
            assert(self.queue(3) == s1.queue(3));
            assert(forall|l: int| #[trigger] self.queue(l) == s1.queue(l));
            assert(self.queues() =~= queues_after_pick(s0.queues()));
        }
        Some(Switch { from: old_cur, to: next_idx })
    }

    /// Boost the task in slot `i` (if any) to the highest level with a fresh quantum.
    fn boost_slot(&mut self, i: usize)
        requires
            i < old(self).tasks().len(),
        ensures
            final(self).tasks() == old(self).tasks().update(i as int, boosted(old(self).tasks()[i as int])),
            forall|l: int| #[trigger] final(self).queue(l) == old(self).queue(l),
            final(self).current() == old(self).current(),
            final(self).last_boost_tick() == old(self).last_boost_tick(),
    {
        match self.tasks[i] {
            Some(t) => {
                self.tasks.set(i, Some(Task { priority: Priority(0), ticks_remaining: 10, ..t }));
            },
            None => {},
        }
        proof {
            assert(self.queue(0) == old(self).queue(0));
            assert(self.queue(1) == old(self).queue(1));
            assert(self.queue(2) == old(self).queue(2));
            assert(self.queue(3) == old(self).queue(3));
        }
    }

    /// Move every task queued at `level` to the back of the highest queue, boosting it.
    fn drain_level(&mut self, level: u8)
        requires
            1 <= level < 4,
            old(self).wf(),
        ensures
            final(self).wf(),
            final(self).queue(0) == old(self).queue(0) + old(self).queue(level as int),
            final(self).queue(level as int) == Seq::<usize>::empty(),
            forall|l: int| l != 0 && l != level ==> #[trigger] final(self).queue(l) == old(self).queue(l),
            final(self).tasks() == boost_tasks(old(self).tasks(), old(self).queue(level as int)),
            final(self).current() == old(self).current(),
            final(self).last_boost_tick() == old(self).last_boost_tick(),
    {
        let ghost orig = self.queue(level as int);
        let ghost q0_orig = self.queue(0);
        let ghost tasks_orig = self.tasks();
        let ghost s0 = *self;
        let ghost mut k: int = 0;
        let _n = self.tasks.len();
        proof {
            assert(tasks_orig.len() <= usize::MAX);
            assert(boost_tasks(tasks_orig, orig.subrange(0, 0)) =~= tasks_orig);
            assert(q0_orig + orig.subrange(0, 0) =~= q0_orig);
            assert(orig.subrange(0, orig.len() as int) =~= orig);
        }
        loop
            invariant
                1 <= level < 4,
                0 <= k <= orig.len(),
                s0.wf(),
                orig == s0.queue(level as int),
                self.queue(level as int) == orig.subrange(k, orig.len() as int),
                self.queue(0) == q0_orig + orig.subrange(0, k),
                forall|l: int| l != 0 && l != level ==> #[trigger] self.queue(l) == s0.queue(l),
                self.tasks() == boost_tasks(tasks_orig, orig.subrange(0, k)),
                tasks_orig == s0.tasks(),
                tasks_orig.len() <= usize::MAX,
                q0_orig == s0.queue(0),
                self.current() == s0.current(),
                self.last_boost_tick() == s0.last_boost_tick(),
            ensures
                k == orig.len(),
                self.queue(level as int) == Seq::<usize>::empty(),
                self.queue(0) == q0_orig + orig,
                forall|l: int| l != 0 && l != level ==> #[trigger] self.queue(l) == s0.queue(l),
                self.tasks() == boost_tasks(tasks_orig, orig),
                self.current() == s0.current(),
                self.last_boost_tick() == s0.last_boost_tick(),
            decreases orig.len() - k,
        {
            match self.pop_level(level) {
                Some(idx) => {
                    proof {
                        assert(idx == orig[k]);
                        assert(s0.queue(level as int)[k] < s0.tasks().len());
                    }
                    let ghost before = self.tasks();
                    self.boost_slot(idx);
                    self.push_level(0, idx);
                    proof {
                        let p = orig.subrange(0, k);
                        let p2 = orig.subrange(0, k + 1);
                        assert(p2 =~= p.push(idx));
                        assert(self.queue(0) =~= q0_orig + p2);
                        assert(self.queue(level as int) =~= orig.subrange(k + 1, orig.len() as int));
                        assert forall|j: int| 0 <= j < tasks_orig.len() implies #[trigger] self.tasks()[j]
                            == boost_tasks(tasks_orig, p2)[j] by {
                            if j == idx as int {
                                assert(p2[k] == idx);
                                assert(p2.contains(idx));
                            } else {
                                if p2.contains(j as usize) {
                                    let w = choose|w: int| 0 <= w < p2.len() && p2[w] == j as usize;
                                    assert(p2[k] == idx);
                                    assert(j as usize == j);
                                    assert(w != k);
                                    assert(p2[w] == p[w]);
                                    assert(p[w] == j as usize);
                                }
                                if p.contains(j as usize) {
                                    let w = choose|w: int| 0 <= w < p.len() && p[w] == j as usize;
                                    assert(p2[w] == j as usize);
                                }
                            }
                        }
                        assert(self.tasks() =~= boost_tasks(tasks_orig, p2));
                        k = k + 1;
                    }
                },
                None => {
                    proof {
                        assert(orig.subrange(0, k) =~= orig);
                    }
                    break;
                },
            }
        }
        proof {
            assert forall|l: int, kk: int| 0 <= l < 4 && 0 <= kk < self.queue(l).len() implies #[trigger] self.queue(l)[kk]
                < self.tasks().len() by {
                if l == 0 {
                    if kk >= q0_orig.len() {
                        assert(self.queue(0)[kk] == orig[kk - q0_orig.len()]);
                        assert(s0.queue(level as int)[kk - q0_orig.len()] < s0.tasks().len());
                    } else {
                        assert(s0.queue(0)[kk] < s0.tasks().len());
                    }
                } else {
                    assert(s0.queue(l)[kk] < s0.tasks().len());
                }
            }
            assert forall|i: int| 0 <= i < self.tasks().len() && #[trigger] self.tasks()[i] is Some implies self.tasks()[i]->0.priority.0
                < PRIORITY_LEVELS by {
                assert(tasks_orig[i] is Some);
            }
        }
    }

    /// Move every queued task to the highest level with a fresh quantum, keeping the
    /// queue order: level 0 first, then levels 1, 2 and 3.
    fn boost_all(&mut self)
        requires
            old(self).wf(),
        ensures
            final(self).wf(),
            final(self).queues() == boost_queues(old(self).queues()),
            final(self).queue(0) == old(self).queue(0) + old(self).queue(1) + old(self).queue(2) + old(self).queue(3),
            final(self).queue(1) == Seq::<usize>::empty(),
            final(self).queue(2) == Seq::<usize>::empty(),
            final(self).queue(3) == Seq::<usize>::empty(),
            final(self).tasks() == boost_tasks(
                old(self).tasks(),
                old(self).queue(1) + old(self).queue(2) + old(self).queue(3),
            ),
            final(self).current() == old(self).current(),
            final(self).last_boost_tick() == old(self).last_boost_tick(),
    {
        let ghost t0 = self.tasks();
        let ghost a = self.queue(1);
        let ghost b = self.queue(2);
        let ghost c = self.queue(3);
        self.drain_level(1);
        self.drain_level(2);
        self.drain_level(3);
        proof {
            lemma_boost_tasks_compose(t0, a, b);
            lemma_boost_tasks_compose(t0, a + b, c);
            assert(self.queues() =~= boost_queues(old(self).queues()));
        }
    }
}

/// Boosting by one list of slots and then another is boosting by both lists.
pub proof fn lemma_boost_tasks_compose(tasks: Seq<Option<Task>>, a: Seq<usize>, b: Seq<usize>)
    ensures
        boost_tasks(boost_tasks(tasks, a), b) == boost_tasks(tasks, a + b),
{
    let l = boost_tasks(boost_tasks(tasks, a), b);
    let r = boost_tasks(tasks, a + b);
    assert forall|i: int| 0 <= i < tasks.len() implies #[trigger] l[i] == r[i] by {
        let x = i as usize;
        if a.contains(x) {
            let w = choose|w: int| 0 <= w < a.len() && a[w] == x;
            assert((a + b)[w] == x);
        }
        if b.contains(x) {
            let w = choose|w: int| 0 <= w < b.len() && b[w] == x;
            assert((a + b)[a.len() + w] == x);
        }
        if (a + b).contains(x) {
            let w = choose|w: int| 0 <= w < (a + b).len() && (a + b)[w] == x;
            if w < a.len() {
                assert(a[w] == x);
            } else {
                assert(b[w - a.len()] == x);
            }
        }
    }
    assert(l =~= r);
}


impl Scheduler {
    /// Create the scheduler with the boot task in slot 0 as the running task.
    pub fn init(boot_task: Task) -> (s: Self)
        requires
            boot_task.priority.0 < PRIORITY_LEVELS,
        ensures
            s.wf(),
            s.tasks() == seq![Some(boot_task)],
            s.current() == 0,
            s.last_boost_tick() == 0,
            s.queues() == seq![Seq::<usize>::empty(), Seq::<usize>::empty(), Seq::<usize>::empty(), Seq::<usize>::empty()],
    {
        let mut tasks: Vec<Option<Task>> = Vec::new();
        tasks.push(Some(boot_task));
        let s = Scheduler {
            q0: VecDeque::new(),
            q1: VecDeque::new(),
            q2: VecDeque::new(),
            q3: VecDeque::new(),
            tasks,
            current: 0,
            last_boost_tick: 0,
        };
        assert(s.tasks() =~= seq![Some(boot_task)]);
        assert(s.queues() =~= seq![Seq::<usize>::empty(), Seq::<usize>::empty(), Seq::<usize>::empty(), Seq::<usize>::empty()]);
        s
    }

    /// Add a new task in the next slot, queued at the back of its level.
    pub fn spawn(&mut self, task: Task) -> (id: TaskId)
        requires
            old(self).wf(),
            task.priority.0 < PRIORITY_LEVELS,
        ensures
            final(self).wf(),
            id == task.id,
            final(self).tasks() == old(self).tasks().push(Some(task)),
            final(self).queues() == old(self).queues().update(
                task.priority.0 as int,
                old(self).queue(task.priority.0 as int).push(old(self).tasks().len() as usize),
            ),
            final(self).current() == old(self).current(),
            final(self).last_boost_tick() == old(self).last_boost_tick(),
    {
        let id = task.id;
        let idx = self.tasks.len();
        let level = task.priority.0;
        let ghost s0 = *self;
        self.tasks.push(Some(task));
        let ghost s1 = *self;
        proof {
            assert(forall|l: int| #[trigger] s1.queue(l) == s0.queue(l)) by {
                assert(s1.queue(0) == s0.queue(0));
            }
        }
        self.push_level(level, idx);
        proof {
            assert(self.queues() =~= s0.queues().update(level as int, s0.queue(level as int).push(idx)));
            assert forall|l: int, k: int| 0 <= l < 4 && 0 <= k < self.queue(l).len() implies #[trigger] self.queue(l)[k]
                < self.tasks().len() by {
                if l != level as int || k < s0.queue(l).len() {
                    assert(s0.queue(l)[k] < s0.tasks().len());
                }
            }
            assert forall|i: int| 0 <= i < self.tasks().len() && #[trigger] self.tasks()[i] is Some implies self.tasks()[i]->0.priority.0
                < PRIORITY_LEVELS by {
                if i < s0.tasks().len() {
                    assert(s0.tasks()[i] is Some);
                }
            }
        }
        id
    }
}


impl Scheduler {
    /// One timer tick at tick count `current_ticks`. Every `BOOST_INTERVAL` ticks all
    /// queued tasks are boosted first. The running task is charged one tick; when its
    /// quantum runs out it is demoted, given the new level's quantum, queued at the back
    /// of that level, and the next task is picked (see `pick_next`).
    pub fn timer_tick(&mut self, current_ticks: u64) -> (r: Option<Switch>)
        requires
            old(self).wf(),
            current_ticks >= old(self).last_boost_tick(),
            old(self).tasks()[old(self).current() as int] matches Some(t) ==> t.total_ticks < u64::MAX,
        ensures
            final(self).wf(),
            ({
                let boost = current_ticks - old(self).last_boost_tick() >= BOOST_INTERVAL;
                let qb = if boost { boost_queues(old(self).queues()) } else { old(self).queues() };
                let tb = if boost {
                    boost_tasks(old(self).tasks(), old(self).queue(1) + old(self).queue(2) + old(self).queue(3))
                } else {
                    old(self).tasks()
                };
                let cur = old(self).current();
                &&& final(self).last_boost_tick() == (if boost { current_ticks } else { old(self).last_boost_tick() })
                &&& match tb[cur as int] {
                    None => {
                        &&& r is None
                        &&& final(self).queues() == qb
                        &&& final(self).tasks() == tb
                        &&& final(self).current() == cur
                    },
                    Some(t) => {
                        let t1 = tick_task(t);
                        if t1.ticks_remaining > 0 {
                            &&& r is None
                            &&& final(self).queues() == qb
                            &&& final(self).tasks() == tb.update(cur as int, Some(t1))
                            &&& final(self).current() == cur
                        } else {
                            let t2 = expire(t1);
                            let q2 = qb.update(t2.priority.0 as int, qb[t2.priority.0 as int].push(cur));
                            let t_all = tb.update(cur as int, Some(t2));
                            let next = pick_next(q2, cur);
                            &&& final(self).queues() == queues_after_pick(q2)
                            &&& final(self).current() == next
                            &&& final(self).tasks() == mark_running(t_all, next as int)
                            &&& r == (if next == cur { None } else { Some(Switch { from: cur, to: next }) })
                        }
                    },
                }
            }),
    {
        let ghost s0 = *self;
        if current_ticks - self.last_boost_tick >= BOOST_INTERVAL {
            self.last_boost_tick = current_ticks;
            proof {
                assert(self.queues() == s0.queues());
            }
            self.boost_all();
        }
        let ghost sb = *self;
        let current = self.current;
        match self.tasks[current] {
            Some(t) => {
                proof {
                    if current_ticks - s0.last_boost_tick >= BOOST_INTERVAL {
                        assert(s0.tasks()[current as int] is Some);
                        assert(t.total_ticks == s0.tasks()[current as int]->0.total_ticks);
                    }
                }
                let mut t = t;
                t.total_ticks = t.total_ticks + 1;
                if t.ticks_remaining > 0 {
                    t.ticks_remaining = t.ticks_remaining - 1;
                }
                if t.ticks_remaining == 0 {
                    let old_priority = t.priority;
                    if old_priority.0 < 3 {
                        t.priority = Priority(old_priority.0 + 1);
                    }
                    t.ticks_remaining = t.priority.quantum_ms();
                    t.state = TaskState::Ready;
                    self.tasks.set(current, Some(t));
                    let ghost s1 = *self;
                    proof {
                        assert(forall|l: int| #[trigger] s1.queue(l) == sb.queue(l)) by {
                            assert(s1.queue(0) == sb.queue(0));
                        }
                    }
                    self.push_level(t.priority.0, current);
                    proof {
                        assert(self.queues() =~= sb.queues().update(t.priority.0 as int, sb.queues()[t.priority.0 as int].push(current)));
                        assert forall|l: int, k: int| 0 <= l < 4 && 0 <= k < self.queue(l).len() implies #[trigger] self.queue(l)[k]
                            < self.tasks().len() by {
                            if l != t.priority.0 as int || k < sb.queue(l).len() {
                                assert(sb.queue(l)[k] < sb.tasks().len());
                            }
                        }
                        assert forall|i: int| 0 <= i < self.tasks().len() && #[trigger] self.tasks()[i] is Some implies self.tasks()[i]->0.priority.0
                            < PRIORITY_LEVELS by {
                            if i != current as int {
                                assert(sb.tasks()[i] is Some);
                            }
                        }
                    }
                    return self.do_switch();
                }
                self.tasks.set(current, Some(t));
                proof {
                    assert(self.queues() =~= sb.queues());
                    assert forall|l: int, k: int| 0 <= l < 4 && 0 <= k < self.queue(l).len() implies #[trigger] self.queue(l)[k]
                        < self.tasks().len() by {
                        assert(sb.queue(l)[k] < sb.tasks().len());
                    }
                    assert forall|i: int| 0 <= i < self.tasks().len() && #[trigger] self.tasks()[i] is Some implies self.tasks()[i]->0.priority.0
                        < PRIORITY_LEVELS by {
                        assert(sb.tasks()[i] is Some);
                    }
                }
                None
            },
            None => None,
        }
    }
}


/// A task giving up the CPU: ready to run again with a fresh quantum at its level.
pub open spec fn yielded(t: Task) -> Task {
    Task { state: TaskState::Ready, ticks_remaining: quantum_spec(t.priority.0), ..t }
}

/// A task that yields is ready again at its own level with a whole quantum of that
/// level (10 ticks at level 0, 20 at 1, 40 at 2, 80 below), whatever was left of the
/// old one; it stays the same task with the same ticks used.
pub proof fn law_yield_fresh_quantum(t: Task)
    ensures
        yielded(t).ticks_remaining == quantum_spec(t.priority.0),
        yielded(t).ticks_remaining == (if t.priority.0 == 0 { 10u64 } else if t.priority.0 == 1 { 20u64 }
            else if t.priority.0 == 2 { 40u64 } else { 80u64 }),
        yielded(t).state == TaskState::Ready,
        yielded(t).priority == t.priority,
        yielded(t).id == t.id,
        yielded(t).total_ticks == t.total_ticks,
{
}

impl Scheduler {
    /// Voluntarily give up the rest of the running task's quantum: the task is queued
    /// at the back of its level with a fresh quantum and the next task is picked.
    pub fn yield_now(&mut self) -> (r: Option<Switch>)
        requires
            old(self).wf(),
        ensures
            final(self).wf(),
            final(self).last_boost_tick() == old(self).last_boost_tick(),
            ({
                let cur = old(self).current();
                let (q2, t2) = match old(self).tasks()[cur as int] {
                    Some(t) => (
                        old(self).queues().update(t.priority.0 as int, old(self).queue(t.priority.0 as int).push(cur)),
                        old(self).tasks().update(cur as int, Some(yielded(t))),
                    ),
                    None => (old(self).queues(), old(self).tasks()),
                };
                let next = pick_next(q2, cur);
                &&& final(self).queues() == queues_after_pick(q2)
                &&& final(self).current() == next
                &&& final(self).tasks() == mark_running(t2, next as int)
                &&& r == (if next == cur { None } else { Some(Switch { from: cur, to: next }) })
            }),
    {
        let current = self.current;
        let ghost s0 = *self;
        match self.tasks[current] {
            Some(t) => {
                let mut t = t;
                t.state = TaskState::Ready;
                t.ticks_remaining = t.priority.quantum_ms();
                proof {
                    assert(s0.tasks()[current as int] is Some);
                }
                self.tasks.set(current, Some(t));
                let ghost s1 = *self;
                proof {
                    assert(forall|l: int| #[trigger] s1.queue(l) == s0.queue(l)) by {
                        assert(s1.queue(0) == s0.queue(0));
                    }
                }
                self.push_level(t.priority.0, current);
                proof {
                    assert(self.queues() =~= s0.queues().update(t.priority.0 as int, s0.queue(t.priority.0 as int).push(current)));
                    assert forall|l: int, k: int| 0 <= l < 4 && 0 <= k < self.queue(l).len() implies #[trigger] self.queue(l)[k]
                        < self.tasks().len() by {
                        if l != t.priority.0 as int || k < s0.queue(l).len() {
                            assert(s0.queue(l)[k] < s0.tasks().len());
                        }
                    }
                    assert forall|i: int| 0 <= i < self.tasks().len() && #[trigger] self.tasks()[i] is Some implies self.tasks()[i]->0.priority.0
                        < PRIORITY_LEVELS by {
                        if i != current as int {
                            assert(s0.tasks()[i] is Some);
                        }
                    }
                }
            },
            None => {},
        }
        self.do_switch()
    }

    /// The identifier of the running task.
    pub fn current_task_id(&self) -> (id: TaskId)
        requires
            self.wf(),
            self.tasks()[self.current() as int] is Some,
        ensures
            id == self.tasks()[self.current() as int]->0.id,
    {
        match &self.tasks[self.current] {
            Some(t) => t.id,
            None => TaskId(0),
        }
    }
}

/// Scheduling laws. A boost loses no queued slot and leaves only the highest queue
/// non-empty; a task whose quantum runs out goes one level down (the lowest level
/// keeps it) with that level's quantum; and the slot picked next is the front of the
/// highest-priority non-empty queue.
pub proof fn lemma_mlfq_laws(q: Seq<Seq<usize>>, t: Task, current: usize)
    requires
        q.len() == 4,
        t.priority.0 < PRIORITY_LEVELS,
    ensures
        boost_queues(q)[0] == q[0] + q[1] + q[2] + q[3],
        boost_queues(q)[1].len() == 0 && boost_queues(q)[2].len() == 0 && boost_queues(q)[3].len() == 0,
        (q[0] + q[1] + q[2] + q[3]).to_multiset() == boost_queues(q)[0].to_multiset(),
        expire(t).priority.0 == (if t.priority.0 < 3 { t.priority.0 + 1 } else { 3 }),
        expire(t).ticks_remaining == quantum_spec(expire(t).priority.0),
        expire(t).priority.0 < PRIORITY_LEVELS,
        first_nonempty_level(q) matches Some(lv) ==> pick_next(q, current) == q[lv][0] && q[lv].len() > 0
            && forall|l: int| 0 <= l < lv ==> #[trigger] q[l].len() == 0,
        first_nonempty_level(q) is None ==> pick_next(q, current) == current,
{
}

} // verus!
