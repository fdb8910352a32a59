use vstd::prelude::*;
use crate::arch::context::CpuContext;

verus! {

/// Unique task identifier.
#[derive(Debug, Clone, Copy, PartialEq, Eq, Structural)]
pub struct TaskId(pub u64);

impl TaskId {
    /// A fresh identifier taken from the counter `next`, which moves on by one.
    pub fn new(next: &mut u64) -> (id: Self)
        requires
            *old(next) < u64::MAX,
        ensures
            id.0 == *old(next),
            *final(next) == *old(next) + 1,
    {
        let id = TaskId(*next);
        *next = *next + 1;
        id
    }
}

/// Task execution state.
#[derive(Debug, Clone, Copy, PartialEq, Eq, Structural)]
pub enum TaskState {
    Ready,
    Running,
    Blocked,
    Dead,
}

/// MLFQ priority level (0 = highest, 3 = lowest).
#[derive(Debug, Clone, Copy, PartialEq, Eq, Structural)]
pub struct Priority(pub u8);

/// Number of priority levels.
pub const PRIORITY_LEVELS: usize = 4;

/// Time quantum in milliseconds of a priority level.
pub open spec fn quantum_spec(level: u8) -> u64 {
    if level == 0 {
        10
    } else if level == 1 {
        20
    } else if level == 2 {
        40
    } else {
        80
    }
}

impl Priority {
    /// The highest priority level.
    pub fn highest() -> (p: Self)
        ensures
            p.0 == 0,
    {
        Priority(0)
    }

    /// The level of ordinary tasks.
    pub fn normal() -> (p: Self)
        ensures
            p.0 == 2,
    {
        Priority(2)
    }

    /// Time quantum in milliseconds for this priority level.
    pub fn quantum_ms(self) -> (r: u64)
        ensures
            r == quantum_spec(self.0),
    {
        match self.0 {
            0 => 10,
            1 => 20,
            2 => 40,
            _ => 80,
        }
    }
}

/// A kernel task (thread of execution). Its kernel stack is owned by the caller that
/// created it.
#[derive(Debug, Clone, Copy, PartialEq, Eq, Structural)]
pub struct Task {
    pub id: TaskId,
    pub state: TaskState,
    pub priority: Priority,
    pub context: CpuContext,
    /// Ticks remaining in current quantum.
    pub ticks_remaining: u64,
    /// Ticks used by the task in all.
    pub total_ticks: u64,
}

impl Task {
    /// Create a new kernel task that starts at `entry_point` on the stack that ends at
    /// `stack_top`, in the address space `cr3`, at the highest priority.
    pub fn new_kernel(id: TaskId, entry_point: u64, stack_top: u64, cr3: u64) -> (t: Self)
        requires
            stack_top >= 8,
        ensures
            t.id == id,
            t.state == TaskState::Ready,
            t.priority.0 == 0,
            t.context == CpuContext::new_kernel_spec(stack_top, cr3),
            t.ticks_remaining == 10,
            t.total_ticks == 0,
    {
        let ctx = CpuContext::new_kernel(entry_point, stack_top, cr3);
        let priority = Priority::highest();
        Task { id, state: TaskState::Ready, priority, context: ctx, ticks_remaining: priority.quantum_ms(), total_ticks: 0 }
    }

    /// A task for the current (boot) execution context, running at normal priority;
    /// its registers are saved on the first switch away.
    pub fn from_current(id: TaskId, cr3: u64) -> (t: Self)
        ensures
            t.id == id,
            t.state == TaskState::Running,
            t.priority.0 == 2,
            t.context == (CpuContext { cr3, ..CpuContext::empty_spec() }),
            t.ticks_remaining == 40,
            t.total_ticks == 0,
    {
        let mut ctx = CpuContext::empty();
        ctx.cr3 = cr3;
        let priority = Priority::normal();
        Task { id, state: TaskState::Running, priority, context: ctx, ticks_remaining: priority.quantum_ms(), total_ticks: 0 }
    }
}

} // verus!
