use vstd::prelude::*;

verus! {

/// RFLAGS value with only the interrupt-enable flag (IF) set.
pub const RFLAGS_IF: u64 = 0x200;

/// Saved CPU context for context switching: the callee-saved registers, the flags
/// and the page table base.
#[derive(Debug, Clone, Copy, PartialEq, Eq, Structural)]
pub struct CpuContext {
    pub rsp: u64,
    pub rbp: u64,
    pub rbx: u64,
    pub r12: u64,
    pub r13: u64,
    pub r14: u64,
    pub r15: u64,
    pub rflags: u64,
    /// CR3 (page table base) — each process has its own address space.
    pub cr3: u64,
}

impl CpuContext {
    /// The all-zero context with interrupts enabled.
    pub open spec fn empty_spec() -> CpuContext {
        CpuContext { rsp: 0, rbp: 0, rbx: 0, r12: 0, r13: 0, r14: 0, r15: 0, rflags: RFLAGS_IF, cr3: 0 }
    }

    /// The context of a new kernel task.
    pub open spec fn new_kernel_spec(stack_top: u64, cr3: u64) -> CpuContext {
        CpuContext { rsp: (stack_top - 8) as u64, cr3, ..Self::empty_spec() }
    }

    /// An all-zero context with interrupts enabled.
    pub fn empty() -> (c: Self)
        ensures
            c == Self::empty_spec(),
    {
        CpuContext { rsp: 0, rbp: 0, rbx: 0, r12: 0, r13: 0, r14: 0, r15: 0, rflags: RFLAGS_IF, cr3: 0 }
    }

    /// Create a context for a new kernel task: its stack pointer leaves room for the
    /// return address below `stack_top`, interrupts are enabled and `cr3` is kept.
    pub fn new_kernel(_entry_point: u64, stack_top: u64, cr3: u64) -> (c: Self)
        requires
            stack_top >= 8,
        ensures
            c == Self::new_kernel_spec(stack_top, cr3),
    {
        CpuContext {
            rsp: stack_top - 8,
            rbp: 0,
            rbx: 0,
            r12: 0,
            r13: 0,
            r14: 0,
            r15: 0,
            rflags: RFLAGS_IF,
            cr3,
        }
    }
}

} // verus!
