//! Per-CPU data reached through the GS base.
use vstd::prelude::*;

verus! {

/// MSR for kernel GS base (swapped in on SWAPGS).
pub const IA32_KERNEL_GS_BASE: u32 = 0xC000_0102;

/// MSR for current GS base.
pub const IA32_GS_BASE: u32 = 0xC000_0101;

/// Per-CPU data: at offset 0 the scratch slot for the user stack pointer during
/// syscall entry, at offset 8 the kernel stack pointer.
pub struct PerCpuData {
    pub user_rsp_scratch: u64,
    pub kernel_rsp: u64,
}

impl PerCpuData {
    /// The data of the bootstrap processor, before start-up.
    pub fn new() -> (d: Self)
        ensures
            d.user_rsp_scratch == 0,
            d.kernel_rsp == 0,
    {
        PerCpuData { user_rsp_scratch: 0, kernel_rsp: 0 }
    }

    /// Record the top of this CPU's kernel stack.
    pub fn init(&mut self, kernel_stack_top: u64)
        ensures
            final(self).kernel_rsp == kernel_stack_top,
            final(self).user_rsp_scratch == old(self).user_rsp_scratch,
    {
        self.kernel_rsp = kernel_stack_top;
    }
}

/// The MSR write that makes SWAPGS load `addr`: (MSR, low half, high half).
pub fn kernel_gs_base_write(addr: u64) -> (r: (u32, u32, u32))
    ensures
        r.0 == IA32_KERNEL_GS_BASE,
        r.1 == addr as u32,
        r.2 == (addr >> 32) as u32,
{
    let lo = addr as u32;
    let hi = (addr >> 32) as u32;
    (IA32_KERNEL_GS_BASE, lo, hi)
}

} // verus!
