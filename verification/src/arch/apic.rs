//! Local APIC: register values and the tick counter.
use vstd::prelude::*;

verus! {

/// Register offsets.
pub const APIC_ID: u32 = 0x020;
pub const APIC_VERSION: u32 = 0x030;
pub const APIC_TPR: u32 = 0x080;
pub const APIC_EOI: u32 = 0x0B0;
pub const APIC_SVR: u32 = 0x0F0;
pub const APIC_LVT_TIMER: u32 = 0x320;
pub const APIC_TIMER_INIT: u32 = 0x380;
pub const APIC_TIMER_CURRENT: u32 = 0x390;
pub const APIC_TIMER_DIV: u32 = 0x3E0;

/// Timer interrupt vector.
pub const TIMER_VECTOR: u8 = 0x20;

/// Spurious interrupt vector.
pub const SPURIOUS_VECTOR: u8 = 0xFF;

/// Divide configuration value for divide-by-16.
pub const TIMER_DIV_16: u32 = 0x03;

/// Periodic mode bit of the LVT timer register.
pub const LVT_PERIODIC: u32 = 1 << 17;

/// APIC global enable bit of the APIC base MSR.
pub const APIC_BASE_ENABLE: u64 = 1 << 11;

/// Timer calibration and tick count of the local APIC.
pub struct Apic {
    pub ticks_per_ms: u64,
    pub tick_count: u64,
}

impl Apic {
    /// Not calibrated, no ticks.
    pub fn new() -> (a: Self)
        ensures
            a.ticks_per_ms == 0,
            a.tick_count == 0,
    {
        Apic { ticks_per_ms: 0, tick_count: 0 }
    }

    /// Physical base of the APIC registers from the APIC base MSR.
    pub fn base_from_msr(msr: u64) -> (r: u64)
        ensures
            r == msr & 0xFFFF_FFFF_FFFF_F000,
    {
        msr & 0xFFFF_FFFF_FFFF_F000
    }

    /// The APIC base MSR with the global enable bit set.
    pub fn enabled_msr(msr: u64) -> (r: u64)
        ensures
            r == msr | APIC_BASE_ENABLE,
    {
        msr | APIC_BASE_ENABLE
    }

    /// Spurious vector register value: the spurious vector, software enabled.
    pub fn svr_value() -> (r: u32)
        ensures
            r == SPURIOUS_VECTOR as u32 | 0x100,
    {
        SPURIOUS_VECTOR as u32 | 0x100
    }

    /// Record the calibration: the timer counted down from its maximum to `current`
    /// during 10 ms.
    pub fn calibrate(&mut self, current: u32)
        ensures
            final(self).ticks_per_ms == (0xFFFF_FFFFu32 - current) as u64 / 10,
            final(self).tick_count == old(self).tick_count,
    {
        let elapsed = 0xFFFF_FFFFu32 - current;
        self.ticks_per_ms = elapsed as u64 / 10;
    }

    /// The register writes that start the periodic 1 ms timer: divide by 16, periodic
    /// mode on the timer vector, initial count of one millisecond's ticks.
    pub fn start_periodic(&self) -> (w: Vec<(u32, u32)>)
        requires
            self.ticks_per_ms != 0,
        ensures
            w@ == seq![
                (APIC_TIMER_DIV, TIMER_DIV_16),
                (APIC_LVT_TIMER, LVT_PERIODIC | TIMER_VECTOR as u32),
                (APIC_TIMER_INIT, self.ticks_per_ms as u32),
            ],
    {
        let mut w: Vec<(u32, u32)> = Vec::new();
        w.push((APIC_TIMER_DIV, TIMER_DIV_16));
        w.push((APIC_LVT_TIMER, LVT_PERIODIC | TIMER_VECTOR as u32));
        w.push((APIC_TIMER_INIT, self.ticks_per_ms as u32));
        w
    }

    /// Count one timer tick.
    pub fn tick(&mut self)
        ensures
            final(self).tick_count == old(self).tick_count.wrapping_add(1),
            final(self).ticks_per_ms == old(self).ticks_per_ms,
    {
        self.tick_count = self.tick_count.wrapping_add(1);
    }

    /// Ticks counted so far.
    pub fn ticks(&self) -> (r: u64)
        ensures
            r == self.tick_count,
    {
        self.tick_count
    }
}

/// The end-of-interrupt write.
pub fn eoi() -> (w: (u32, u32))
    ensures
        w == (APIC_EOI, 0u32),
{
    (APIC_EOI, 0)
}

/// The APIC id in the ID register value.
pub fn id(id_reg: u32) -> (r: u32)
    ensures
        r == id_reg >> 24u32,
{
    id_reg >> 24
}

} // verus!
