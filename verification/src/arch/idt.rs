//! Interrupt descriptor table entries.
use vstd::prelude::*;
use crate::arch::gdt::KERNEL_CS;

verus! {

/// The frame the CPU pushes on an interrupt.
#[derive(Debug, Clone)]
pub struct InterruptFrame {
    pub rip: u64,
    pub cs: u64,
    pub rflags: u64,
    pub rsp: u64,
    pub ss: u64,
}

/// Gate types.
#[derive(Debug, Clone, Copy, PartialEq, Eq, Structural)]
pub enum GateType {
    /// Clears IF on entry.
    Interrupt,
    /// Preserves IF.
    Trap,
}

pub open spec fn gate_bits(g: GateType) -> u8 {
    match g {
        GateType::Interrupt => 0xE,
        GateType::Trap => 0xF,
    }
}

/// A 16-byte IDT gate descriptor.
#[derive(Debug, Clone, Copy, PartialEq, Eq, Structural)]
pub struct IdtEntry {
    pub offset_low: u16,
    pub selector: u16,
    pub ist: u8,
    pub type_attr: u8,
    pub offset_mid: u16,
    pub offset_high: u32,
    pub reserved: u32,
}

impl IdtEntry {
    /// A not-present gate.
    pub fn missing() -> (e: Self)
        ensures
            e == (IdtEntry { offset_low: 0, selector: 0, ist: 0, type_attr: 0, offset_mid: 0, offset_high: 0, reserved: 0 }),
    {
        IdtEntry { offset_low: 0, selector: 0, ist: 0, type_attr: 0, offset_mid: 0, offset_high: 0, reserved: 0 }
    }

    /// Aim the entry at `handler` through the kernel code segment, present, with the
    /// given gate type and interrupt stack.
    pub fn set_handler(&mut self, handler: u64, gate_type: GateType, ist: u8)
        ensures
            final(self).offset_low == handler as u16,
            final(self).offset_mid == (handler >> 16u64) as u16,
            final(self).offset_high == (handler >> 32u64) as u32,
            final(self).selector == KERNEL_CS,
            final(self).ist == ist,
            final(self).type_attr == 0x80 | gate_bits(gate_type),
            final(self).reserved == 0,
    {
        self.offset_low = handler as u16;
        self.offset_mid = (handler >> 16) as u16;
        self.offset_high = (handler >> 32) as u32;
        self.selector = KERNEL_CS;
        self.ist = ist;
        let g: u8 = match gate_type {
            GateType::Interrupt => 0xE,
            GateType::Trap => 0xF,
        };
        self.type_attr = 0x80 | g;
        self.reserved = 0;
    }

    /// The handler address held in the entry.
    pub open spec fn handler(self) -> u64 {
        (self.offset_low as u64) | ((self.offset_mid as u64) << 16u64) | ((self.offset_high as u64) << 32u64)
    }
}

/// A gate set to a handler leads back to that handler.
pub proof fn lemma_set_handler_roundtrip(e: IdtEntry, handler: u64)
    requires
        e.offset_low == handler as u16,
        e.offset_mid == (handler >> 16u64) as u16,
        e.offset_high == (handler >> 32u64) as u32,
    ensures
        e.handler() == handler,
{
    let lo = e.offset_low;
    let mid = e.offset_mid;
    let hi = e.offset_high;
    assert(((lo as u64) | ((mid as u64) << 16u64) | ((hi as u64) << 32u64)) == handler) by (bit_vector)
        requires
            lo == handler as u16,
            mid == (handler >> 16u64) as u16,
            hi == (handler >> 32u64) as u32,
    ;
}

} // verus!
