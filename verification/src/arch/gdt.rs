//! Global descriptor table and task state segment contents.
use vstd::prelude::*;

verus! {

/// Segment selectors.
pub const KERNEL_CS: u16 = 0x08;
pub const KERNEL_DS: u16 = 0x10;
pub const USER_DS: u16 = 0x18 | 3;
pub const USER_CS: u16 = 0x20 | 3;
pub const TSS_SELECTOR: u16 = 0x28;

/// Interrupt stack table indices.
pub const IST_DOUBLE_FAULT: u16 = 1;
pub const IST_NMI: u16 = 2;
pub const IST_MCE: u16 = 3;

/// Size of the task state segment structure in bytes.
pub const TSS_SIZE: u16 = 104;

/// Task state segment.
pub struct Tss {
    pub reserved0: u32,
    pub rsp: [u64; 3],
    pub reserved1: u64,
    pub ist: [u64; 7],
    pub reserved2: u64,
    pub reserved3: u16,
    pub iomap_base: u16,
}

impl Tss {
    /// An empty TSS: no stacks, the I/O map placed past the end of the segment.
    pub fn new() -> (t: Self)
        ensures
            t.iomap_base == TSS_SIZE,
            forall|i: int| 0 <= i < 3 ==> #[trigger] t.rsp@[i] == 0,
            forall|i: int| 0 <= i < 7 ==> #[trigger] t.ist@[i] == 0,
    {
        Tss { reserved0: 0, rsp: [0u64; 3], reserved1: 0, ist: [0u64; 7], reserved2: 0, reserved3: 0, iomap_base: TSS_SIZE }
    }
}

/// A code or data segment descriptor.
#[derive(Debug, Clone, Copy, PartialEq, Eq, Structural)]
pub struct GdtEntry(pub u64);

impl GdtEntry {
    pub fn null() -> (e: Self)
        ensures
            e.0 == 0,
    {
        GdtEntry(0)
    }

    /// 64-bit ring 0 code.
    pub fn kernel_code() -> (e: Self)
        ensures
            e.0 == 0x00AF_9A00_0000_FFFF,
    {
        GdtEntry(0x00AF_9A00_0000_FFFF)
    }

    /// Ring 0 data.
    pub fn kernel_data() -> (e: Self)
        ensures
            e.0 == 0x00CF_9200_0000_FFFF,
    {
        GdtEntry(0x00CF_9200_0000_FFFF)
    }

    /// Ring 3 data.
    pub fn user_data() -> (e: Self)
        ensures
            e.0 == 0x00CF_F200_0000_FFFF,
    {
        GdtEntry(0x00CF_F200_0000_FFFF)
    }

    /// 64-bit ring 3 code.
    pub fn user_code() -> (e: Self)
        ensures
            e.0 == 0x00AF_FA00_0000_FFFF,
    {
        GdtEntry(0x00AF_FA00_0000_FFFF)
    }
}

/// A 16-byte TSS descriptor.
#[derive(Debug, Clone, Copy, PartialEq, Eq, Structural)]
pub struct TssDescriptor {
    pub low: u64,
    pub high: u64,
}

impl TssDescriptor {
    /// Descriptor of a TSS at `tss_addr` of `tss_size` bytes: limit in bits 0..16, base
    /// bits 0..24 in bits 16..40, type 0x89 (present, available 64-bit TSS) in bits
    /// 40..48, base bits 24..32 in bits 56..64, and base bits 32..64 in the high word.
    pub fn new(tss_addr: u64, tss_size: u16) -> (d: Self)
        requires
            tss_size >= 1,
        ensures
            d.low == ((tss_size - 1) as u64) | ((tss_addr & 0xFFFF) << 16u64) | (((tss_addr >> 16u64) & 0xFF) << 32u64)
                | (0x89u64 << 40u64) | (((tss_addr >> 24u64) & 0xFF) << 56u64),
            d.high == tss_addr >> 32u64,
    {
        let limit = tss_size - 1;
        let base_low = tss_addr & 0xFFFF;
        let base_mid = (tss_addr >> 16) & 0xFF;
        let base_mid2 = (tss_addr >> 24) & 0xFF;
        let base_high = tss_addr >> 32;
        let low = (limit as u64) | (base_low << 16) | (base_mid << 32) | (0x89u64 << 40) | (base_mid2 << 56);
        TssDescriptor { low, high: base_high }
    }
}

/// The seven GDT words: null, kernel code, kernel data, user data, user code, and the
/// two words of the TSS descriptor.
pub fn gdt_entries(tss_addr: u64) -> (e: Vec<u64>)
    ensures
        e@.len() == 7,
        e@[0] == 0,
        e@[1] == 0x00AF_9A00_0000_FFFF,
        e@[2] == 0x00CF_9200_0000_FFFF,
        e@[3] == 0x00CF_F200_0000_FFFF,
        e@[4] == 0x00AF_FA00_0000_FFFF,
        e@[5] == TssDescriptor::new_spec(tss_addr, TSS_SIZE).low,
        e@[6] == TssDescriptor::new_spec(tss_addr, TSS_SIZE).high,
{
    let d = TssDescriptor::new(tss_addr, TSS_SIZE);
    let mut e: Vec<u64> = Vec::new();
    e.push(GdtEntry::null().0);
    e.push(GdtEntry::kernel_code().0);
    e.push(GdtEntry::kernel_data().0);
    e.push(GdtEntry::user_data().0);
    e.push(GdtEntry::user_code().0);
    e.push(d.low);
    e.push(d.high);
    e
}

impl TssDescriptor {
    pub open spec fn new_spec(tss_addr: u64, tss_size: u16) -> TssDescriptor {
        TssDescriptor {
            low: ((tss_size - 1) as u64) | ((tss_addr & 0xFFFF) << 16u64) | (((tss_addr >> 16u64) & 0xFF) << 32u64)
                | (0x89u64 << 40u64) | (((tss_addr >> 24u64) & 0xFF) << 56u64),
            high: tss_addr >> 32u64,
        }
    }
}

} // verus!
