//! CPU identification and feature checks.
use vstd::prelude::*;
use crate::bytes::{byte32, byte32_exec};

verus! {

/// RFLAGS interrupt-enable bit.
pub const RFLAGS_IF_BIT: u64 = 1 << 9;

/// Whether interrupts are enabled, given the RFLAGS register.
pub fn interrupts_enabled(rflags: u64) -> (r: bool)
    ensures
        r == (rflags & RFLAGS_IF_BIT != 0),
{
    rflags & RFLAGS_IF_BIT != 0
}

/// Result of a CPUID instruction.
#[derive(Debug, Clone, Copy)]
pub struct CpuidResult {
    pub eax: u32,
    pub ebx: u32,
    pub ecx: u32,
    pub edx: u32,
}

/// Detected CPU feature set.
#[derive(Debug)]
pub struct CpuFeatures {
    pub has_apic: bool,
    pub has_tsc: bool,
    pub has_fxsave: bool,
    pub has_sse2: bool,
    pub has_xsave: bool,
    pub has_rdrand: bool,
    pub has_rdseed: bool,
    pub has_nx: bool,
    pub has_syscall: bool,
    pub has_1gib_pages: bool,
    pub xsave_area_size: u32,
    pub vendor: [u8; 12],
    pub family: u8,
    pub model: u8,
    pub stepping: u8,
}

/// Bit `n` of `x` is set.
pub open spec fn bit(x: u32, n: u32) -> bool {
    x & (1u32 << n) != 0
}

/// Display family from leaf 1 EAX: the base family, plus the extended family when the
/// base is 0xF (wrapping in a byte).
pub open spec fn family_of(eax: u32) -> u8 {
    let base = (eax / 0x100) % 16;
    if base == 0xF { ((base + (eax / 0x10_0000) % 256) % 256) as u8 } else { base as u8 }
}

/// Display model from leaf 1 EAX: the base model, plus the extended model shifted in
/// for families 6 and 0xF.
pub open spec fn model_of(eax: u32) -> u8 {
    let base = (eax / 0x10) % 16;
    let fam = family_of(eax);
    if fam == 6 || fam == 0xF { (base + ((eax / 0x1_0000) % 16) * 16) as u8 } else { base as u8 }
}

impl CpuFeatures {
    /// The features that CPUID leaves 0, 1, 7, 0x8000_0001 and 0xD report.
    pub fn detect(leaf0: CpuidResult, leaf1: CpuidResult, leaf7: CpuidResult, leaf_ext1: CpuidResult, leaf_xsave: CpuidResult) -> (f: Self)
        ensures
            forall|i: int| 0 <= i < 4 ==> #[trigger] f.vendor@[i] == byte32(leaf0.ebx, i),
            forall|i: int| 4 <= i < 8 ==> #[trigger] f.vendor@[i] == byte32(leaf0.edx, i - 4),
            forall|i: int| 8 <= i < 12 ==> #[trigger] f.vendor@[i] == byte32(leaf0.ecx, i - 8),
            f.stepping == leaf1.eax % 16,
            f.family == family_of(leaf1.eax),
            f.model == model_of(leaf1.eax),
            f.has_apic == bit(leaf1.edx, 9),
            f.has_tsc == bit(leaf1.edx, 4),
            f.has_fxsave == bit(leaf1.edx, 24),
            f.has_sse2 == bit(leaf1.edx, 26),
            f.has_xsave == bit(leaf1.ecx, 26),
            f.has_rdrand == bit(leaf1.ecx, 30),
            f.has_rdseed == bit(leaf7.ebx, 18),
            f.has_nx == bit(leaf_ext1.edx, 20),
            f.has_syscall == bit(leaf_ext1.edx, 11),
            f.has_1gib_pages == bit(leaf_ext1.edx, 26),
            f.xsave_area_size == if bit(leaf1.ecx, 26) { leaf_xsave.ecx } else { 512 },
    {
        let mut vendor = [0u8; 12];
        let mut i: usize = 0;
        while i < 4
            invariant
                i <= 4,
                forall|k: int| 0 <= k < i ==> #[trigger] vendor@[k] == byte32(leaf0.ebx, k),
                forall|k: int| 4 <= k < 4 + i ==> #[trigger] vendor@[k] == byte32(leaf0.edx, k - 4),
                forall|k: int| 8 <= k < 8 + i ==> #[trigger] vendor@[k] == byte32(leaf0.ecx, k - 8),
            decreases 4 - i,
        {
            vendor[i] = byte32_exec(leaf0.ebx, i);
            vendor[4 + i] = byte32_exec(leaf0.edx, i);
            vendor[8 + i] = byte32_exec(leaf0.ecx, i);
            i = i + 1;
        }
        let eax = leaf1.eax;
        let stepping = (eax & 0xF) as u8;
        let mut model = ((eax >> 4) & 0xF) as u8;
        let mut family = ((eax >> 8) & 0xF) as u8;
        assert(eax & 0xF == eax % 16) by (bit_vector);
        assert((eax >> 4) & 0xF == (eax / 0x10) % 16) by (bit_vector);
        assert((eax >> 8) & 0xF == (eax / 0x100) % 16) by (bit_vector);
        assert((eax >> 20) & 0xFF == (eax / 0x10_0000) % 256) by (bit_vector);
        assert((eax >> 16) & 0xF == (eax / 0x1_0000) % 16) by (bit_vector);
        if family == 0xF {
            family = family.wrapping_add(((eax >> 20) & 0xFF) as u8);
        }
        if family == 0x6 || family == 0xF {
            let e = ((eax >> 16) & 0xF) as u8;
            assert((e << 4u8) == e * 16) by (bit_vector)
                requires
                    e < 16,
            ;
            model = model + (e << 4);
        }
        let has_apic = leaf1.edx & (1 << 9) != 0;
        let has_tsc = leaf1.edx & (1 << 4) != 0;
        let has_fxsave = leaf1.edx & (1 << 24) != 0;
        let has_sse2 = leaf1.edx & (1 << 26) != 0;
        let has_xsave = leaf1.ecx & (1 << 26) != 0;
        let has_rdrand = leaf1.ecx & (1 << 30) != 0;
        let has_rdseed = leaf7.ebx & (1 << 18) != 0;
        let has_nx = leaf_ext1.edx & (1 << 20) != 0;
        let has_syscall = leaf_ext1.edx & (1 << 11) != 0;
        let has_1gib_pages = leaf_ext1.edx & (1 << 26) != 0;
        let xsave_area_size = if has_xsave { leaf_xsave.ecx } else { 512 };
        CpuFeatures {
            has_apic,
            has_tsc,
            has_fxsave,
            has_sse2,
            has_xsave,
            has_rdrand,
            has_rdseed,
            has_nx,
            has_syscall,
            has_1gib_pages,
            xsave_area_size,
            vendor,
            family,
            model,
            stepping,
        }
    }

    /// The first required feature that is missing (APIC, TSC, FXSAVE/FXRSTOR, SSE2, NX
    /// bit, SYSCALL/SYSRET, in that order), or `None` when all are present.
    pub fn validate(&self) -> (r: Option<&'static str>)
        ensures
            r is None <==> (self.has_apic && self.has_tsc && self.has_fxsave && self.has_sse2 && self.has_nx && self.has_syscall),
            !self.has_apic ==> r == Some("APIC"),
            self.has_apic && !self.has_tsc ==> r == Some("TSC"),
            self.has_apic && self.has_tsc && !self.has_fxsave ==> r == Some("FXSAVE/FXRSTOR"),
            self.has_apic && self.has_tsc && self.has_fxsave && !self.has_sse2 ==> r == Some("SSE2"),
            self.has_apic && self.has_tsc && self.has_fxsave && self.has_sse2 && !self.has_nx ==> r == Some("NX bit"),
            self.has_apic && self.has_tsc && self.has_fxsave && self.has_sse2 && self.has_nx && !self.has_syscall
                ==> r == Some("SYSCALL/SYSRET"),
    {
        if !self.has_apic {
            return Some("APIC");
        }
        if !self.has_tsc {
            return Some("TSC");
        }
        if !self.has_fxsave {
            return Some("FXSAVE/FXRSTOR");
        }
        if !self.has_sse2 {
            return Some("SSE2");
        }
        if !self.has_nx {
            return Some("NX bit");
        }
        if !self.has_syscall {
            return Some("SYSCALL/SYSRET");
        }
        None
    }
}

} // verus!
