//! Loading an ELF executable into a new user address space.
use vstd::prelude::*;
use crate::errno::Errno;
use crate::memory::paging::{
    has_frame, is_free_frame, pmm_in_mem, pmm_shrunk, PageFlags, PhysMem, ADDR_MASK,
    FLAG_NO_EXECUTE, FLAG_USER, FLAG_WRITABLE, lemma_shrunk_trans,
};
use crate::memory::addr::PAGE_SIZE;
use crate::memory::pmm::{Pmm, Zone};
use crate::process::address_space::{AddressSpace, USER_HEAP_START, USER_STACK_TOP};
use crate::process::elf::{elf_valid, lemma_parsed_segments_safe, load_segments, parse, ElfSegment, PF_W, PF_X};
use vstd::slice::slice_subrange;
use crate::bytes::{le16, le64};

verus! {

/// Page flags of a loaded segment: user; writable if the segment is; not executable
/// unless the segment is.
pub open spec fn segment_flags_spec(s: ElfSegment) -> u64 {
    let base = if s.flags & PF_W != 0 { FLAG_USER | FLAG_WRITABLE } else { FLAG_USER };
    if s.flags & PF_X != 0 { base } else { base | FLAG_NO_EXECUTE }
}

pub fn segment_flags(seg: &ElfSegment) -> (f: PageFlags)
    ensures
        f.spec_bits() == segment_flags_spec(*seg),
{
    let mut bits = FLAG_USER;
    if seg.is_writable() {
        bits = bits | FLAG_WRITABLE;
    }
    if !seg.is_executable() {
        bits = bits | FLAG_NO_EXECUTE;
    }
    PageFlags { bits }
}

/// The step of loading that failed.
#[derive(Debug, Clone, Copy, PartialEq, Eq, Structural)]
pub enum ExecError {
    InvalidElf(Errno),
    AddressSpace(Errno),
    LoadSegment(Errno),
    UserStack(Errno),
}

/// A program ready to enter user mode: its address space, its entry point, its
/// initial stack pointer, and the segments whose file bytes go into the mapped pages.
pub struct LoadedProgram {
    pub space: AddressSpace,
    pub entry: u64,
    pub user_rsp: u64,
    pub segments: Vec<ElfSegment>,
}

/// Load an executable: parse it, make a new address space (kernel half copied
/// from the one `current_cr3` names), map each loadable segment's pages with its
/// flags and copy its file bytes into them, then map the user stack. A segment
/// whose end passes the top of the address space cannot be mapped and fails as a
/// segment load.
pub fn load_program(
    elf_data: &[u8],
    hhdm_offset: u64,
    current_cr3: u64,
    mem: &mut PhysMem,
    pmm: &mut Pmm,
) -> (r: Result<LoadedProgram, ExecError>)
    requires
        old(mem).wf(),
        old(pmm).wf(),
        pmm_in_mem(*old(pmm), old(mem).words@),
        has_frame(old(mem).words@, ((current_cr3 & ADDR_MASK) / PAGE_SIZE) as int),
        !is_free_frame(*old(pmm), ((current_cr3 & ADDR_MASK) / PAGE_SIZE) as int),
    ensures
        final(mem).wf(),
        final(mem).words@.len() == old(mem).words@.len(),
        final(pmm).wf(),
        pmm_in_mem(*final(pmm), final(mem).words@),
        pmm_shrunk(*old(pmm), *final(pmm)),
        !elf_valid(elf_data@) <==> r == Err::<LoadedProgram, ExecError>(ExecError::InvalidElf(Errno::ENOEXEC)),
        elf_valid(elf_data@) && old(pmm).serving_zone(Zone::Normal) is None
            ==> r == Err::<LoadedProgram, ExecError>(ExecError::AddressSpace(Errno::ENOMEM)),
        r matches Err(ExecError::AddressSpace(e)) ==> e == Errno::ENOMEM,
        r matches Err(ExecError::LoadSegment(e)) ==> e == Errno::ENOMEM,
        r matches Err(ExecError::UserStack(e)) ==> e == Errno::ENOMEM,
        r matches Ok(p) ==> {
            &&& elf_valid(elf_data@)
            &&& p.entry == le64(elf_data@, 24)
            &&& p.user_rsp == USER_STACK_TOP
            &&& p.segments@ == load_segments(elf_data@, le16(elf_data@, 56) as nat)
            &&& p.space.hhdm_offset == hhdm_offset
            &&& p.space.brk == USER_HEAP_START
            &&& has_frame(final(mem).words@, p.space.pml4_frame.0 as int)
            &&& is_free_frame(*old(pmm), p.space.pml4_frame.0 as int)
        },
{
    let info = match parse(elf_data) {
        Ok(i) => i,
        Err(e) => return Err(ExecError::InvalidElf(e)),
    };
    let ghost pm0 = *pmm;
    let space = match AddressSpace::new(hhdm_offset, current_cr3, mem, pmm) {
        Ok(s) => s,
        Err(e) => return Err(ExecError::AddressSpace(e)),
    };
    let ghost p4 = space.pml4_frame.0 as int;
    let mut i: usize = 0;
    while i < info.segments.len()
        invariant
            i <= info.segments@.len(),
            mem.wf(),
            mem.words@.len() == old(mem).words@.len(),
            pmm.wf(),
            pmm_in_mem(*pmm, mem.words@),
            pmm_shrunk(*old(pmm), *pmm),
            has_frame(mem.words@, p4),
            p4 == space.pml4_frame.0 as int,
            elf_valid(elf_data@),
            old(pmm).serving_zone(Zone::Normal) is Some,
            info.segments@ == load_segments(elf_data@, le16(elf_data@, 56) as nat),
        decreases info.segments@.len() - i,
    {
        let seg = info.segments[i];
        let flags = segment_flags(&seg);
        if seg.memsz > u64::MAX - PAGE_SIZE || seg.vaddr > u64::MAX - PAGE_SIZE - seg.memsz {
            return Err(ExecError::LoadSegment(Errno::ENOMEM));
        }
        proof {
            lemma_parsed_segments_safe(elf_data@);
            let segs = load_segments(elf_data@, le16(elf_data@, 56) as nat);
            assert(seg == segs[i as int]);
            assert(seg.offset + seg.filesz <= elf_data@.len());
        }
        let dlen = elf_data.len();
        assert(seg.offset + seg.filesz <= dlen);
        let start = seg.offset as usize;
        let end = (seg.offset + seg.filesz) as usize;
        let bytes = slice_subrange(elf_data, start, end);
        let ghost pm1 = *pmm;
        let loaded = space.load_segment(mem, pmm, seg.vaddr, bytes, seg.memsz, flags);
        proof {
            lemma_shrunk_trans(*old(pmm), pm1, *pmm);
        }
        if let Err(e) = loaded {
            return Err(ExecError::LoadSegment(e));
        }
        i = i + 1;
    }
    let ghost pm2 = *pmm;
    let stack = space.map_user_stack(mem, pmm);
    proof {
        lemma_shrunk_trans(*old(pmm), pm2, *pmm);
    }
    if let Err(e) = stack {
        return Err(ExecError::UserStack(e));
    }
    Ok(LoadedProgram { space, entry: info.entry_point, user_rsp: USER_STACK_TOP, segments: info.segments })
}

} // verus!
