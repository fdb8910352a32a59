//! User address spaces: a level-4 table, the program break, and the operations that
//! fill the tables (mapping pages, the user stack, ELF segments, copy-on-write fork).
use vstd::prelude::*;
use crate::errno::Errno;
use crate::memory::addr::{PhysFrame, VirtAddr, PAGE_SIZE};
use crate::memory::cow::{CowRefcounts, inc_ref, ref_count, frame_key};
use crate::memory::paging::{
    PageFlags, PageMapper, PhysMem, MapError, ADDR_MASK, FLAG_PRESENT, FLAG_WRITABLE, FLAG_USER,
    FLAG_NO_EXECUTE, FLAGS_ALL, MAX_MEM_FRAMES, has_frame, entry_of, translate_spec, pmm_in_mem,
    pmm_shrunk, pmm_unique, is_free_frame, path_distinct, free_off_path, frame_zeroed, agree_outside,
    lemma_pop_shrinks, lemma_shrunk_trans, lemma_shrunk_count, write_byte_spec, lemma_free_serves,
};
use crate::memory::pmm::{Pmm, Zone};

verus! {

/// Top of the user stack.
pub const USER_STACK_TOP: u64 = 0x0000_7FFF_FFFF_F000;

/// Size of the user stack: 64 pages.
pub const USER_STACK_SIZE: u64 = 64 * PAGE_SIZE;

/// Bottom of the user stack.
pub const USER_STACK_BOTTOM: u64 = USER_STACK_TOP - USER_STACK_SIZE;

/// Start of the user heap (the first program break).
pub const USER_HEAP_START: u64 = 0x0000_4000_0000_0000;

/// Page-table bit the fork marks shared pages with.
pub const COW_BIT: u64 = 1 << 9;

/// A user address space: the frame of its level-4 table, its program break and the
/// offset of the direct map.
pub struct AddressSpace {
    pub pml4_frame: PhysFrame,
    pub brk: u64,
    pub hhdm_offset: u64,
}

/// The entry a forked leaf gets: writable cleared, copy-on-write set.
pub open spec fn cow_entry(e: u64) -> u64 {
    (e & !FLAG_WRITABLE) | COW_BIT
}

/// Take a frame from the Normal zone (or a fallback); the frame lies inside memory.
fn take_frame(mem: &PhysMem, pmm: &mut Pmm) -> (r: Option<u64>)
    requires
        old(pmm).wf(),
        pmm_in_mem(*old(pmm), mem.words@),
    ensures
        final(pmm).wf(),
        final(pmm).total_frames == old(pmm).total_frames,
        pmm_in_mem(*final(pmm), mem.words@),
        pmm_shrunk(*old(pmm), *final(pmm)),
        pmm_unique(*old(pmm)) ==> pmm_unique(*final(pmm)),
        r is None <==> old(pmm).serving_zone(Zone::Normal) is None,
        r is None ==> final(pmm).same_as(*old(pmm)),
        r is Some ==> final(pmm).free_frames + 1 == old(pmm).free_frames,
        r matches Some(f) ==> has_frame(mem.words@, f as int) && is_free_frame(*old(pmm), f as int)
            && (pmm_unique(*old(pmm)) ==> !is_free_frame(*final(pmm), f as int)),
{
    let ghost pm0 = *pmm;
    match pmm.alloc_normal() {
        Some(f) => {
            proof {
                let zs = pm0.serving_zone(Zone::Normal)->0;
                lemma_pop_shrinks(pm0, *pmm, zs);
                let k = pm0.free_list(zs).len() - 1;
                assert(pm0.free_list(zs)[k] == f.0);
                assert(has_frame(mem.words@, pm0.free_list(zs)[k] as int));
            }
            Some(f.0)
        },
        None => {
            proof {
                assert(pmm_shrunk(pm0, *pmm));
            }
            None
        },
    }
}

/// Memory after the bytes of `data` are written one by one, byte `i` at the physical
/// address that `vaddr + i` (with wrap-around) translates to in the tables at that
/// moment; bytes whose address is not mapped are skipped.
pub open spec fn copied_spec(m: Seq<u64>, p4: int, vaddr: u64, data: Seq<u8>) -> Seq<u64>
    decreases data.len(),
{
    if data.len() == 0 {
        m
    } else {
        let m1 = copied_spec(m, p4, vaddr, data.drop_last());
        match translate_spec(m1, p4, vaddr.wrapping_add((data.len() - 1) as u64)) {
            Some(a) => write_byte_spec(m1, a, data.last()),
            None => m1,
        }
    }
}

impl AddressSpace {
    /// A new address space: a fresh zeroed level-4 table whose kernel half (entries
    /// 256 to 511) is copied from the current one, found from `current_cr3`.
    pub fn new(hhdm_offset: u64, current_cr3: u64, mem: &mut PhysMem, pmm: &mut Pmm) -> (r: Result<Self, Errno>)
        requires
            old(mem).wf(),
            old(pmm).wf(),
            pmm_in_mem(*old(pmm), old(mem).words@),
            has_frame(old(mem).words@, ((current_cr3 & ADDR_MASK) / PAGE_SIZE) as int),
            !is_free_frame(*old(pmm), ((current_cr3 & ADDR_MASK) / PAGE_SIZE) as int),
        ensures
            final(mem).wf(),
            final(mem).words@.len() == old(mem).words@.len(),
            final(pmm).wf(),
            pmm_in_mem(*final(pmm), final(mem).words@),
            pmm_shrunk(*old(pmm), *final(pmm)),
            r is Err <==> old(pmm).serving_zone(Zone::Normal) is None,
            r is Err ==> r == Err::<Self, Errno>(Errno::ENOMEM) && final(mem).words@ == old(mem).words@,
            r matches Ok(a) ==> {
                let p4 = a.pml4_frame.0 as int;
                let cur = ((current_cr3 & ADDR_MASK) / PAGE_SIZE) as int;
                &&& a.brk == USER_HEAP_START
                &&& a.hhdm_offset == hhdm_offset
                &&& has_frame(final(mem).words@, p4)
                &&& is_free_frame(*old(pmm), p4)
                &&& forall|j: int| 0 <= j < 256 ==> #[trigger] entry_of(final(mem).words@, p4, j) == 0
                &&& forall|j: int| 256 <= j < 512 ==> #[trigger] entry_of(final(mem).words@, p4, j)
                    == entry_of(old(mem).words@, cur, j)
                &&& agree_outside(old(mem).words@, final(mem).words@, set![p4])
            },
    {
        let f = match take_frame(mem, pmm) {
            Some(f) => f,
            None => return Err(Errno::ENOMEM),
        };
        let cur = (current_cr3 & ADDR_MASK) / PAGE_SIZE;
        let ghost m0 = mem.words@;
        assert(f != cur);
        mem.zero_frame(f);
        let ghost m1 = mem.words@;
        let mut i: usize = 256;
        while i < 512
            invariant
                256 <= i <= 512,
                f != cur,
                has_frame(m0, f as int),
                has_frame(m0, cur as int),
                mem.words@.len() == m0.len(),
                agree_outside(m0, mem.words@, set![f as int]),
                forall|j: int| 0 <= j < 256 ==> #[trigger] entry_of(mem.words@, f as int, j) == 0,
                forall|j: int| 256 <= j < i ==> #[trigger] entry_of(mem.words@, f as int, j) == entry_of(m0, cur as int, j),
            decreases 512 - i,
        {
            proof {
                lemma_frame_word(cur as int, i as int);
            }
            let e = mem.read_entry(cur, i).unwrap();
            assert(e == entry_of(m0, cur as int, i as int));
            let ghost before = mem.words@;
            mem.write_entry(f, i, e);
            proof {
                assert forall|j: int| 0 <= j < 256 implies #[trigger] entry_of(mem.words@, f as int, j) == 0 by {
                    assert(entry_of(before, f as int, j) == 0);
                }
                assert forall|j: int| 256 <= j < i + 1 implies #[trigger] entry_of(mem.words@, f as int, j) == entry_of(m0, cur as int, j) by {
                    if j < i {
                        assert(entry_of(before, f as int, j) == entry_of(m0, cur as int, j));
                    }
                }
                assert forall|k: int| 0 <= k < m0.len() && !set![f as int].contains(k / 512) implies #[trigger] mem.words@[k] == m0[k] by {
                    lemma_frame_word(f as int, i as int);
                    assert(before[k] == m0[k]);
                }
            }
            i = i + 1;
        }
        Ok(AddressSpace { pml4_frame: PhysFrame(f), brk: USER_HEAP_START, hhdm_offset })
    }

    /// Map the page of `virt` to `frame` with `flags`; any mapper error is ENOMEM.
    pub fn map_page(&self, mem: &mut PhysMem, pmm: &mut Pmm, virt: VirtAddr, frame: PhysFrame, flags: PageFlags) -> (r: Result<(), Errno>)
        requires
            old(mem).wf(),
            old(pmm).wf(),
            pmm_in_mem(*old(pmm), old(mem).words@),
        ensures
            final(mem).wf(),
            final(mem).words@.len() == old(mem).words@.len(),
            final(pmm).wf(),
            pmm_in_mem(*final(pmm), final(mem).words@),
            pmm_shrunk(*old(pmm), *final(pmm)),
            r is Err ==> r == Err::<(), Errno>(Errno::ENOMEM),
            !has_frame(old(mem).words@, self.pml4_frame.0 as int) ==> r is Err && final(mem).words@ == old(mem).words@,
            r is Ok && path_distinct(old(mem).words@, self.pml4_frame.0 as int, virt.0)
                && free_off_path(*old(pmm), old(mem).words@, self.pml4_frame.0 as int, virt.0)
                && pmm_unique(*old(pmm))
                && frame.0 < MAX_MEM_FRAMES
                && flags.bits & !FLAGS_ALL == 0
                ==> translate_spec(final(mem).words@, self.pml4_frame.0 as int, virt.0)
                    == Some((frame.0 * PAGE_SIZE + virt.0 % PAGE_SIZE) as u64),
    {
        let mut mapper = PageMapper::new(self.pml4_frame, self.hhdm_offset);
        match mapper.map(mem, pmm, virt, frame, flags) {
            Ok(()) => Ok(()),
            Err(_) => Err(Errno::ENOMEM),
        }
    }

    /// Take a frame and map the page of `virt` to it; gives the frame.
    pub fn alloc_and_map(&self, mem: &mut PhysMem, pmm: &mut Pmm, virt: VirtAddr, flags: PageFlags) -> (r: Result<PhysFrame, Errno>)
        requires
            old(mem).wf(),
            old(pmm).wf(),
            pmm_in_mem(*old(pmm), old(mem).words@),
        ensures
            final(mem).wf(),
            final(mem).words@.len() == old(mem).words@.len(),
            final(pmm).wf(),
            pmm_in_mem(*final(pmm), final(mem).words@),
            pmm_shrunk(*old(pmm), *final(pmm)),
            r is Err ==> r == Err::<PhysFrame, Errno>(Errno::ENOMEM),
            old(pmm).serving_zone(Zone::Normal) is None ==> r is Err && final(mem).words@ == old(mem).words@,
            r matches Ok(f) ==> is_free_frame(*old(pmm), f.0 as int),
            r is Ok ==> final(pmm).free_frames + 1 <= old(pmm).free_frames,
    {
        let f = match take_frame(mem, pmm) {
            Some(f) => f,
            None => return Err(Errno::ENOMEM),
        };
        let ghost pm1 = *pmm;
        match self.map_page(mem, pmm, virt, PhysFrame(f), flags) {
            Ok(()) => {
                proof {
                    lemma_shrunk_trans(*old(pmm), pm1, *pmm);
                    lemma_shrunk_count(pm1, *pmm);
                }
                Ok(PhysFrame(f))
            },
            Err(e) => {
                proof {
                    lemma_shrunk_trans(*old(pmm), pm1, *pmm);
                }
                Err(e)
            },
        }
    }

    /// Map the 64 pages of the user stack, writable, user, not executable, each to a
    /// fresh frame; stops at the first failure.
    pub fn map_user_stack(&self, mem: &mut PhysMem, pmm: &mut Pmm) -> (r: Result<(), Errno>)
        requires
            old(mem).wf(),
            old(pmm).wf(),
            pmm_in_mem(*old(pmm), old(mem).words@),
        ensures
            final(mem).wf(),
            final(mem).words@.len() == old(mem).words@.len(),
            final(pmm).wf(),
            pmm_in_mem(*final(pmm), final(mem).words@),
            pmm_shrunk(*old(pmm), *final(pmm)),
            r is Err ==> r == Err::<(), Errno>(Errno::ENOMEM),
            old(pmm).serving_zone(Zone::Normal) is None ==> r is Err && final(mem).words@ == old(mem).words@,
            r is Ok ==> final(pmm).free_frames + 64 <= old(pmm).free_frames,
    {
        let pages = USER_STACK_SIZE / PAGE_SIZE;
        let flags = PageFlags::from_bits_truncate(FLAG_WRITABLE | FLAG_USER | FLAG_NO_EXECUTE);
        let mut i: u64 = 0;
        while i < pages
            invariant
                pages == 64,
                i <= pages,
                mem.wf(),
                mem.words@.len() == old(mem).words@.len(),
                pmm.wf(),
                pmm_in_mem(*pmm, mem.words@),
                pmm_shrunk(*old(pmm), *pmm),
                pmm.free_frames + i <= old(pmm).free_frames,
                i == 0 ==> mem.words@ == old(mem).words@ && *pmm == *old(pmm),
                i > 0 ==> old(pmm).serving_zone(Zone::Normal) is Some,
            decreases pages - i,
        {
            let addr = USER_STACK_BOTTOM + i * PAGE_SIZE;
            let ghost pm0 = *pmm;
            let r = self.alloc_and_map(mem, pmm, VirtAddr(addr), flags);
            proof {
                lemma_shrunk_trans(*old(pmm), pm0, *pmm);
            }
            if r.is_err() {
                return Err(Errno::ENOMEM);
            }
            i = i + 1;
        }
        Ok(())
    }

    /// Write the bytes of `data` one by one, byte `i` at the physical address that
    /// `vaddr + i` translates to at that moment; a byte whose address is not mapped
    /// is skipped.
    pub fn copy_segment(&self, mem: &mut PhysMem, vaddr: u64, data: &[u8])
        requires
            old(mem).wf(),
        ensures
            final(mem).wf(),
            final(mem).words@.len() == old(mem).words@.len(),
            final(mem).words@ == copied_spec(old(mem).words@, self.pml4_frame.0 as int, vaddr, data@),
    {
        let mapper = PageMapper::new(self.pml4_frame, self.hhdm_offset);
        let mut i: usize = 0;
        proof {
            assert(data@.take(0) =~= Seq::<u8>::empty());
        }
        while i < data.len()
            invariant
                i <= data@.len(),
                mapper.p4_frame == self.pml4_frame,
                mem.words@.len() == old(mem).words@.len(),
                mem.wf(),
                mem.words@ == copied_spec(old(mem).words@, self.pml4_frame.0 as int, vaddr, data@.take(i as int)),
            decreases data@.len() - i,
        {
            proof {
                assert(data@.take(i + 1).drop_last() =~= data@.take(i as int));
            }
            let target = vaddr.wrapping_add(i as u64);
            if let Some(phys) = mapper.translate(mem, VirtAddr(target)) {
                mem.write_byte(phys.0, data[i]);
            }
            i = i + 1;
        }
        proof {
            assert(data@.take(data@.len() as int) =~= data@);
        }
    }

    /// Map the pages that cover `memsz` bytes from `vaddr`, each to a fresh frame with
    /// `flags` and USER, stopping at the first failure; then copy the segment's file
    /// bytes `data` into them (`copy_segment`). Gives the number of pages mapped.
    pub fn load_segment(&self, mem: &mut PhysMem, pmm: &mut Pmm, vaddr: u64, data: &[u8], memsz: u64, flags: PageFlags) -> (r: Result<u64, Errno>)
        requires
            old(mem).wf(),
            old(pmm).wf(),
            pmm_in_mem(*old(pmm), old(mem).words@),
            vaddr + memsz + PAGE_SIZE <= u64::MAX,
        ensures
            final(mem).wf(),
            final(mem).words@.len() == old(mem).words@.len(),
            final(pmm).wf(),
            pmm_in_mem(*final(pmm), final(mem).words@),
            pmm_shrunk(*old(pmm), *final(pmm)),
            r is Err ==> r == Err::<u64, Errno>(Errno::ENOMEM),
            r matches Ok(n) ==> n == segment_pages(vaddr, memsz),
            r is Ok ==> exists|mapped: Seq<u64>| mapped.len() == old(mem).words@.len()
                && final(mem).words@ == #[trigger] copied_spec(mapped, self.pml4_frame.0 as int, vaddr, data@),
    {
        let page_start = vaddr & !(PAGE_SIZE - 1);
        let end = vaddr + memsz;
        let page_end = (end + PAGE_SIZE - 1) / PAGE_SIZE * PAGE_SIZE;
        proof {
            lemma_page_bounds(vaddr, memsz);
        }
        let num_pages = (page_end - page_start) / PAGE_SIZE;
        let user = PageFlags::from_bits_truncate(FLAG_USER);
        let f = flags.union(user);
        let mut i: u64 = 0;
        while i < num_pages
            invariant
                i <= num_pages,
                page_start + num_pages * PAGE_SIZE <= u64::MAX,
                mem.wf(),
                mem.words@.len() == old(mem).words@.len(),
                pmm.wf(),
                pmm_in_mem(*pmm, mem.words@),
                pmm_shrunk(*old(pmm), *pmm),
            decreases num_pages - i,
        {
            proof {
                assert(page_start + i * PAGE_SIZE <= page_start + num_pages * PAGE_SIZE) by (nonlinear_arith)
                    requires
                        i <= num_pages,
                ;
            }
            let addr = page_start + i * PAGE_SIZE;
            let ghost pm0 = *pmm;
            let r = self.alloc_and_map(mem, pmm, VirtAddr(addr), f);
            proof {
                lemma_shrunk_trans(*old(pmm), pm0, *pmm);
            }
            if r.is_err() {
                return Err(Errno::ENOMEM);
            }
            i = i + 1;
        }
        let ghost mapped = mem.words@;
        self.copy_segment(mem, vaddr, data);
        assert(mapped.len() == old(mem).words@.len()
            && mem.words@ == copied_spec(mapped, self.pml4_frame.0 as int, vaddr, data@));
        Ok(num_pages)
    }

    /// The level-4 table's physical address, for CR3.
    pub fn cr3(&self) -> (r: u64)
        ensures
            r == self.pml4_frame.0 << 12u64,
    {
        self.pml4_frame.0 << 12u64
    }
}

impl AddressSpace {
    /// Fork: a new address space sharing every user page with this one. The kernel
    /// half of the level-4 table is copied; the user half (entries 0 to 255) gets new
    /// intermediate tables with the parent's flags, and every present leaf, in parent
    /// and child alike, loses WRITABLE and gains the copy-on-write bit while its frame's
    /// share count goes up. Entries that point outside memory are passed over.
    pub fn fork(&self, mem: &mut PhysMem, pmm: &mut Pmm, cow: &mut CowRefcounts) -> (r: Result<Self, Errno>)
        requires
            old(mem).wf(),
            old(pmm).wf(),
            old(cow).wf(),
            pmm_in_mem(*old(pmm), old(mem).words@),
            has_frame(old(mem).words@, self.pml4_frame.0 as int),
            !is_free_frame(*old(pmm), self.pml4_frame.0 as int),
        ensures
            final(mem).wf(),
            final(mem).words@.len() == old(mem).words@.len(),
            final(pmm).wf(),
            final(cow).wf(),
            pmm_in_mem(*final(pmm), final(mem).words@),
            pmm_shrunk(*old(pmm), *final(pmm)),
            old(pmm).serving_zone(Zone::Normal) is None ==> r == Err::<Self, Errno>(Errno::ENOMEM)
                && final(mem).words@ == old(mem).words@,
            r is Err ==> r == Err::<Self, Errno>(Errno::ENOMEM),
            r matches Ok(c) ==> c.brk == self.brk && c.hhdm_offset == self.hhdm_offset
                && is_free_frame(*old(pmm), c.pml4_frame.0 as int)
                && has_frame(final(mem).words@, c.pml4_frame.0 as int),
            // enough free frames for a level-4 table and a copy of every user table
            // that the parent could have: the fork succeeds
            old(pmm).free_frames >= 1 + fork_bound(4, 256) ==> r is Ok,
            // it takes no more frames than that
            old(pmm).free_frames <= final(pmm).free_frames + 1 + fork_bound(4, 256),
            // every table off the free stacks, the parent's among them, still leads
            // where it led
            r matches Ok(c) ==> links_kept(old(mem).words@, final(mem).words@, *old(pmm), c.pml4_frame.0 as int),
            // the child's kernel half leads where the parent's does, and each user entry
            // of the parent that leads to a table has in the child a fresh copy
            r matches Ok(c) ==> (pmm_unique(*old(pmm)) ==> forall|k: int| 256 <= k < 512
                ==> #[trigger] table_link(final(mem).words@, c.pml4_frame.0 as int, k) == table_link(old(mem).words@, self.pml4_frame.0 as int, k)),
            r matches Ok(c) ==> (pmm_unique(*old(pmm)) ==> forall|k: int| 0 <= k < 256
                && #[trigger] table_link(old(mem).words@, self.pml4_frame.0 as int, k) is Some
                ==> (table_link(final(mem).words@, c.pml4_frame.0 as int, k) matches Some(t) && is_free_frame(*old(pmm), t as int))),
    {
        let parent = self.pml4_frame.0;
        proof {
            if old(pmm).free_frames >= 1 {
                lemma_free_serves(*old(pmm));
            }
        }
        let child = match take_frame(mem, pmm) {
            Some(f) => f,
            None => return Err(Errno::ENOMEM),
        };
        assert(child != parent);
        mem.zero_frame(child);
        let mut i: usize = 256;
        while i < 512
            invariant
                256 <= i <= 512,
                mem.wf(),
                mem.words@.len() == old(mem).words@.len(),
                has_frame(mem.words@, child as int),
                has_frame(mem.words@, parent as int),
                child != parent,
                agree_outside(old(mem).words@, mem.words@, set![child as int]),
                forall|k: int| 256 <= k < i ==> #[trigger] entry_of(mem.words@, child as int, k) == entry_of(old(mem).words@, parent as int, k),
            decreases 512 - i,
        {
            let ghost m1 = mem.words@;
            let e = mem.read_entry(parent, i).unwrap();
            mem.write_entry(child, i, e);
            proof {
                lemma_frame_word(child as int, i as int);
                lemma_frame_word(parent as int, i as int);
                assert(e == entry_of(old(mem).words@, parent as int, i as int));
                assert forall|k: int| 256 <= k < i + 1 implies #[trigger] entry_of(mem.words@, child as int, k) == entry_of(old(mem).words@, parent as int, k) by {
                    if k < i {
                        assert(entry_of(m1, child as int, k) == entry_of(old(mem).words@, parent as int, k));
                        assert(child * 512 + k != child * 512 + i);
                    }
                }
                assert forall|k: int| 0 <= k < old(mem).words@.len() && !set![child as int].contains(k / 512)
                    implies #[trigger] mem.words@[k] == old(mem).words@[k] by {
                    assert(m1[k] == old(mem).words@[k]);
                }
            }
            i = i + 1;
        }
        let ghost mz = mem.words@;
        proof {
            assert(is_free_frame(*old(pmm), child as int));
            assert(links_kept(old(mem).words@, mz, *old(pmm), child as int)) by {
                assert forall|x: int, j: int| has_frame(old(mem).words@, x) && !is_free_frame(*old(pmm), x) && x != child && 0 <= j < 512
                    implies #[trigger] table_link(mz, x, j) == table_link(old(mem).words@, x, j) by {
                    lemma_entry_outside(old(mem).words@, mz, set![child as int], x, j);
                }
            }
            assert forall|k: int| 0 <= k < 512 implies #[trigger] table_link(mz, parent as int, k) == table_link(old(mem).words@, parent as int, k) by {
                lemma_entry_outside(old(mem).words@, mz, set![child as int], parent as int, k);
            }
        }
        let ghost pm2 = *pmm;
        let r = fork_level(mem, pmm, cow, parent, child, 4, 256, Ghost(pmm_unique(*old(pmm))));
        proof {
            lemma_shrunk_trans(*old(pmm), pm2, *pmm);
            assert(links_kept(mz, mem.words@, *old(pmm), child as int)) by {
                assert forall|x: int, j: int| has_frame(mz, x) && !is_free_frame(*old(pmm), x) && x != child && 0 <= j < 512
                    implies #[trigger] table_link(mem.words@, x, j) == table_link(mz, x, j) by {
                    if is_free_frame(pm2, x) {
                        crate::memory::paging::lemma_shrunk_free(*old(pmm), pm2, x);
                    }
                }
            }
            lemma_links_chain(old(mem).words@, mz, mem.words@, *old(pmm), child as int);
            if pmm_unique(*old(pmm)) && r is Ok {
                if is_free_frame(pm2, parent as int) {
                    crate::memory::paging::lemma_shrunk_free(*old(pmm), pm2, parent as int);
                }
                assert forall|k: int| 256 <= k < 512 implies #[trigger] table_link(mem.words@, child as int, k)
                    == table_link(old(mem).words@, parent as int, k) by {
                    assert(table_link(mem.words@, child as int, k) == table_link(mz, child as int, k));
                    assert(entry_of(mz, child as int, k) == entry_of(old(mem).words@, parent as int, k));
                }
                assert forall|k: int| 0 <= k < 256 && #[trigger] table_link(old(mem).words@, parent as int, k) is Some
                    implies (table_link(mem.words@, child as int, k) matches Some(t) && is_free_frame(*old(pmm), t as int)) by {
                    assert(table_link(mz, parent as int, k) == table_link(old(mem).words@, parent as int, k));
                    let t = table_link(mem.words@, child as int, k)->0;
                    crate::memory::paging::lemma_shrunk_free(*old(pmm), pm2, t as int);
                }
            }
        }
        match r {
            Ok(()) => Ok(AddressSpace { pml4_frame: PhysFrame(child), brk: self.brk, hhdm_offset: self.hhdm_offset }),
            Err(e) => Err(e),
        }
    }
}

/// The frame a present entry points to, when it lies inside memory.
pub open spec fn entry_table_spec(mem: Seq<u64>, e: u64) -> Option<u64> {
    if e & FLAG_PRESENT != 0 && has_frame(mem, ((e & ADDR_MASK) / PAGE_SIZE) as int) {
        Some(((e & ADDR_MASK) / PAGE_SIZE) as u64)
    } else {
        None
    }
}

/// The frame a present entry points to, when it lies inside memory.
fn entry_table(mem: &PhysMem, e: u64) -> (r: Option<u64>)
    ensures
        r == entry_table_spec(mem.words@, e),
        r matches Some(f) ==> has_frame(mem.words@, f as int) && f == (e & ADDR_MASK) / PAGE_SIZE,
{
    if e & FLAG_PRESENT == 0 {
        return None;
    }
    let f = (e & ADDR_MASK) / PAGE_SIZE;
    if mem.has(f) {
        Some(f)
    } else {
        None
    }
}

/// Share the present leaves of `parent` with `child`: both entries become the
/// copy-on-write entry of the parent's, and the frame's share count goes up (it stays
/// at its maximum once there).
fn fork_leaves(mem: &mut PhysMem, cow: &mut CowRefcounts, parent: u64, child: u64)
    requires
        old(mem).wf(),
        old(cow).wf(),
        has_frame(old(mem).words@, parent as int),
        has_frame(old(mem).words@, child as int),
        parent != child,
    ensures
        final(mem).wf(),
        final(cow).wf(),
        final(mem).words@.len() == old(mem).words@.len(),
        agree_outside(old(mem).words@, final(mem).words@, set![parent as int, child as int]),
        forall|j: int| 0 <= j < 512 ==> {
            let e = #[trigger] entry_of(old(mem).words@, parent as int, j);
            &&& e & FLAG_PRESENT != 0 ==> entry_of(final(mem).words@, parent as int, j) == cow_entry(e)
                && entry_of(final(mem).words@, child as int, j) == cow_entry(e)
            &&& e & FLAG_PRESENT == 0 ==> entry_of(final(mem).words@, parent as int, j) == e
                && entry_of(final(mem).words@, child as int, j) == entry_of(old(mem).words@, child as int, j)
        },
{
    let ghost m0 = mem.words@;
    let mut j: usize = 0;
    while j < 512
        invariant
            j <= 512,
            parent != child,
            mem.wf(),
            cow.wf(),
            mem.words@.len() == m0.len(),
            m0 == old(mem).words@,
            has_frame(m0, parent as int),
            has_frame(m0, child as int),
            agree_outside(m0, mem.words@, set![parent as int, child as int]),
            forall|k: int| j <= k < 512 ==> #[trigger] entry_of(mem.words@, parent as int, k) == entry_of(m0, parent as int, k),
            forall|k: int| j <= k < 512 ==> #[trigger] entry_of(mem.words@, child as int, k) == entry_of(m0, child as int, k),
            forall|k: int| 0 <= k < j ==> {
                let e = #[trigger] entry_of(m0, parent as int, k);
                &&& e & FLAG_PRESENT != 0 ==> entry_of(mem.words@, parent as int, k) == cow_entry(e)
                    && entry_of(mem.words@, child as int, k) == cow_entry(e)
                &&& e & FLAG_PRESENT == 0 ==> entry_of(mem.words@, parent as int, k) == e
                    && entry_of(mem.words@, child as int, k) == entry_of(m0, child as int, k)
            },
        decreases 512 - j,
    {
        let e = mem.read_entry(parent, j).unwrap();
        if e & FLAG_PRESENT != 0 {
            let flags = (e & !FLAG_WRITABLE) | COW_BIT;
            let ghost before = mem.words@;
            mem.write_entry(parent, j, flags);
            let ghost mid = mem.words@;
            mem.write_entry(child, j, flags);
            proof {
                lemma_frame_word(parent as int, j as int);
                lemma_frame_word(child as int, j as int);
                assert forall|k: int| j < k < 512 implies #[trigger] entry_of(mem.words@, parent as int, k) == entry_of(m0, parent as int, k) by {
                    lemma_frame_word(parent as int, k);
                    lemma_frame_word(child as int, k);
                    assert(entry_of(before, parent as int, k) == entry_of(m0, parent as int, k));
                }
                assert forall|k: int| j < k < 512 implies #[trigger] entry_of(mem.words@, child as int, k) == entry_of(m0, child as int, k) by {
                    lemma_frame_word(parent as int, k);
                    lemma_frame_word(child as int, k);
                    assert(entry_of(before, parent as int, k) == entry_of(m0, parent as int, k));
                    assert(entry_of(before, child as int, k) == entry_of(m0, child as int, k));
                }
                assert forall|k: int| 0 <= k < j implies {
                    let e2 = #[trigger] entry_of(m0, parent as int, k);
                    &&& e2 & FLAG_PRESENT != 0 ==> entry_of(mem.words@, parent as int, k) == cow_entry(e2)
                        && entry_of(mem.words@, child as int, k) == cow_entry(e2)
                    &&& e2 & FLAG_PRESENT == 0 ==> entry_of(mem.words@, parent as int, k) == e2
                        && entry_of(mem.words@, child as int, k) == entry_of(m0, child as int, k)
                } by {
                    lemma_frame_word(parent as int, k);
                    lemma_frame_word(child as int, k);
                    assert(entry_of(before, parent as int, k) == entry_of(mem.words@, parent as int, k));
                    assert(entry_of(before, child as int, k) == entry_of(mem.words@, child as int, k));
                }
                assert forall|k: int| 0 <= k < m0.len() && !set![parent as int, child as int].contains(k / 512)
                    implies #[trigger] mem.words@[k] == m0[k] by {
                    assert(before[k] == m0[k]);
                }
                assert(entry_of(mem.words@, parent as int, j as int) == flags);
            }
            let frame = PhysFrame((e & ADDR_MASK) / PAGE_SIZE);
            if ref_count(cow, frame) < u32::MAX {
                let _ = inc_ref(cow, frame);
            }
        }
        j = j + 1;
    }
}

/// Where entry `j` of table `x` leads, as a walk reads it.
pub open spec fn table_link(m: Seq<u64>, x: int, j: int) -> Option<u64> {
    entry_table_spec(m, entry_of(m, x, j))
}

/// Every table of `m` off the free stacks of `pm`, but `child`, leads where it led.
pub open spec fn links_kept(m: Seq<u64>, m2: Seq<u64>, pm: Pmm, child: int) -> bool {
    forall|x: int, j: int| has_frame(m, x) && !is_free_frame(pm, x) && x != child && 0 <= j < 512
        ==> #[trigger] table_link(m2, x, j) == table_link(m, x, j)
}

/// Copy-on-write keeps an entry's present bit and address; a table entry built from a
/// frame number below the limit and another entry's low bits leads to that frame.
proof fn lemma_entry_bits(e: u64, t: u64)
    by (bit_vector)
    ensures
        (cow_entry(e) & FLAG_PRESENT != 0) == (e & FLAG_PRESENT != 0),
        cow_entry(e) & ADDR_MASK == e & ADDR_MASK,
        e & FLAG_PRESENT != 0 ==> (((t << 12u64) & ADDR_MASK) | (e & 0xFFFu64)) & FLAG_PRESENT != 0,
        t < 0x100_0000_0000 ==> (((t << 12u64) & ADDR_MASK) | (e & 0xFFFu64)) & ADDR_MASK == t << 12u64,
        t < 0x100_0000_0000 ==> (t << 12u64) / 4096 == t,
{
}

/// A word of table `x` lies outside the frames of `s` when `x` is not among them.
proof fn lemma_entry_outside(m1: Seq<u64>, m2: Seq<u64>, s: Set<int>, x: int, j: int)
    requires
        agree_outside(m1, m2, s),
        !s.contains(x),
        has_frame(m1, x),
        0 <= j < 512,
    ensures
        entry_of(m2, x, j) == entry_of(m1, x, j),
        table_link(m2, x, j) == table_link(m1, x, j),
{
    lemma_frame_word(x, j);
}

/// Links kept over two steps are kept over both.
proof fn lemma_links_chain(m0: Seq<u64>, m1: Seq<u64>, m2: Seq<u64>, pm: Pmm, c: int)
    requires
        links_kept(m0, m1, pm, c),
        links_kept(m1, m2, pm, c),
        m1.len() == m0.len(),
    ensures
        links_kept(m0, m2, pm, c),
{
    assert forall|x: int, j: int| has_frame(m0, x) && !is_free_frame(pm, x) && x != c && 0 <= j < 512
        implies #[trigger] table_link(m2, x, j) == table_link(m0, x, j) by {
        assert(table_link(m1, x, j) == table_link(m0, x, j));
        assert(table_link(m2, x, j) == table_link(m1, x, j));
    }
}

/// A step that may change only a free frame keeps the links of every table off the
/// free stacks.
proof fn lemma_links_free(m0: Seq<u64>, m1: Seq<u64>, pm: Pmm, t: int, c: int)
    requires
        links_kept(m0, m1, pm, t),
        is_free_frame(pm, t),
    ensures
        links_kept(m0, m1, pm, c),
{
}

/// Sharing the leaves of `sub` with `nt` keeps where every table but `nt` leads.
proof fn lemma_leaves_links(m: Seq<u64>, m2: Seq<u64>, pm: Pmm, sub: int, nt: int)
    requires
        has_frame(m, sub),
        agree_outside(m, m2, set![sub, nt]),
        forall|j: int| 0 <= j < 512 ==> {
            let e = #[trigger] entry_of(m, sub, j);
            &&& e & FLAG_PRESENT != 0 ==> entry_of(m2, sub, j) == cow_entry(e)
            &&& e & FLAG_PRESENT == 0 ==> entry_of(m2, sub, j) == e
        },
    ensures
        links_kept(m, m2, pm, nt),
{
    assert forall|x: int, j: int| has_frame(m, x) && !is_free_frame(pm, x) && x != nt && 0 <= j < 512
        implies #[trigger] table_link(m2, x, j) == table_link(m, x, j) by {
        if x == sub {
            let e = entry_of(m, sub, j);
            lemma_entry_bits(e, 0);
        } else {
            lemma_entry_outside(m, m2, set![sub, nt], x, j);
        }
    }
}

/// Frames a fork of one entry of a table at `level` may take: the copy of the table
/// it leads to, and what copying that table's entries takes.
pub open spec fn fork_per(level: nat) -> nat
    decreases level, 1nat,
{
    if level <= 2 {
        1
    } else {
        1 + fork_bound((level - 1) as nat, 512)
    }
}

/// Frames a fork of the first `end` entries of a table at `level` may take.
pub open spec fn fork_bound(level: nat, end: nat) -> nat
    decreases level, 2nat,
{
    end * fork_per(level)
}

/// Copy the subtree below entries `0..end` of table `parent` (a table at `level`,
/// 4 for the top) into fresh tables hung below `child`; leaves go to `fork_leaves`.
fn fork_level(mem: &mut PhysMem, pmm: &mut Pmm, cow: &mut CowRefcounts, parent: u64, child: u64, level: u8, end: usize,
    Ghost(uniq): Ghost<bool>) -> (r: Result<(), Errno>)
    requires
        uniq ==> pmm_unique(*old(pmm)) && !is_free_frame(*old(pmm), child as int),
        old(mem).wf(),
        old(pmm).wf(),
        old(cow).wf(),
        pmm_in_mem(*old(pmm), old(mem).words@),
        has_frame(old(mem).words@, parent as int),
        has_frame(old(mem).words@, child as int),
        2 <= level <= 4,
        end <= 512,
    ensures
        final(mem).wf(),
        final(cow).wf(),
        final(mem).words@.len() == old(mem).words@.len(),
        final(pmm).wf(),
        pmm_in_mem(*final(pmm), final(mem).words@),
        pmm_shrunk(*old(pmm), *final(pmm)),
        r is Err ==> r == Err::<(), Errno>(Errno::ENOMEM),
        // nothing below the first `end` entries: nothing to copy
        (forall|k: int| 0 <= k < end ==> #[trigger] entry_table_spec(old(mem).words@, entry_of(old(mem).words@, parent as int, k)) is None)
            ==> r is Ok && final(mem).words@ == old(mem).words@ && *final(pmm) == *old(pmm) && *final(cow) == *old(cow),
        // a table to copy, and no frame for its copy
        (exists|k: int| 0 <= k < end && #[trigger] entry_table_spec(old(mem).words@, entry_of(old(mem).words@, parent as int, k)) is Some)
            && old(pmm).serving_zone(Zone::Normal) is None ==> r == Err::<(), Errno>(Errno::ENOMEM),
        // it takes at most `fork_bound` frames, and succeeds when that many are free
        old(pmm).free_frames <= final(pmm).free_frames + fork_bound(level as nat, end as nat),
        old(pmm).free_frames >= fork_bound(level as nat, end as nat) ==> r is Ok,
        // tables off the free stacks, but the child, lead where they led
        links_kept(old(mem).words@, final(mem).words@, *old(pmm), child as int),
        uniq ==> pmm_unique(*final(pmm)),
        // the child's entries from `end` on lead where they led; each of its first `end`
        // entries whose parent entry leads to a table leads to a fresh one
        uniq ==> forall|j: int| end <= j < 512 ==> #[trigger] table_link(final(mem).words@, child as int, j)
            == table_link(old(mem).words@, child as int, j),
        r is Ok && uniq && !is_free_frame(*old(pmm), parent as int) && parent != child ==> forall|k: int|
            0 <= k < end && #[trigger] table_link(old(mem).words@, parent as int, k) is Some
            ==> (table_link(final(mem).words@, child as int, k) matches Some(t) && is_free_frame(*old(pmm), t as int)),
    decreases level, 0int,
{
    let ghost per = fork_per(level as nat);
    let mut i: usize = 0;
    while i < end
        invariant
            per == fork_per(level as nat),
            old(pmm).wf(),
            old(pmm).free_frames <= pmm.free_frames + i * per,
            pmm.free_frames <= old(pmm).free_frames,
            old(pmm).free_frames >= fork_bound(level as nat, end as nat) ==> old(pmm).free_frames >= end * per,
            (forall|k: int| 0 <= k < i ==> #[trigger] entry_table_spec(old(mem).words@, entry_of(old(mem).words@, parent as int, k)) is None)
                ==> mem.words@ == old(mem).words@ && *pmm == *old(pmm) && *cow == *old(cow),
            old(pmm).serving_zone(Zone::Normal) is None ==> forall|k: int| 0 <= k < i ==> #[trigger] entry_table_spec(old(mem).words@, entry_of(old(mem).words@, parent as int, k)) is None,
            i <= end,
            end <= 512,
            2 <= level <= 4,
            mem.wf(),
            cow.wf(),
            pmm.wf(),
            mem.words@.len() == old(mem).words@.len(),
            pmm_in_mem(*pmm, mem.words@),
            pmm_shrunk(*old(pmm), *pmm),
            has_frame(mem.words@, parent as int),
            has_frame(mem.words@, child as int),
            links_kept(old(mem).words@, mem.words@, *old(pmm), child as int),
            uniq ==> pmm_unique(*old(pmm)) && !is_free_frame(*old(pmm), child as int) && pmm_unique(*pmm),
            uniq ==> forall|j: int| i <= j < 512 ==> #[trigger] table_link(mem.words@, child as int, j)
                == table_link(old(mem).words@, child as int, j),
            uniq && !is_free_frame(*old(pmm), parent as int) && parent != child ==> forall|k: int|
                0 <= k < i && #[trigger] table_link(old(mem).words@, parent as int, k) is Some
                ==> (table_link(mem.words@, child as int, k) matches Some(t) && is_free_frame(*old(pmm), t as int)),
        decreases end - i,
    {
        let ghost mi = mem.words@;
        let e = mem.read_entry(parent, i).unwrap();
        proof {
            assert((i as int + 1) * per == i as int * per + per) by (nonlinear_arith);
            if level == 2 {
                assert(per == 1);
            }
        }
        match entry_table(mem, e) {
            None => {},
            Some(sub) => {
                let ghost pm0 = *pmm;
                proof {
                    if old(pmm).free_frames >= fork_bound(level as nat, end as nat) {
                        assert(end as int * per >= (i as int + 1) * per) by (nonlinear_arith)
                            requires
                                i < end,
                                per >= 0,
                        ;
                        assert(pm0.free_frames >= per);
                        assert(per >= 1);
                        lemma_free_serves(pm0);
                    }
                }
                let new_table = match take_frame(mem, pmm) {
                    Some(f) => f,
                    None => {
                        return Err(Errno::ENOMEM);
                    },
                };
                mem.zero_frame(new_table);
                let ghost pm1 = *pmm;
                let ghost mb = mem.words@;
                proof {
                    lemma_shrunk_trans(*old(pmm), pm0, pm1);
                    crate::memory::paging::lemma_shrunk_free(*old(pmm), pm0, new_table as int);
                    assert(links_kept(mi, mb, *old(pmm), new_table as int)) by {
                        assert forall|x: int, j: int| has_frame(mi, x) && !is_free_frame(*old(pmm), x) && x != new_table && 0 <= j < 512
                            implies #[trigger] table_link(mb, x, j) == table_link(mi, x, j) by {
                            lemma_entry_outside(mi, mb, set![new_table as int], x, j);
                        }
                    }
                }
                if level == 2 {
                    if sub != new_table {
                        fork_leaves(mem, cow, sub, new_table);
                        proof {
                            lemma_leaves_links(mb, mem.words@, *old(pmm), sub as int, new_table as int);
                        }
                    }
                } else {
                    assert(per == 1 + fork_bound((level - 1) as nat, 512));
                    let r = fork_level(mem, pmm, cow, sub, new_table, level - 1, 512, Ghost(uniq));
                    proof {
                        lemma_shrunk_trans(*old(pmm), pm1, *pmm);
                        assert(links_kept(mb, mem.words@, *old(pmm), new_table as int)) by {
                            assert forall|x: int, j: int| has_frame(mb, x) && !is_free_frame(*old(pmm), x) && x != new_table && 0 <= j < 512
                                implies #[trigger] table_link(mem.words@, x, j) == table_link(mb, x, j) by {
                                if is_free_frame(pm1, x) {
                                    crate::memory::paging::lemma_shrunk_free(*old(pmm), pm1, x);
                                }
                            }
                        }
                        lemma_links_chain(mi, mb, mem.words@, *old(pmm), new_table as int);
                        lemma_links_free(mi, mem.words@, *old(pmm), new_table as int, child as int);
                        lemma_links_chain(old(mem).words@, mi, mem.words@, *old(pmm), child as int);
                        if uniq {
                            assert forall|j: int| i <= j < 512 implies #[trigger] table_link(mem.words@, child as int, j)
                                == table_link(old(mem).words@, child as int, j) by {
                                assert(table_link(mem.words@, child as int, j) == table_link(mi, child as int, j));
                            }
                        }
                    }
                    if r.is_err() {
                        return r;
                    }
                }
                let ghost mc = mem.words@;
                proof {
                    lemma_shrunk_count(*old(pmm), *pmm);
                    assert(links_kept(mb, mc, *old(pmm), new_table as int));
                    lemma_links_chain(mi, mb, mc, *old(pmm), new_table as int);
                }
                let wired = ((new_table << 12u64) & ADDR_MASK) | (e & 0xFFF);
                mem.write_entry(child, i, wired);
                proof {
                    let md = mem.words@;
                    assert(new_table < 0x100_0000_0000);
                    lemma_entry_bits(e, new_table);
                    assert(entry_of(md, child as int, i as int) == wired) by {
                        lemma_frame_word(child as int, i as int);
                    }
                    assert(table_link(md, child as int, i as int) == Some(new_table));
                    assert forall|x: int, j: int| has_frame(mc, x) && 0 <= j < 512 && (x != child || j != i)
                        implies #[trigger] table_link(md, x, j) == table_link(mc, x, j) by {
                        lemma_frame_word(x, j);
                        lemma_frame_word(child as int, i as int);
                        assert(x * 512 + j != child * 512 + i);
                        assert(entry_of(md, x, j) == entry_of(mc, x, j));
                    }
                    assert(links_kept(mi, md, *old(pmm), child as int)) by {
                        assert forall|x: int, j: int| has_frame(mi, x) && !is_free_frame(*old(pmm), x) && x != child && 0 <= j < 512
                            implies #[trigger] table_link(md, x, j) == table_link(mi, x, j) by {
                            assert(table_link(md, x, j) == table_link(mc, x, j));
                            assert(x != new_table);
                            assert(table_link(mc, x, j) == table_link(mi, x, j));
                        }
                    }
                    lemma_links_chain(old(mem).words@, mi, md, *old(pmm), child as int);
                    if uniq {
                        assert(child != new_table);
                        assert forall|j: int| i < j < 512 implies #[trigger] table_link(md, child as int, j)
                            == table_link(old(mem).words@, child as int, j) by {
                            assert(table_link(md, child as int, j) == table_link(mc, child as int, j));
                            assert(table_link(mc, child as int, j) == table_link(mi, child as int, j));
                        }
                        if !is_free_frame(*old(pmm), parent as int) && parent != child {
                            assert forall|k: int| 0 <= k < i + 1 && #[trigger] table_link(old(mem).words@, parent as int, k) is Some
                                implies (table_link(md, child as int, k) matches Some(t) && is_free_frame(*old(pmm), t as int)) by {
                                if k < i {
                                    assert(table_link(md, child as int, k) == table_link(mc, child as int, k));
                                    assert(table_link(mc, child as int, k) == table_link(mi, child as int, k));
                                }
                            }
                        }
                    }
                }
            },
        }
        proof {
            if uniq && !is_free_frame(*old(pmm), parent as int) && parent != child && table_link(mi, parent as int, i as int) is None {
                assert(table_link(mi, parent as int, i as int) == table_link(old(mem).words@, parent as int, i as int));
            }
        }
        i = i + 1;
    }
    Ok(())
}

/// Number of pages a segment of `memsz` bytes at `vaddr` spans.
pub open spec fn segment_pages(vaddr: u64, memsz: u64) -> u64 {
    let page_start = vaddr & !0xFFFu64;
    let page_end = ((vaddr + memsz + 4095) / 4096 * 4096) as u64;
    ((page_end - page_start) / 4096) as u64
}

proof fn lemma_page_bounds(vaddr: u64, memsz: u64)
    requires
        vaddr + memsz + 4096 <= u64::MAX,
    ensures
        vaddr & !0xFFFu64 <= vaddr,
        (vaddr & !0xFFFu64) % 4096 == 0,
        vaddr + memsz <= (vaddr + memsz + 4095) / 4096 * 4096 <= vaddr + memsz + 4095,
        (vaddr & !0xFFFu64) + ((((vaddr + memsz + 4095) / 4096 * 4096) - (vaddr & !0xFFFu64)) / 4096) * 4096
            <= u64::MAX,
{
    assert(vaddr & !0xFFFu64 <= vaddr) by (bit_vector);
    assert((vaddr & !0xFFFu64) % 4096 == 0) by (bit_vector);
    let e = (vaddr + memsz + 4095) as int;
    assert(e / 4096 * 4096 <= e && e - 4095 <= e / 4096 * 4096) by (nonlinear_arith)
        requires
            e >= 0,
    ;
    let s = (vaddr & !0xFFFu64) as int;
    let pe = e / 4096 * 4096;
    assert(s + ((pe - s) / 4096) * 4096 <= pe) by (nonlinear_arith)
        requires
            s <= pe,
    ;
}

proof fn lemma_frame_word(f: int, i: int)
    requires
        0 <= f,
        0 <= i < 512,
    ensures
        (f * 512 + i) / 512 == f,
{
    assert((f * 512 + i) / 512 == f) by (nonlinear_arith)
        requires
            0 <= f,
            0 <= i < 512,
    ;
}

} // verus!
