//! The kernel's virtual memory manager: the page mapper of the kernel address space,
//! with the frame allocator behind it.
use vstd::prelude::*;
use crate::memory::addr::{PhysAddr, PhysFrame, VirtAddr, PAGE_SIZE, canonicalize_spec};
use crate::memory::paging::{
    lemma_cleared_word, lemma_off_path_change, FLAGS_ALL, MAX_MEM_FRAMES, has_frame, pmm_in_mem, translate_spec, walk1, walk2, walk3, idx1, MapError, PageFlags, PageMapper, PhysMem,
    ADDR_MASK, walk_sound, path_distinct, free_off_path, pmm_unique, is_free_frame, lemma_pop_shrinks,
    lemma_shrunk_unique, lemma_shrunk_free,
};
use crate::memory::pmm::{frame_zone, Pmm, Zone};

verus! {

/// Kernel heap: its fixed start, its first size (2 MiB) and its largest (256 MiB).
pub const KERNEL_HEAP_START: u64 = 0xFFFF_C000_0000_0000;
pub const KERNEL_HEAP_INITIAL_SIZE: u64 = 0x20_0000;
pub const KERNEL_HEAP_MAX_SIZE: u64 = 0x1000_0000;

pub struct Vmm {
    pub mapper: PageMapper,
}

/// The free lists after a frame is given back: pushed on the stack of its zone when
/// it lies in memory and the count has room, else unchanged.
pub open spec fn given_back(pm: Pmm, pm2: Pmm, mem: Seq<u64>, f: u64) -> bool {
    if has_frame(mem, f as int) && pm.free_frames < u64::MAX {
        &&& pm2.free_frames == pm.free_frames + 1
        &&& forall|z: Zone| #[trigger] pm2.free_list(z) == if z == frame_zone(f) {
            pm.free_list(z).push(f)
        } else {
            pm.free_list(z)
        }
    } else {
        &&& pm2.free_frames == pm.free_frames
        &&& forall|z: Zone| #[trigger] pm2.free_list(z) == pm.free_list(z)
    }
}

/// Give a frame back to the allocator; one outside physical memory is kept out.
fn give_back(mem: &PhysMem, pmm: &mut Pmm, f: PhysFrame)
    requires
        mem.wf(),
        old(pmm).wf(),
        pmm_in_mem(*old(pmm), mem.words@),
    ensures
        final(pmm).wf(),
        pmm_in_mem(*final(pmm), mem.words@),
        final(pmm).total_frames == old(pmm).total_frames,
        final(pmm).hhdm_offset == old(pmm).hhdm_offset,
        given_back(*old(pmm), *final(pmm), mem.words@, f.0),
{
    if mem.has(f.0) && pmm.free_frames() < u64::MAX {
        assert(f.0 < 0x100_0000_0000) by (nonlinear_arith)
            requires
                (f.0 + 1) * 512 <= mem.words@.len(),
                mem.words@.len() <= 0x100_0000_0000 * 512,
        ;
        pmm.dealloc(f);
        proof {
            assert forall|z: Zone, k: int| 0 <= k < pmm.free_list(z).len() implies has_frame(
                mem.words@,
                #[trigger] pmm.free_list(z)[k] as int,
            ) by {
                if z == frame_zone(f.0) && k == old(pmm).free_list(z).len() {
                } else {
                    assert(pmm.free_list(z)[k] == old(pmm).free_list(z)[k]);
                }
            }
        }
    }
}

impl Vmm {
    /// The manager of the address space whose level-4 table `cr3` names.
    pub fn init(hhdm_offset: u64, cr3: u64) -> (v: Self)
        ensures
            v.mapper.p4_frame.0 == (cr3 & ADDR_MASK) / PAGE_SIZE,
            v.mapper.hhdm_offset == hhdm_offset,
    {
        Vmm { mapper: PageMapper::current(hhdm_offset, cr3) }
    }

    /// Map a virtual page to a physical frame with the given flags.
    pub fn map_page(&mut self, mem: &mut PhysMem, pmm: &mut Pmm, virt: VirtAddr, frame: PhysFrame, flags: PageFlags) -> (r: Result<(), MapError>)
        requires
            old(mem).wf(),
            old(pmm).wf(),
            pmm_in_mem(*old(pmm), old(mem).words@),
        ensures
            *final(self) == *old(self),
            final(mem).wf(),
            final(mem).words@.len() == old(mem).words@.len(),
            final(pmm).wf(),
            pmm_in_mem(*final(pmm), final(mem).words@),
            !has_frame(old(mem).words@, old(self).mapper.p4_frame.0 as int) ==> r == Err::<(), MapError>(MapError::NotMapped)
                && final(mem).words@ == old(mem).words@,
            r == Err::<(), MapError>(MapError::OutOfMemory) ==> final(pmm).serving_zone(Zone::Normal) is None,
    {
        self.mapper.map(mem, pmm, virt, frame, flags)
    }

    /// Remove the mapping of a virtual page; gives the frame it was mapped to.
    pub fn unmap_page(&mut self, mem: &mut PhysMem, virt: VirtAddr) -> (r: Result<PhysFrame, MapError>)
        requires
            old(mem).wf(),
        ensures
            *final(self) == *old(self),
            final(mem).wf(),
            match translate_spec(old(mem).words@, old(self).mapper.p4_frame.0 as int, virt.0) {
                None => r == Err::<PhysFrame, MapError>(MapError::NotMapped) && final(mem).words@ == old(mem).words@,
                Some(a) => {
                    let f1 = walk1(old(mem).words@, old(self).mapper.p4_frame.0 as int, virt.0)->0;
                    &&& r == Ok::<PhysFrame, MapError>(PhysFrame((a / PAGE_SIZE) as u64))
                    &&& final(mem).words@ == old(mem).words@.update(f1 * 512 + idx1(virt.0), 0)
                },
            },
    {
        self.mapper.unmap(mem, virt)
    }

    /// Translate a virtual address to the physical address it is mapped to.
    pub fn translate(&self, mem: &PhysMem, virt: VirtAddr) -> (r: Option<PhysAddr>)
        ensures
            match translate_spec(mem.words@, self.mapper.p4_frame.0 as int, virt.0) {
                Some(a) => r == Some(PhysAddr(a)),
                None => r is None,
            },
    {
        self.mapper.translate(mem, virt)
    }

    /// Map `page_count` pages from `virt_start`, each to a fresh frame cleared to zeros. When the
    /// allocator runs dry the pages mapped so far stay; when a mapping fails, its
    /// frame is given back and the pages mapped so far are unmapped and their frames
    /// given back, and the mapping's failure is returned.
    pub fn alloc_and_map(&mut self, mem: &mut PhysMem, pmm: &mut Pmm, virt_start: VirtAddr, page_count: u64, flags: PageFlags) -> (r: Result<(), MapError>)
        requires
            old(mem).wf(),
            old(pmm).wf(),
            pmm_in_mem(*old(pmm), old(mem).words@),
            virt_start.0 + page_count * PAGE_SIZE <= u64::MAX,
        ensures
            *final(self) == *old(self),
            final(mem).wf(),
            final(mem).words@.len() == old(mem).words@.len(),
            final(pmm).wf(),
            pmm_in_mem(*final(pmm), final(mem).words@),
            page_count == 0 ==> r is Ok && final(mem).words@ == old(mem).words@ && *final(pmm) == *old(pmm),
            page_count > 0 && old(pmm).serving_zone(Zone::Normal) is None
                ==> r == Err::<(), MapError>(MapError::OutOfMemory) && final(mem).words@ == old(mem).words@,
            // a single unmapped page is mapped under the conditions of `map`, with a
            // fourth frame free for the page itself
            page_count == 1 && has_frame(old(mem).words@, old(self).mapper.p4_frame.0 as int)
                && translate_spec(old(mem).words@, old(self).mapper.p4_frame.0 as int, canonicalize_spec(virt_start.0)) is None
                && walk_sound(old(mem).words@, old(self).mapper.p4_frame.0 as int, canonicalize_spec(virt_start.0))
                && old(pmm).free_frames >= 4
                && path_distinct(old(mem).words@, old(self).mapper.p4_frame.0 as int, canonicalize_spec(virt_start.0))
                && free_off_path(*old(pmm), old(mem).words@, old(self).mapper.p4_frame.0 as int, canonicalize_spec(virt_start.0))
                && pmm_unique(*old(pmm))
                ==> r is Ok,
            // a single page mapped under the walk conditions of `map` translates to a
            // frame that was free
            page_count == 1 && r is Ok
                && path_distinct(old(mem).words@, old(self).mapper.p4_frame.0 as int, canonicalize_spec(virt_start.0))
                && free_off_path(*old(pmm), old(mem).words@, old(self).mapper.p4_frame.0 as int, canonicalize_spec(virt_start.0))
                && pmm_unique(*old(pmm))
                && flags.bits & !FLAGS_ALL == 0
                ==> exists|f: u64| #[trigger] is_free_frame(*old(pmm), f as int)
                    && translate_spec(final(mem).words@, old(self).mapper.p4_frame.0 as int, canonicalize_spec(virt_start.0))
                        == Some((f * PAGE_SIZE + canonicalize_spec(virt_start.0) % PAGE_SIZE) as u64),
            // a single page that is mapped already is refused
            page_count == 1 && has_frame(old(mem).words@, old(self).mapper.p4_frame.0 as int)
                && translate_spec(old(mem).words@, old(self).mapper.p4_frame.0 as int, canonicalize_spec(virt_start.0)) is Some
                && old(pmm).free_frames >= 1
                && free_off_path(*old(pmm), old(mem).words@, old(self).mapper.p4_frame.0 as int, canonicalize_spec(virt_start.0))
                ==> r == Err::<(), MapError>(MapError::AlreadyMapped),
    {
        let mut i: u64 = 0;
        while i < page_count
            invariant
                i <= page_count,
                *self == *old(self),
                mem.wf(),
                mem.words@.len() == old(mem).words@.len(),
                pmm.wf(),
                pmm_in_mem(*pmm, mem.words@),
                virt_start.0 + page_count * PAGE_SIZE <= u64::MAX,
                i == 0 ==> mem.words@ == old(mem).words@ && *pmm == *old(pmm),
                i > 0 ==> old(pmm).serving_zone(Zone::Normal) is Some,
                page_count == 1 && i == 1 ==> !(has_frame(old(mem).words@, old(self).mapper.p4_frame.0 as int)
                    && translate_spec(old(mem).words@, old(self).mapper.p4_frame.0 as int, canonicalize_spec(virt_start.0)) is Some
                    && free_off_path(*old(pmm), old(mem).words@, old(self).mapper.p4_frame.0 as int, canonicalize_spec(virt_start.0))),
                page_count == 1 && i == 1
                    && path_distinct(old(mem).words@, old(self).mapper.p4_frame.0 as int, canonicalize_spec(virt_start.0))
                    && free_off_path(*old(pmm), old(mem).words@, old(self).mapper.p4_frame.0 as int, canonicalize_spec(virt_start.0))
                    && pmm_unique(*old(pmm))
                    && flags.bits & !FLAGS_ALL == 0
                    ==> exists|f: u64| #[trigger] is_free_frame(*old(pmm), f as int)
                        && translate_spec(mem.words@, old(self).mapper.p4_frame.0 as int, canonicalize_spec(virt_start.0))
                            == Some((f * PAGE_SIZE + canonicalize_spec(virt_start.0) % PAGE_SIZE) as u64),
            decreases page_count - i,
        {
            proof {
                assert(virt_start.0 + i * PAGE_SIZE <= virt_start.0 + page_count * PAGE_SIZE) by (nonlinear_arith)
                    requires
                        i <= page_count,
                ;
            }
            let virt = VirtAddr::new_canonicalize(virt_start.0 + i * PAGE_SIZE);
            let ghost pm0 = *pmm;
            let frame = match pmm.alloc_normal() {
                Some(f) => f,
                None => return Err(MapError::OutOfMemory),
            };
            proof {
                let zs = pm0.serving_zone(Zone::Normal)->0;
                let k = pm0.free_list(zs).len() - 1;
                lemma_pop_shrinks(pm0, *pmm, zs);
                if pmm_unique(pm0) {
                    lemma_shrunk_unique(pm0, *pmm);
                }
                let vv = canonicalize_spec(virt_start.0);
                if i == 0 && free_off_path(pm0, mem.words@, self.mapper.p4_frame.0 as int, vv) {
                    assert forall|x: int| #[trigger] is_free_frame(*pmm, x) implies {
                        &&& x != self.mapper.p4_frame.0 as int
                        &&& Some(x) != walk3(mem.words@, self.mapper.p4_frame.0 as int, vv)
                        &&& Some(x) != walk2(mem.words@, self.mapper.p4_frame.0 as int, vv)
                        &&& Some(x) != walk1(mem.words@, self.mapper.p4_frame.0 as int, vv)
                    } by {
                        lemma_shrunk_free(pm0, *pmm, x);
                    }
                }
                assert(pm0.free_list(zs)[k] == frame.0);
                assert(has_frame(mem.words@, pm0.free_list(zs)[k] as int));
                assert forall|z: Zone, k2: int| 0 <= k2 < pmm.free_list(z).len() implies has_frame(
                    mem.words@,
                    #[trigger] pmm.free_list(z)[k2] as int,
                ) by {
                    assert(pmm.free_list(z)[k2] == pm0.free_list(z)[k2]);
                }
            }
            let ghost mz0 = mem.words@;
            mem.zero_frame(frame.0);
            proof {
                let p4 = self.mapper.p4_frame.0 as int;
                let vv = canonicalize_spec(virt_start.0);
                if i == 0 && has_frame(mz0, p4) && free_off_path(pm0, mz0, p4, vv) {
                    assert(is_free_frame(pm0, frame.0 as int));
                    lemma_off_path_change(mz0, mem.words@, frame.0 as int, p4, vv);
                    assert forall|x: int| #[trigger] is_free_frame(*pmm, x) implies {
                        &&& x != p4
                        &&& Some(x) != walk3(mem.words@, p4, vv)
                        &&& Some(x) != walk2(mem.words@, p4, vv)
                        &&& Some(x) != walk1(mem.words@, p4, vv)
                    } by {
                        lemma_shrunk_free(pm0, *pmm, x);
                    }
                }
                assert forall|z: Zone, k2: int| 0 <= k2 < pmm.free_list(z).len() implies has_frame(
                    mem.words@,
                    #[trigger] pmm.free_list(z)[k2] as int,
                ) by {
                    assert(has_frame(mz0, pmm.free_list(z)[k2] as int));
                }
            }
            let ghost before_map = mem.words@;
            match self.mapper.map(mem, pmm, virt, frame, flags) {
                Ok(()) => {
                    proof {
                        if i == 0 {
                            assert(is_free_frame(pm0, frame.0 as int));
                            assert(frame.0 < MAX_MEM_FRAMES) by (nonlinear_arith)
                                requires
                                    (frame.0 + 1) * 512 <= before_map.len(),
                                    before_map.len() <= MAX_MEM_FRAMES * 512,
                            ;
                        }
                    }
                },
                Err(e) => {
                    give_back(mem, pmm, frame);
                    let mut j: u64 = 0;
                    while j < i
                        invariant
                            j <= i,
                            i < page_count,
                            *self == *old(self),
                            mem.wf(),
                            mem.words@.len() == old(mem).words@.len(),
                            pmm.wf(),
                            pmm_in_mem(*pmm, mem.words@),
                            virt_start.0 + page_count * PAGE_SIZE <= u64::MAX,
                        decreases i - j,
                    {
                        proof {
                            assert(virt_start.0 + j * PAGE_SIZE <= virt_start.0 + page_count * PAGE_SIZE) by (nonlinear_arith)
                                requires
                                    j <= page_count,
                            ;
                        }
                        let rv = VirtAddr::new_canonicalize(virt_start.0 + j * PAGE_SIZE);
                        if let Ok(f) = self.mapper.unmap(mem, rv) {
                            give_back(mem, pmm, f);
                        }
                        j = j + 1;
                    }
                    return Err(e);
                },
            }
            i = i + 1;
        }
        Ok(())
    }

    /// Unmap `page_count` pages from `virt_start` and give their frames back; pages
    /// that are not mapped are passed over.
    pub fn unmap_and_free(&mut self, mem: &mut PhysMem, pmm: &mut Pmm, virt_start: VirtAddr, page_count: u64)
        requires
            old(mem).wf(),
            old(pmm).wf(),
            pmm_in_mem(*old(pmm), old(mem).words@),
            virt_start.0 + page_count * PAGE_SIZE <= u64::MAX,
        ensures
            *final(self) == *old(self),
            final(mem).wf(),
            final(mem).words@.len() == old(mem).words@.len(),
            final(pmm).wf(),
            pmm_in_mem(*final(pmm), final(mem).words@),
            page_count == 0 ==> final(mem).words@ == old(mem).words@ && *final(pmm) == *old(pmm),
            page_count == 1 ==> match translate_spec(old(mem).words@, old(self).mapper.p4_frame.0 as int, canonicalize_spec(virt_start.0)) {
                None => final(mem).words@ == old(mem).words@ && *final(pmm) == *old(pmm),
                Some(a) => given_back(*old(pmm), *final(pmm), old(mem).words@, (a / PAGE_SIZE) as u64),
            },
            // afterwards no page of the range translates
            forall|j: int| 0 <= j < page_count ==> #[trigger] translate_spec(final(mem).words@, old(self).mapper.p4_frame.0 as int,
                canonicalize_spec((virt_start.0 + j * PAGE_SIZE) as u64)) is None,
    {
        let mut i: u64 = 0;
        while i < page_count
            invariant
                i <= page_count,
                *self == *old(self),
                mem.wf(),
                mem.words@.len() == old(mem).words@.len(),
                pmm.wf(),
                pmm_in_mem(*pmm, mem.words@),
                virt_start.0 + page_count * PAGE_SIZE <= u64::MAX,
                i == 0 ==> mem.words@ == old(mem).words@ && *pmm == *old(pmm),
                page_count == 1 && i == 1 ==> match translate_spec(old(mem).words@, old(self).mapper.p4_frame.0 as int, canonicalize_spec(virt_start.0)) {
                    None => mem.words@ == old(mem).words@ && *pmm == *old(pmm),
                    Some(a) => given_back(*old(pmm), *pmm, old(mem).words@, (a / PAGE_SIZE) as u64),
                },
                forall|j: int| 0 <= j < i ==> #[trigger] translate_spec(mem.words@, old(self).mapper.p4_frame.0 as int,
                    canonicalize_spec((virt_start.0 + j * PAGE_SIZE) as u64)) is None,
            decreases page_count - i,
        {
            proof {
                assert(virt_start.0 + i * PAGE_SIZE <= virt_start.0 + page_count * PAGE_SIZE) by (nonlinear_arith)
                    requires
                        i <= page_count,
                ;
            }
            let virt = VirtAddr::new_canonicalize(virt_start.0 + i * PAGE_SIZE);
            let ghost m0 = mem.words@;
            let ghost p4 = self.mapper.p4_frame.0 as int;
            if let Ok(f) = self.mapper.unmap(mem, virt) {
                give_back(mem, pmm, f);
            }
            proof {
                if translate_spec(m0, p4, virt.0) is Some {
                    let f1 = walk1(m0, p4, virt.0)->0;
                    let w = f1 * 512 + idx1(virt.0);
                    assert(mem.words@ == m0.update(w, 0));
                    assert forall|j: int| 0 <= j < i + 1 implies #[trigger] translate_spec(mem.words@, p4,
                        canonicalize_spec((virt_start.0 + j * PAGE_SIZE) as u64)) is None by {
                        lemma_cleared_word(m0, w, p4, canonicalize_spec((virt_start.0 + j * PAGE_SIZE) as u64));
                    }
                } else {
                    assert(mem.words@ == m0);
                }
            }
            i = i + 1;
        }
    }

    /// The level-4 frame of the kernel address space.
    pub fn p4_frame(&self) -> (f: PhysFrame)
        ensures
            f == self.mapper.p4_frame,
    {
        self.mapper.p4_frame()
    }
}

} // verus!
