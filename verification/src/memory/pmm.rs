//! Physical memory manager: per-zone stacks of free frames.
use vstd::prelude::*;
use crate::memory::addr::{PhysAddr, PhysFrame, PAGE_SIZE, PHYS_ADDR_LIMIT, align_up_spec, align_down_spec, lemma_page_size_pow2};
use crate::memory::paging::{agree_outside, frame_zeroed, has_frame, pmm_in_mem, PhysMem};

verus! {

/// Memory zones matching x86_64 DMA constraints.
#[derive(Debug, Clone, Copy, PartialEq, Eq, Structural)]
pub enum Zone {
    /// 0..16 MiB: legacy ISA DMA
    Dma16,
    /// 16 MiB..4 GiB: 32-bit DMA
    Dma32,
    /// 4 GiB and above: general purpose
    Normal,
}

/// Number of zones.
pub const ZONE_COUNT: usize = 3;

/// First address of the Dma32 zone.
pub const DMA32_START: u64 = 0x100_0000;

/// First address of the Normal zone.
pub const NORMAL_START: u64 = 0x1_0000_0000;

/// Frames below this number (the first MiB) are never handed out.
pub const FIRST_MANAGED_FRAME: u64 = 256;

/// The zone of a physical address.
pub open spec fn zone_of(addr: int) -> Zone {
    if addr < DMA32_START {
        Zone::Dma16
    } else if addr < NORMAL_START {
        Zone::Dma32
    } else {
        Zone::Normal
    }
}

/// The zone of a frame number.
pub open spec fn frame_zone(n: u64) -> Zone {
    zone_of(n * PAGE_SIZE)
}

impl Zone {
    /// The zone that contains `addr`.
    pub fn for_address(addr: PhysAddr) -> (z: Zone)
        ensures
            z == zone_of(addr.0 as int),
    {
        let a = addr.as_u64();
        if a < DMA32_START {
            Zone::Dma16
        } else if a < NORMAL_START {
            Zone::Dma32
        } else {
            Zone::Normal
        }
    }

    pub open spec fn spec_index(self) -> int {
        match self {
            Zone::Dma16 => 0,
            Zone::Dma32 => 1,
            Zone::Normal => 2,
        }
    }

    /// Position of the zone in per-zone tables.
    pub fn index(self) -> (i: usize)
        ensures
            i == self.spec_index(),
            i < ZONE_COUNT,
    {
        match self {
            Zone::Dma16 => 0,
            Zone::Dma32 => 1,
            Zone::Normal => 2,
        }
    }
}

/// Kind of a memory map entry.
#[derive(Debug, Clone, Copy, PartialEq, Eq, Structural)]
pub enum MemoryRegionKind {
    Usable,
    Reserved,
    AcpiReclaimable,
    AcpiNvs,
    BadMemory,
    BootloaderReclaimable,
    KernelAndModules,
    Framebuffer,
}

/// The kind that a bootloader memory map type code names: 0 usable, 1 reserved,
/// 2 ACPI reclaimable, 3 ACPI NVS, 4 bad memory, 5 bootloader reclaimable,
/// 6 kernel and modules, 7 framebuffer; any other code is reserved.
pub open spec fn kind_of_code(code: u64) -> MemoryRegionKind {
    if code == 0 {
        MemoryRegionKind::Usable
    } else if code == 2 {
        MemoryRegionKind::AcpiReclaimable
    } else if code == 3 {
        MemoryRegionKind::AcpiNvs
    } else if code == 4 {
        MemoryRegionKind::BadMemory
    } else if code == 5 {
        MemoryRegionKind::BootloaderReclaimable
    } else if code == 6 {
        MemoryRegionKind::KernelAndModules
    } else if code == 7 {
        MemoryRegionKind::Framebuffer
    } else {
        MemoryRegionKind::Reserved
    }
}

impl MemoryRegionKind {
    /// The kind of a bootloader memory map entry, from its type code.
    pub fn from_limine(entry_type: u64) -> (k: Self)
        ensures
            k == kind_of_code(entry_type),
    {
        match entry_type {
            0 => MemoryRegionKind::Usable,
            1 => MemoryRegionKind::Reserved,
            2 => MemoryRegionKind::AcpiReclaimable,
            3 => MemoryRegionKind::AcpiNvs,
            4 => MemoryRegionKind::BadMemory,
            5 => MemoryRegionKind::BootloaderReclaimable,
            6 => MemoryRegionKind::KernelAndModules,
            7 => MemoryRegionKind::Framebuffer,
            _ => MemoryRegionKind::Reserved,
        }
    }
}

/// Simplified memory region for PMM initialization.
#[derive(Debug, Clone, Copy)]
pub struct MemoryRegion {
    pub base: u64,
    pub length: u64,
    pub kind: MemoryRegionKind,
}

/// A region lies below the physical address limit.
pub open spec fn region_in_range(r: MemoryRegion) -> bool {
    r.base + r.length < PHYS_ADDR_LIMIT
}

/// The frames of a region that the PMM manages: the whole pages inside the region,
/// above the first MiB, in increasing order; none for a region that is not usable.
pub open spec fn region_frames(r: MemoryRegion) -> Seq<u64> {
    let lo = align_up_spec(r.base as int, PAGE_SIZE as int) / PAGE_SIZE as int;
    let hi = align_down_spec(r.base + r.length, PAGE_SIZE as int) / PAGE_SIZE as int;
    let first = if lo < FIRST_MANAGED_FRAME { FIRST_MANAGED_FRAME as int } else { lo };
    if r.kind == MemoryRegionKind::Usable && first < hi {
        Seq::new((hi - first) as nat, |i: int| (first + i) as u64)
    } else {
        Seq::empty()
    }
}

/// The managed frames of a memory map, region by region.
pub open spec fn usable_frames(map: Seq<MemoryRegion>) -> Seq<u64>
    decreases map.len(),
{
    if map.len() == 0 {
        Seq::empty()
    } else {
        usable_frames(map.drop_last()) + region_frames(map.last())
    }
}

/// The frames of `s` that lie in zone `z`, in order.
pub open spec fn zone_frames(s: Seq<u64>, z: Zone) -> Seq<u64>
    decreases s.len(),
{
    if s.len() == 0 {
        Seq::empty()
    } else if frame_zone(s.last()) == z {
        zone_frames(s.drop_last(), z).push(s.last())
    } else {
        zone_frames(s.drop_last(), z)
    }
}

proof fn lemma_zone_frames_push(s: Seq<u64>, x: u64, z: Zone)
    ensures
        zone_frames(s.push(x), z) == if frame_zone(x) == z {
            zone_frames(s, z).push(x)
        } else {
            zone_frames(s, z)
        },
{
    assert(s.push(x).drop_last() =~= s);
}

/// Physical Memory Manager: one stack of free frame numbers per zone; the last
/// element of a stack is handed out first.
pub struct Pmm {
    pub dma16: Vec<u64>,
    pub dma32: Vec<u64>,
    pub normal: Vec<u64>,
    pub total_frames: u64,
    pub free_frames: u64,
    pub hhdm_offset: u64,
}

/// `alloc_frame` preferring `zone` took the allocator from `a` to `b` and gave `r`:
/// the top frame of the serving zone's stack comes off it, or nothing happens when no
/// zone has a free frame.
pub open spec fn took_frame(a: Pmm, b: Pmm, zone: Zone, r: Option<PhysFrame>) -> bool {
    &&& b.total_frames == a.total_frames
    &&& b.hhdm_offset == a.hhdm_offset
    &&& match a.serving_zone(zone) {
        None => r is None && b.same_as(a),
        Some(zs) => {
            &&& r == Some(PhysFrame(a.free_list(zs).last()))
            &&& b.free_frames == a.free_frames - 1
            &&& forall|z: Zone| #[trigger] b.free_list(z) == if z == zs { a.free_list(z).drop_last() } else { a.free_list(z) }
        },
    }
}

/// `dealloc` of `frame` took the allocator from `a` to `b`: the frame goes on its
/// zone's stack and the free count goes up by one.
pub open spec fn gave_back(a: Pmm, b: Pmm, frame: PhysFrame) -> bool {
    &&& b.free_frames == a.free_frames + 1
    &&& b.total_frames == a.total_frames
    &&& b.hhdm_offset == a.hhdm_offset
    &&& forall|z: Zone| #[trigger] b.free_list(z) == if z == frame_zone(frame.0) { a.free_list(z).push(frame.0) } else { a.free_list(z) }
}

/// A frame taken with `alloc_frame` and given straight back with `dealloc` leaves the
/// free count as it was, and its zone's count one above what the allocation left;
/// when the frame lies in the zone that served it, every free stack is as it was.
pub proof fn law_alloc_then_dealloc(a: Pmm, b: Pmm, c: Pmm, zone: Zone, f: PhysFrame)
    requires
        a.wf(),
        took_frame(a, b, zone, Some(f)),
        gave_back(b, c, f),
    ensures
        c.free_frames == a.free_frames,
        c.total_frames == a.total_frames,
        c.free_list(frame_zone(f.0)).len() == b.free_list(frame_zone(f.0)).len() + 1,
        a.serving_zone(zone) == Some(frame_zone(f.0)) ==> c.same_as(a),
{
    let zs = a.serving_zone(zone)->0;
    assert(c.free_list(frame_zone(f.0)).len() == b.free_list(frame_zone(f.0)).len() + 1);
    if zs == frame_zone(f.0) {
        assert(c.free_list(zs) =~= a.free_list(zs)) by {
            assert(b.free_list(zs) == a.free_list(zs).drop_last());
            assert(c.free_list(zs) == b.free_list(zs).push(f.0));
            assert(a.free_list(zs).len() > 0);
        }
        assert(c.free_list(Zone::Dma16) == a.free_list(Zone::Dma16));
        assert(c.free_list(Zone::Dma32) == a.free_list(Zone::Dma32));
        assert(c.free_list(Zone::Normal) == a.free_list(Zone::Normal));
    }
}

impl Pmm {
    /// The free stack of a zone.
    pub open spec fn free_list(self, z: Zone) -> Seq<u64> {
        match z {
            Zone::Dma16 => self.dma16@,
            Zone::Dma32 => self.dma32@,
            Zone::Normal => self.normal@,
        }
    }

    /// Two states hold the same free stacks and counters.
    pub open spec fn same_as(self, other: Pmm) -> bool {
        &&& self.dma16@ == other.dma16@
        &&& self.dma32@ == other.dma32@
        &&& self.normal@ == other.normal@
        &&& self.total_frames == other.total_frames
        &&& self.free_frames == other.free_frames
        &&& self.hhdm_offset == other.hhdm_offset
    }

    /// The free counter equals the number of frames on the stacks.
    pub open spec fn wf(self) -> bool {
        self.free_frames == self.dma16@.len() + self.dma32@.len() + self.normal@.len()
    }

    /// The zones tried, in order, for an allocation that prefers `z`.
    pub open spec fn fallback_order(z: Zone) -> Seq<Zone> {
        match z {
            Zone::Dma16 => seq![Zone::Dma16, Zone::Dma32, Zone::Normal],
            Zone::Dma32 => seq![Zone::Dma32, Zone::Normal, Zone::Dma16],
            Zone::Normal => seq![Zone::Normal, Zone::Dma32, Zone::Dma16],
        }
    }

    /// The zone that serves an allocation preferring `z`: the first of the fallback
    /// order with a free frame.
    pub open spec fn serving_zone(self, z: Zone) -> Option<Zone> {
        let o = Self::fallback_order(z);
        if self.free_list(o[0]).len() > 0 {
            Some(o[0])
        } else if self.free_list(o[1]).len() > 0 {
            Some(o[1])
        } else if self.free_list(o[2]).len() > 0 {
            Some(o[2])
        } else {
            None
        }
    }

    /// Build the PMM from a memory map: every whole page of every usable region above
    /// the first MiB becomes a free frame of its zone, in map order.
    pub fn init(hhdm_offset: u64, memory_map: &Vec<MemoryRegion>) -> (pmm: Pmm)
        requires
            forall|i: int| 0 <= i < memory_map@.len() ==> region_in_range(#[trigger] memory_map@[i]),
            usable_frames(memory_map@).len() <= u64::MAX,
        ensures
            pmm.wf(),
            pmm.hhdm_offset == hhdm_offset,
            pmm.total_frames == usable_frames(memory_map@).len(),
            pmm.free_frames == pmm.total_frames,
            forall|z: Zone| #[trigger] pmm.free_list(z) == zone_frames(usable_frames(memory_map@), z),
    {
        let mut pmm = Pmm {
            dma16: Vec::new(),
            dma32: Vec::new(),
            normal: Vec::new(),
            total_frames: 0,
            free_frames: 0,
            hhdm_offset,
        };
        let ghost map = memory_map@;
        let mut total: u64 = 0;
        let mut i: usize = 0;
        proof {
            assert(map.take(0) =~= Seq::<MemoryRegion>::empty());
            lemma_page_size_pow2();
        }
        while i < memory_map.len()
            invariant
                map == memory_map@,
                0 <= i <= map.len(),
                forall|j: int| 0 <= j < map.len() ==> region_in_range(#[trigger] map[j]),
                usable_frames(map).len() <= u64::MAX,
                total == usable_frames(map.take(i as int)).len(),
                pmm.dma16@.len() + pmm.dma32@.len() + pmm.normal@.len() == total,
                pmm.hhdm_offset == hhdm_offset,
                forall|z: Zone| #[trigger] pmm.free_list(z) == zone_frames(usable_frames(map.take(i as int)), z),
                crate::memory::addr::is_pow2(PAGE_SIZE),
            decreases map.len() - i,
        {
            let region = memory_map[i];
            let ghost prefix = usable_frames(map.take(i as int));
            proof {
                assert(map.take(i as int + 1).drop_last() =~= map.take(i as int));
                assert(map.take(i as int + 1).last() == region);
                assert(usable_frames(map.take(i as int + 1)) == prefix + region_frames(region));
                lemma_usable_frames_prefix_len(map, i as int + 1);
            }
            if region.kind == MemoryRegionKind::Usable {
                let start = PhysAddr::new(region.base).align_up(PAGE_SIZE).as_u64();
                let end = PhysAddr::new(region.base + region.length).align_down(PAGE_SIZE).as_u64();
                let lo = start / PAGE_SIZE;
                let hi = end / PAGE_SIZE;
                let mut n: u64 = lo;
                let ghost first: int = if lo < FIRST_MANAGED_FRAME { FIRST_MANAGED_FRAME as int } else { lo as int };
                let ghost rf = region_frames(region);
                proof {
                    vstd::arithmetic::div_mod::lemma_fundamental_div_mod(region.base as int, PAGE_SIZE as int);
                }
                while n < hi
                    invariant
                        lo <= n,
                        lo as int == align_up_spec(region.base as int, PAGE_SIZE as int) / PAGE_SIZE as int,
                        hi as int == align_down_spec(region.base + region.length, PAGE_SIZE as int) / PAGE_SIZE as int,
                        hi <= PHYS_ADDR_LIMIT / PAGE_SIZE,
                        first == if lo < FIRST_MANAGED_FRAME { FIRST_MANAGED_FRAME as int } else { lo as int },
                        rf == region_frames(region),
                        region.kind == MemoryRegionKind::Usable,
                        prefix.len() + rf.len() <= u64::MAX,
                        total as int == prefix.len() + (if n < first { 0 } else { n - first }),
                        n <= hi || n == lo,
                        pmm.dma16@.len() + pmm.dma32@.len() + pmm.normal@.len() == total,
                        pmm.hhdm_offset == hhdm_offset,
                        forall|z: Zone| #[trigger] pmm.free_list(z) == zone_frames(
                            prefix + rf.take(if n < first { 0 } else { n - first }), z),
                    decreases hi - n,
                {
                    if n < FIRST_MANAGED_FRAME {
                        n = n + 1;
                        continue;
                    }
                    let ghost k: int = n - first;
                    proof {
                        assert(rf.take(k + 1) =~= rf.take(k).push(n));
                        assert((prefix + rf.take(k + 1)) =~= (prefix + rf.take(k)).push(n));
                        lemma_zone_frames_push(prefix + rf.take(k), n, Zone::Dma16);
                        lemma_zone_frames_push(prefix + rf.take(k), n, Zone::Dma32);
                        lemma_zone_frames_push(prefix + rf.take(k), n, Zone::Normal);
                    }
                    assert(n * PAGE_SIZE < PHYS_ADDR_LIMIT) by (nonlinear_arith)
                        requires
                            n < hi,
                            hi <= PHYS_ADDR_LIMIT / PAGE_SIZE,
                    ;
                    let phys = PhysAddr::new(n * PAGE_SIZE);
                    let zone = Zone::for_address(phys);
                    assert(zone == frame_zone(n));
                    let ghost s_old = prefix + rf.take(k);
                    assert(pmm.free_list(Zone::Dma16) == zone_frames(s_old, Zone::Dma16));
                    assert(pmm.free_list(Zone::Dma32) == zone_frames(s_old, Zone::Dma32));
                    assert(pmm.free_list(Zone::Normal) == zone_frames(s_old, Zone::Normal));
                    let ghost old_pmm = pmm;
                    match zone {
                        Zone::Dma16 => pmm.dma16.push(n),
                        Zone::Dma32 => pmm.dma32.push(n),
                        Zone::Normal => pmm.normal.push(n),
                    }
                    total = total + 1;
                    n = n + 1;
                    assert(n - first == k + 1);
                    assert forall|z: Zone| #[trigger] pmm.free_list(z) == zone_frames(
                        prefix + rf.take(n - first), z) by {
                        assert(prefix + rf.take(n - first) == s_old.push((n - 1) as u64));
                        assert(zone_frames(s_old.push((n - 1) as u64), z) == if zone == z {
                            zone_frames(s_old, z).push((n - 1) as u64)
                        } else {
                            zone_frames(s_old, z)
                        });
                        assert(old_pmm.free_list(z) == zone_frames(s_old, z));
                        assert(pmm.free_list(z) == if zone == z {
                            old_pmm.free_list(z).push((n - 1) as u64)
                        } else {
                            old_pmm.free_list(z)
                        });
                    }
                }
                proof {
                    assert(rf.take(rf.len() as int) =~= rf);
                    if rf.len() == 0 {
                        assert(rf.take(0) =~= rf);
                    }
                }
            } else {
                proof {
                    assert(prefix + region_frames(region) =~= prefix);
                }
            }
            i = i + 1;
        }
        proof {
            assert(map.take(map.len() as int) =~= map);
        }
        let ghost built = pmm;
        let r = Pmm {
            dma16: pmm.dma16,
            dma32: pmm.dma32,
            normal: pmm.normal,
            total_frames: total,
            free_frames: total,
            hhdm_offset,
        };
        assert forall|z: Zone| #[trigger] r.free_list(z) == zone_frames(usable_frames(map), z) by {
            assert(built.free_list(z) == zone_frames(usable_frames(map.take(map.len() as int)), z));
        }
        r
    }

    fn push_frame(&mut self, zone: Zone, frame: PhysFrame)
        ensures
            forall|z: Zone| #[trigger] final(self).free_list(z) == if z == zone {
                old(self).free_list(z).push(frame.0)
            } else {
                old(self).free_list(z)
            },
            final(self).total_frames == old(self).total_frames,
            final(self).free_frames == old(self).free_frames,
            final(self).hhdm_offset == old(self).hhdm_offset,
    {
        match zone {
            Zone::Dma16 => self.dma16.push(frame.0),
            Zone::Dma32 => self.dma32.push(frame.0),
            Zone::Normal => self.normal.push(frame.0),
        }
    }

    fn pop_frame(&mut self, zone: Zone) -> (r: Option<PhysFrame>)
        ensures
            old(self).free_list(zone).len() == 0 ==> r is None && final(self).same_as(*old(self)),
            old(self).free_list(zone).len() > 0 ==> r == Some(PhysFrame(old(self).free_list(zone).last())),
            old(self).free_list(zone).len() > 0 ==> forall|z: Zone| #[trigger] final(self).free_list(z) == if z == zone {
                old(self).free_list(z).drop_last()
            } else {
                old(self).free_list(z)
            },
            final(self).total_frames == old(self).total_frames,
            final(self).free_frames == old(self).free_frames,
            final(self).hhdm_offset == old(self).hhdm_offset,
    {
        let n = match zone {
            Zone::Dma16 => self.dma16.pop(),
            Zone::Dma32 => self.dma32.pop(),
            Zone::Normal => self.normal.pop(),
        };
        proof {
            assert(self.free_list(Zone::Dma16) == self.dma16@);
            assert(self.free_list(Zone::Dma32) == self.dma32@);
            assert(self.free_list(Zone::Normal) == self.normal@);
        }
        match n {
            Some(n) => Some(PhysFrame(n)),
            None => None,
        }
    }

    /// Allocate a zeroed frame, preferring `preferred_zone` and falling back along its
    /// fallback order; the frame handed out is the top of the serving zone's stack,
    /// and its memory is cleared. `None` when every zone is empty.
    pub fn alloc_frame(&mut self, preferred_zone: Zone, mem: &mut PhysMem) -> (r: Option<PhysFrame>)
        requires
            old(self).wf(),
            pmm_in_mem(*old(self), old(mem).words@),
        ensures
            final(self).wf(),
            final(self).total_frames == old(self).total_frames,
            final(self).hhdm_offset == old(self).hhdm_offset,
            match old(self).serving_zone(preferred_zone) {
                None => r is None && final(self).same_as(*old(self)),
                Some(zs) => {
                    &&& r == Some(PhysFrame(old(self).free_list(zs).last()))
                    &&& final(self).free_frames == old(self).free_frames - 1
                    &&& forall|z: Zone| #[trigger] final(self).free_list(z) == if z == zs {
                        old(self).free_list(z).drop_last()
                    } else {
                        old(self).free_list(z)
                    }
                },
            },
            took_frame(*old(self), *final(self), preferred_zone, r),
            // the frame handed out reads as zeros; nothing else in memory changes
            r matches Some(f) ==> frame_zeroed(final(mem).words@, f.0 as int)
                && agree_outside(old(mem).words@, final(mem).words@, set![f.0 as int]),
            r is None ==> final(mem).words@ == old(mem).words@,
    {
        let ghost pm0 = *self;
        let r = self.pop_preferred(preferred_zone);
        if let Some(f) = r {
            proof {
                let zs = pm0.serving_zone(preferred_zone)->0;
                assert(pm0.free_list(zs)[pm0.free_list(zs).len() - 1] == f.0);
                assert(has_frame(mem.words@, pm0.free_list(zs)[pm0.free_list(zs).len() - 1] as int));
            }
            mem.zero_frame(f.0);
        }
        r
    }

    /// The top frame of the first non-empty zone in `preferred_zone`'s fallback order,
    /// taken off its stack.
    fn pop_preferred(&mut self, preferred_zone: Zone) -> (r: Option<PhysFrame>)
        requires
            old(self).wf(),
        ensures
            final(self).wf(),
            final(self).total_frames == old(self).total_frames,
            final(self).hhdm_offset == old(self).hhdm_offset,
            match old(self).serving_zone(preferred_zone) {
                None => r is None && final(self).same_as(*old(self)),
                Some(zs) => {
                    &&& r == Some(PhysFrame(old(self).free_list(zs).last()))
                    &&& final(self).free_frames == old(self).free_frames - 1
                    &&& forall|z: Zone| #[trigger] final(self).free_list(z) == if z == zs {
                        old(self).free_list(z).drop_last()
                    } else {
                        old(self).free_list(z)
                    }
                },
            },
    {
        let order: [Zone; 3] = match preferred_zone {
            Zone::Dma16 => [Zone::Dma16, Zone::Dma32, Zone::Normal],
            Zone::Dma32 => [Zone::Dma32, Zone::Normal, Zone::Dma16],
            Zone::Normal => [Zone::Normal, Zone::Dma32, Zone::Dma16],
        };
        assert(order@ == Self::fallback_order(preferred_zone));
        let mut i: usize = 0;
        while i < 3
            invariant
                0 <= i <= 3,
                order@ == Self::fallback_order(preferred_zone),
                self.same_as(*old(self)),
                old(self).wf(),
                forall|j: int| 0 <= j < i ==> self.free_list(#[trigger] order@[j]).len() == 0,
            decreases 3 - i,
        {
            let zone = order[i];
            if let Some(frame) = self.pop_frame(zone) {
                proof {
                    assert(self.free_list(Zone::Dma16) == self.dma16@);
                    assert(self.free_list(Zone::Dma32) == self.dma32@);
                    assert(self.free_list(Zone::Normal) == self.normal@);
                    assert(old(self).free_list(Zone::Dma16) == old(self).dma16@);
                    assert(old(self).free_list(Zone::Dma32) == old(self).dma32@);
                    assert(old(self).free_list(Zone::Normal) == old(self).normal@);
                }
                self.free_frames = self.free_frames - 1;
                return Some(frame);
            }
            i = i + 1;
        }
        None
    }

    /// Allocate from the Normal zone, the common case.
    pub fn alloc_normal(&mut self) -> (r: Option<PhysFrame>)
        requires
            old(self).wf(),
        ensures
            final(self).wf(),
            final(self).total_frames == old(self).total_frames,
            final(self).hhdm_offset == old(self).hhdm_offset,
            match old(self).serving_zone(Zone::Normal) {
                None => r is None && final(self).same_as(*old(self)),
                Some(zs) => {
                    &&& r == Some(PhysFrame(old(self).free_list(zs).last()))
                    &&& final(self).free_frames == old(self).free_frames - 1
                    &&& forall|z: Zone| #[trigger] final(self).free_list(z) == if z == zs {
                        old(self).free_list(z).drop_last()
                    } else {
                        old(self).free_list(z)
                    }
                },
            },
    {
        if crate::fault::should_fail(crate::fault::InjectionPoint::PmmAlloc) {
            return None;
        }
        self.pop_preferred(Zone::Normal)
    }

    /// Give a frame back to the zone of its address.
    pub fn dealloc(&mut self, frame: PhysFrame)
        requires
            old(self).wf(),
            old(self).free_frames < u64::MAX,
            frame.0 < PHYS_ADDR_LIMIT / PAGE_SIZE,
        ensures
            final(self).wf(),
            final(self).free_frames == old(self).free_frames + 1,
            final(self).total_frames == old(self).total_frames,
            final(self).hhdm_offset == old(self).hhdm_offset,
            forall|z: Zone| #[trigger] final(self).free_list(z) == if z == frame_zone(frame.0) {
                old(self).free_list(z).push(frame.0)
            } else {
                old(self).free_list(z)
            },
            gave_back(*old(self), *final(self), frame),
    {
        let zone = Zone::for_address(frame.start_address());
        self.push_frame(zone, frame);
        proof {
            assert(self.free_list(Zone::Dma16) == self.dma16@);
            assert(self.free_list(Zone::Dma32) == self.dma32@);
            assert(self.free_list(Zone::Normal) == self.normal@);
            assert(old(self).free_list(Zone::Dma16) == old(self).dma16@);
            assert(old(self).free_list(Zone::Dma32) == old(self).dma32@);
            assert(old(self).free_list(Zone::Normal) == old(self).normal@);
        }
        self.free_frames = self.free_frames + 1;
    }

    /// Total number of managed frames.
    pub fn total_frames(&self) -> (r: u64)
        ensures
            r == self.total_frames,
    {
        self.total_frames
    }

    /// Number of currently free frames.
    pub fn free_frames(&self) -> (r: u64)
        ensures
            r == self.free_frames,
    {
        self.free_frames
    }

    /// Number of currently allocated frames.
    pub fn used_frames(&self) -> (r: u64)
        requires
            self.free_frames <= self.total_frames,
        ensures
            r == self.total_frames - self.free_frames,
    {
        self.total_frames - self.free_frames
    }

    /// Free frame count of one zone.
    pub fn zone_free_frames(&self, zone: Zone) -> (r: u64)
        ensures
            r == self.free_list(zone).len(),
    {
        let n = match zone {
            Zone::Dma16 => self.dma16.len(),
            Zone::Dma32 => self.dma32.len(),
            Zone::Normal => self.normal.len(),
        };
        n as u64
    }

    /// Virtual address of a physical address through the direct map.
    pub fn phys_to_virt(&self, phys: PhysAddr) -> (r: u64)
        ensures
            r == (phys.0 + self.hhdm_offset) % 0x1_0000_0000_0000_0000,
    {
        phys.as_u64().wrapping_add(self.hhdm_offset)
    }

    /// The direct map base.
    pub fn hhdm_offset(&self) -> (r: u64)
        ensures
            r == self.hhdm_offset,
    {
        self.hhdm_offset
    }
}

proof fn lemma_usable_frames_prefix_len(map: Seq<MemoryRegion>, k: int)
    requires
        0 <= k <= map.len(),
    ensures
        usable_frames(map.take(k)).len() <= usable_frames(map).len(),
    decreases map.len() - k,
{
    if k < map.len() {
        lemma_usable_frames_prefix_len(map, k + 1);
        assert(map.take(k + 1).drop_last() =~= map.take(k));
    } else {
        assert(map.take(k) =~= map);
    }
}

} // verus!
