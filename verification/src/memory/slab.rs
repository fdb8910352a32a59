//! Slab allocator: size-class caches of equal-sized objects carved from slabs of
//! pages, each slab keeping a stack of its free objects.
use vstd::prelude::*;

verus! {

/// Empty slabs kept before one is given back.
pub const HYSTERESIS_EMPTY_SLABS: usize = 2;

/// Virtual region of the slabs: 4 GiB for each size class.
pub const SLAB_REGION_START: u64 = 0xFFFF_D000_0000_0000;
pub const SLAB_REGION_PER_CLASS: u64 = 4 * 1024 * 1024 * 1024;

/// Number of size classes.
pub const NUM_CLASSES: usize = 8;

/// Size of the slab header at the start of each slab.
pub const SLAB_HEADER_SIZE: u64 = 40;

/// The object size of class `i`: 32, 64, ..., 4096.
pub open spec fn size_class_spec(i: int) -> int {
    if i == 0 { 32 } else if i == 1 { 64 } else if i == 2 { 128 } else if i == 3 { 256 }
    else if i == 4 { 512 } else if i == 5 { 1024 } else if i == 6 { 2048 } else { 4096 }
}

/// The object size of class `i`.
pub fn size_class(i: usize) -> (s: usize)
    requires
        i < NUM_CLASSES,
    ensures
        s == size_class_spec(i as int),
{
    if i == 0 { 32 } else if i == 1 { 64 } else if i == 2 { 128 } else if i == 3 { 256 }
    else if i == 4 { 512 } else if i == 5 { 1024 } else if i == 6 { 2048 } else { 4096 }
}

/// A slab: its pages, its object count, how many are handed out, and the stack of
/// free objects (the last is handed out next).
pub struct Slab {
    pub base: u64,
    pub page_count: u64,
    pub total: u32,
    pub allocated: u32,
    pub free: Vec<u64>,
    pub live: bool,
}

/// A cache of one object size: its slabs, the slabs with free objects (first is used
/// first), the count of empty slabs, and where the next slab goes.
pub struct SlabCache {
    pub object_size: usize,
    pub slabs: Vec<Slab>,
    pub partial: Vec<usize>,
    pub empty_count: usize,
    pub next_vaddr: u64,
}

/// What `allocate` gives: an object, or the cache needs a new slab first.
#[derive(Debug, Clone, Copy, PartialEq, Eq, Structural)]
pub enum AllocStep {
    Object(u64),
    NeedGrow,
}

/// The objects of a fresh slab at `data_start`, stacked so that the lowest address
/// is handed out first.
pub open spec fn fresh_free(data_start: int, obj: int, count: int) -> Seq<u64> {
    Seq::new(count as nat, |i: int| (data_start + (count - 1 - i) * obj) as u64)
}

impl SlabCache {
    pub open spec fn wf(&self) -> bool {
        &&& self.object_size > 0
        &&& self.object_size <= 4096
        &&& forall|i: int| 0 <= i < self.slabs@.len() ==> {
            let s = #[trigger] self.slabs@[i];
            s.free@.len() + s.allocated == s.total
        }
        &&& forall|k: int| 0 <= k < self.partial@.len() ==> #[trigger] self.partial@[k] < self.slabs@.len()
    }

    /// Whether `allocate` needs a new slab first: no partial slab, or the first partial
    /// slab has no free object.
    pub open spec fn needs_grow_spec(&self) -> bool {
        self.partial@.len() == 0 || self.slabs@[self.partial@[0] as int].free@.len() == 0
    }

    /// An empty cache of `object_size` objects whose slabs start at `base_vaddr`.
    pub fn new(object_size: usize, base_vaddr: u64) -> (c: Self)
        requires
            0 < object_size <= 4096,
        ensures
            c.wf(),
            c.object_size == object_size,
            c.slabs@.len() == 0,
            c.partial@.len() == 0,
            c.empty_count == 0,
            c.next_vaddr == base_vaddr,
    {
        SlabCache { object_size, slabs: Vec::new(), partial: Vec::new(), empty_count: 0, next_vaddr: base_vaddr }
    }

    /// Start of the slab-sized block of the class region (from `class_start`) that
    /// `addr` falls in.
    pub open spec fn slab_base(&self, addr: u64, class_start: u64) -> int {
        let pages = if (self.object_size * 8 + SLAB_HEADER_SIZE + 4095) / 4096 < 1 { 1 } else {
            (self.object_size * 8 + SLAB_HEADER_SIZE + 4095) / 4096 };
        let slab_size = pages * 4096;
        class_start + ((addr - class_start) / slab_size) * slab_size
    }

    /// Pages of a slab: room for eight objects and the header, at least one page.
    pub fn pages_per_slab(&self) -> (p: u64)
        requires
            self.object_size <= 4096,
        ensures
            p == if (self.object_size * 8 + SLAB_HEADER_SIZE + 4095) / 4096 < 1 { 1 } else {
                (self.object_size * 8 + SLAB_HEADER_SIZE + 4095) / 4096 },
    {
        let min_data = self.object_size as u64 * 8 + SLAB_HEADER_SIZE;
        let p = (min_data + 4095) / 4096;
        if p < 1 { 1 } else { p }
    }

    /// The size class of this cache (0 when the object size is not a class size).
    pub fn class_index(&self) -> (i: usize)
        ensures
            i < NUM_CLASSES,
            (exists|k: int| 0 <= k < NUM_CLASSES && size_class_spec(k) == self.object_size)
                ==> size_class_spec(i as int) == self.object_size,
    {
        let mut i: usize = 0;
        while i < NUM_CLASSES
            invariant
                i <= NUM_CLASSES,
                forall|k: int| 0 <= k < i ==> size_class_spec(k) != self.object_size,
            decreases NUM_CLASSES - i,
        {
            if size_class(i) == self.object_size {
                return i;
            }
            i = i + 1;
        }
        0
    }

    /// Whether `allocate` needs a new slab first.
    pub fn needs_grow(&self) -> (b: bool)
        requires
            self.wf(),
        ensures
            b == self.needs_grow_spec(),
    {
        self.partial.len() == 0 || self.slabs[self.partial[0]].free.len() == 0
    }

    /// The region a new slab needs mapped: its address and page count.
    pub fn grow_region(&self) -> (r: (u64, u64))
        requires
            self.wf(),
        ensures
            r.0 == self.next_vaddr,
            r.1 == if (self.object_size * 8 + SLAB_HEADER_SIZE + 4095) / 4096 < 1 { 1 } else {
                (self.object_size * 8 + SLAB_HEADER_SIZE + 4095) / 4096 },
    {
        (self.next_vaddr, self.pages_per_slab())
    }

    /// Add the slab whose pages were just mapped at `next_vaddr`: its objects follow
    /// the header (rounded up to the object size), all free, lowest first; it goes to
    /// the front of the partial list and counts as empty.
    pub fn add_slab(&mut self)
        requires
            old(self).wf(),
            old(self).next_vaddr + 0x10_0000 <= u64::MAX,
            old(self).empty_count < usize::MAX,
            old(self).slabs@.len() < usize::MAX,
        ensures
            final(self).wf(),
            final(self).object_size == old(self).object_size,
            final(self).slabs@.len() == old(self).slabs@.len() + 1,
            final(self).slabs@.take(old(self).slabs@.len() as int) == old(self).slabs@,
            final(self).partial@ == seq![old(self).slabs@.len() as usize] + old(self).partial@,
            final(self).empty_count == old(self).empty_count + 1,
            ({
                let s = final(self).slabs@.last();
                let obj = old(self).object_size as int;
                let base = old(self).next_vaddr as int;
                let pages = if (obj * 8 + SLAB_HEADER_SIZE + 4095) / 4096 < 1 { 1 } else { (obj * 8 + SLAB_HEADER_SIZE + 4095) / 4096 };
                let data_start = base + (SLAB_HEADER_SIZE + obj - 1) / obj * obj;
                let count = (base + pages * 4096 - data_start) / obj;
                &&& s.base == base
                &&& s.page_count == pages
                &&& s.allocated == 0
                &&& s.total == count
                &&& s.live
                &&& s.free@ == fresh_free(data_start, obj, count)
                &&& final(self).next_vaddr == base + pages * 4096
            }),
    {
        let obj = self.object_size as u64;
        let pages = self.pages_per_slab();
        assert(pages <= 9) by (nonlinear_arith)
            requires
                obj <= 4096,
                pages == if (obj * 8 + 40 + 4095) / 4096 < 1 { 1 } else { (obj * 8 + 40 + 4095) / 4096 },
        ;
        let base = self.next_vaddr;
        let q = (SLAB_HEADER_SIZE + obj - 1) / obj;
        assert(q * obj <= SLAB_HEADER_SIZE + obj) by (nonlinear_arith)
            requires
                q == (SLAB_HEADER_SIZE + obj - 1) / (obj as int),
                obj > 0,
        ;
        let metadata = q * obj;
        assert(metadata <= pages * 4096) by (nonlinear_arith)
            requires
                metadata <= 40 + obj,
                obj <= 4096,
                pages == if (obj * 8 + 40 + 4095) / 4096 < 1 { 1 } else { (obj * 8 + 40 + 4095) / 4096 },
        ;
        let data_start = base + metadata;
        let data_end = base + pages * 4096;
        let count64 = (data_end - data_start) / obj;
        assert(count64 <= 9 * 4096) by (nonlinear_arith)
            requires
                count64 == (data_end - data_start) / (obj as int),
                data_end - data_start <= 9 * 4096,
                obj >= 1,
        ;
        let count = count64 as u32;
        assert(count as int * obj <= data_end - data_start) by (nonlinear_arith)
            requires
                count == (data_end - data_start) / (obj as int),
                obj > 0,
                data_end >= data_start,
        ;
        let mut free: Vec<u64> = Vec::new();
        let mut i: u32 = count;
        while i > 0
            invariant
                i <= count,
                count as int * obj <= data_end - data_start,
                data_end <= u64::MAX,
                free@ == fresh_free(data_start as int, obj as int, count as int).take((count - i) as int),
            decreases i,
        {
            i = i - 1;
            assert(i as int * obj <= count as int * obj) by (nonlinear_arith)
                requires
                    i < count,
                    obj >= 0,
            ;
            let addr = data_start + i as u64 * obj;
            free.push(addr);
            proof {
                let f = fresh_free(data_start as int, obj as int, count as int);
                assert(f[(count - i - 1) as int] == addr);
                assert(free@ =~= f.take((count - i) as int));
            }
        }
        assert(free@ =~= fresh_free(data_start as int, obj as int, count as int));
        let n = self.slabs.len();
        let ghost old_slabs = self.slabs@;
        self.slabs.push(Slab { base, page_count: pages, total: count, allocated: 0, free, live: true });
        self.partial.insert(0, n);
        self.empty_count = self.empty_count + 1;
        self.next_vaddr = base + pages * 4096;
        proof {
            assert(self.slabs@.take(n as int) =~= old_slabs);
            assert forall|i: int| 0 <= i < self.slabs@.len() implies {
                let s = #[trigger] self.slabs@[i];
                s.free@.len() + s.allocated == s.total
            } by {
                if i < n {
                    assert(self.slabs@[i] == old_slabs[i]);
                }
            }
            assert forall|k: int| 0 <= k < self.partial@.len() implies #[trigger] self.partial@[k] < self.slabs@.len() by {
                if k > 0 {
                    assert(self.partial@[k] == old(self).partial@[k - 1]);
                }
            }
            assert(self.partial@ =~= seq![n] + old(self).partial@);
        }
    }

    /// Hand out an object from the first partial slab: the top of its free stack. A
    /// slab that becomes full leaves the partial list; one that stops being empty is
    /// no longer counted as empty.
    pub fn allocate(&mut self) -> (r: AllocStep)
        requires
            old(self).wf(),
        ensures
            final(self).wf(),
            final(self).object_size == old(self).object_size,
            final(self).next_vaddr == old(self).next_vaddr,
            final(self).slabs@.len() == old(self).slabs@.len(),
            old(self).needs_grow_spec() ==> r == AllocStep::NeedGrow && *final(self) == *old(self),
            !old(self).needs_grow_spec() ==> ({
                let si = old(self).partial@[0] as int;
                let s = old(self).slabs@[si];
                &&& r == AllocStep::Object(s.free@.last())
                &&& final(self).slabs@[si].free@ == s.free@.drop_last()
                &&& final(self).slabs@[si].allocated == s.allocated + 1
                &&& final(self).slabs@[si].base == s.base
                &&& forall|j: int| 0 <= j < old(self).slabs@.len() && j != si ==> #[trigger] final(self).slabs@[j] == old(self).slabs@[j]
                &&& final(self).partial@ == if s.free@.len() == 1 { old(self).partial@.drop_first() } else { old(self).partial@ }
                &&& final(self).empty_count == if s.allocated == 0 && old(self).empty_count > 0 {
                    old(self).empty_count - 1 } else { old(self).empty_count as int }
            }),
    {
        if self.needs_grow() {
            return AllocStep::NeedGrow;
        }
        let si = self.partial[0];
        let ghost before = self.slabs@;
        let mut slab = self.slabs.remove(si);
        let obj = slab.free.pop().unwrap();
        slab.allocated = slab.allocated + 1;
        if slab.allocated == 1 && self.empty_count > 0 {
            self.empty_count = self.empty_count - 1;
        }
        let full = slab.free.len() == 0;
        self.slabs.insert(si, slab);
        if full {
            let _ = self.partial.remove(0);
        }
        proof {
            assert(self.slabs@ =~= before.update(si as int, self.slabs@[si as int]));
            assert forall|i: int| 0 <= i < self.slabs@.len() implies {
                let s = #[trigger] self.slabs@[i];
                s.free@.len() + s.allocated == s.total
            } by {
                if i != si {
                    assert(self.slabs@[i] == before[i]);
                }
            }
            if full {
                assert forall|k: int| 0 <= k < self.partial@.len() implies #[trigger] self.partial@[k] < self.slabs@.len() by {
                    assert(self.partial@[k] == old(self).partial@[k + 1]);
                }
                assert(self.partial@ =~= old(self).partial@.drop_first());
            }
        }
        AllocStep::Object(obj)
    }

    /// The slab that holds `addr`: the one whose base is the start of the slab-sized
    /// block `addr` falls in, within this cache's class region.
    pub fn slab_of(&self, addr: u64, class_start: u64) -> (r: Option<usize>)
        requires
            self.wf(),
        ensures
            addr < class_start ==> r is None,
            addr >= class_start ==> ({
                let base = self.slab_base(addr, class_start);
                match r {
                    Some(i) => i < self.slabs@.len() && self.slabs@[i as int].live && self.slabs@[i as int].base == base
                        && forall|j: int| 0 <= j < i ==> !(#[trigger] self.slabs@[j].live && self.slabs@[j].base == base),
                    None => forall|j: int| 0 <= j < self.slabs@.len() ==> !(#[trigger] self.slabs@[j].live && self.slabs@[j].base == base),
                }
            }),
    {
        if addr < class_start {
            return None;
        }
        let pages = self.pages_per_slab();
        assert(1 <= pages <= 9) by (nonlinear_arith)
            requires
                self.object_size <= 4096,
                pages == if (self.object_size * 8 + 40 + 4095) / 4096 < 1 { 1 } else { (self.object_size * 8 + 40 + 4095) / 4096 },
        ;
        let slab_size = pages * 4096;
        let off = addr - class_start;
        let q = off / slab_size;
        assert(q * slab_size <= off) by (nonlinear_arith)
            requires
                q == off / slab_size,
                slab_size > 0,
        ;
        let base = class_start + q * slab_size;
        assert(base == self.slab_base(addr, class_start));
        let mut i: usize = 0;
        while i < self.slabs.len()
            invariant
                i <= self.slabs@.len(),
                forall|j: int| 0 <= j < i ==> !(#[trigger] self.slabs@[j].live && self.slabs@[j].base == base),
                addr >= class_start,
                base == self.slab_base(addr, class_start),
            decreases self.slabs@.len() - i,
        {
            if self.slabs[i].live && self.slabs[i].base == base {
                return Some(i);
            }
            i = i + 1;
        }
        None
    }

    /// Give back an object of slab `si`: it goes on top of the slab's free stack; a
    /// slab that was full rejoins the front of the partial list; a slab that becomes
    /// empty counts as empty, and past the hysteresis it leaves the partial list and
    /// its region is given (to be unmapped).
    pub fn dealloc(&mut self, si: usize, addr: u64) -> (r: Option<(u64, u64)>)
        requires
            old(self).wf(),
            si < old(self).slabs@.len(),
            old(self).slabs@[si as int].allocated > 0,
            old(self).empty_count < usize::MAX,
        ensures
            final(self).wf(),
            final(self).object_size == old(self).object_size,
            final(self).next_vaddr == old(self).next_vaddr,
            final(self).slabs@.len() == old(self).slabs@.len(),
            final(self).slabs@[si as int].free@ == old(self).slabs@[si as int].free@.push(addr),
            final(self).slabs@[si as int].allocated == old(self).slabs@[si as int].allocated - 1,
            forall|j: int| 0 <= j < old(self).slabs@.len() && j != si ==> #[trigger] final(self).slabs@[j] == old(self).slabs@[j],
            r matches Some((b, p)) ==> b == old(self).slabs@[si as int].base && p == old(self).slabs@[si as int].page_count
                && !final(self).slabs@[si as int].live,
            r is None ==> final(self).slabs@[si as int].live == old(self).slabs@[si as int].live,
    {
        let ghost before = self.slabs@;
        let mut slab = self.slabs.remove(si);
        let was_full = slab.free.len() == 0 && slab.allocated > 0;
        slab.free.push(addr);
        slab.allocated = slab.allocated - 1;
        let now_empty = slab.allocated == 0;
        let base = slab.base;
        let pages = slab.page_count;
        self.slabs.insert(si, slab);
        proof {
            assert(self.slabs@ =~= before.update(si as int, self.slabs@[si as int]));
        }
        if was_full {
            self.partial.insert(0, si);
        }
        let mut freed: Option<(u64, u64)> = None;
        if now_empty {
            self.empty_count = self.empty_count + 1;
            if self.empty_count > HYSTERESIS_EMPTY_SLABS {
                let mut k: usize = 0;
                while k < self.partial.len() && self.partial[k] != si
                    invariant
                        k <= self.partial@.len(),
                    decreases self.partial@.len() - k,
                {
                    k = k + 1;
                }
                if k < self.partial.len() {
                    let ghost p0 = self.partial@;
                    let _ = self.partial.remove(k);
                    proof {
                        assert forall|j: int| 0 <= j < self.partial@.len() implies #[trigger] self.partial@[j] < self.slabs@.len() by {
                            if j >= k {
                                assert(self.partial@[j] == p0[j + 1]);
                            } else {
                                assert(self.partial@[j] == p0[j]);
                            }
                        }
                    }
                }
                self.empty_count = self.empty_count - 1;
                let ghost mid = self.slabs@;
                let mut s = self.slabs.remove(si);
                s.live = false;
                self.slabs.insert(si, s);
                proof {
                    assert(self.slabs@ =~= mid.update(si as int, self.slabs@[si as int]));
                }
                freed = Some((base, pages));
            }
        }
        proof {
            assert forall|i: int| 0 <= i < self.slabs@.len() implies {
                let s = #[trigger] self.slabs@[i];
                s.free@.len() + s.allocated == s.total
            } by {
                if i != si {
                    assert(self.slabs@[i] == before[i]);
                }
            }
        }
        freed
    }
}

/// The size-class caches and whether slab allocation is on yet.
pub struct KernelAllocator {
    pub caches: Vec<SlabCache>,
    pub slab_active: bool,
}

/// The first size class that holds `size`.
pub open spec fn cache_index_spec(size: int) -> Option<int> {
    if size <= 32 { Some(0) } else if size <= 64 { Some(1) } else if size <= 128 { Some(2) }
    else if size <= 256 { Some(3) } else if size <= 512 { Some(4) } else if size <= 1024 { Some(5) }
    else if size <= 2048 { Some(6) } else if size <= 4096 { Some(7) } else { None }
}

impl KernelAllocator {
    pub open spec fn wf(&self) -> bool {
        &&& self.caches@.len() == NUM_CLASSES
        &&& forall|i: int| 0 <= i < NUM_CLASSES ==> (#[trigger] self.caches@[i]).wf()
            && self.caches@[i].object_size == size_class_spec(i)
    }

    /// One empty cache per size class, class `i` starting at its 4 GiB region; slab
    /// allocation off.
    pub fn new() -> (a: Self)
        ensures
            a.wf(),
            !a.slab_active,
            forall|i: int| 0 <= i < NUM_CLASSES ==> (#[trigger] a.caches@[i]).next_vaddr
                == SLAB_REGION_START + i * SLAB_REGION_PER_CLASS,
    {
        let mut caches: Vec<SlabCache> = Vec::new();
        let mut i: usize = 0;
        while i < NUM_CLASSES
            invariant
                i <= NUM_CLASSES,
                caches@.len() == i,
                forall|k: int| 0 <= k < i ==> (#[trigger] caches@[k]).wf() && caches@[k].object_size == size_class_spec(k)
                    && caches@[k].next_vaddr == SLAB_REGION_START + k * SLAB_REGION_PER_CLASS,
            decreases NUM_CLASSES - i,
        {
            let base = SLAB_REGION_START + i as u64 * SLAB_REGION_PER_CLASS;
            caches.push(SlabCache::new(size_class(i), base));
            i = i + 1;
        }
        KernelAllocator { caches, slab_active: false }
    }

    /// Turn slab allocation on.
    pub fn activate(&mut self)
        ensures
            final(self).slab_active,
            final(self).caches == old(self).caches,
    {
        self.slab_active = true;
    }

    /// The first size class that holds `size`.
    pub fn cache_index(size: usize) -> (r: Option<usize>)
        ensures
            match cache_index_spec(size as int) {
                Some(i) => r == Some(i as usize),
                None => r is None,
            },
    {
        if size <= 32 { Some(0) } else if size <= 64 { Some(1) } else if size <= 128 { Some(2) }
        else if size <= 256 { Some(3) } else if size <= 512 { Some(4) } else if size <= 1024 { Some(5) }
        else if size <= 2048 { Some(6) } else if size <= 4096 { Some(7) } else { None }
    }

    /// Whether `addr` lies in the slab region.
    pub fn is_in_slab_region(addr: u64) -> (b: bool)
        ensures
            b == (SLAB_REGION_START <= addr < SLAB_REGION_START + SLAB_REGION_PER_CLASS * NUM_CLASSES),
    {
        addr >= SLAB_REGION_START && addr < SLAB_REGION_START + SLAB_REGION_PER_CLASS * 8
    }

    /// Which cache serves an allocation of `size` bytes aligned to `align`: the class of
    /// the larger of the two while slabs are on; `None` sends it to the heap.
    pub fn alloc_route(&self, size: usize, align: usize) -> (r: Option<usize>)
        ensures
            !self.slab_active ==> r is None,
            self.slab_active ==> match cache_index_spec(if size < align { align as int } else { size as int }) {
                Some(i) => r == Some(i as usize),
                None => r is None,
            },
    {
        if !self.slab_active {
            return None;
        }
        let s = if size < align { align } else { size };
        Self::cache_index(s)
    }

    /// Which cache takes back `addr` (of `size` bytes aligned to `align`): the class
    /// of the larger of the two when the address is in the slab region; `None` sends it
    /// to the heap.
    pub fn dealloc_route(addr: u64, size: usize, align: usize) -> (r: Option<usize>)
        ensures
            !(SLAB_REGION_START <= addr < SLAB_REGION_START + SLAB_REGION_PER_CLASS * NUM_CLASSES) ==> r is None,
            (SLAB_REGION_START <= addr < SLAB_REGION_START + SLAB_REGION_PER_CLASS * NUM_CLASSES) ==>
                match cache_index_spec(if size < align { align as int } else { size as int }) {
                    Some(i) => r == Some(i as usize),
                    None => r is None,
                },
    {
        if !Self::is_in_slab_region(addr) {
            return None;
        }
        let s = if size < align { align } else { size };
        Self::cache_index(s)
    }
}

/// Objects are reused last in, first out: an object given back to a slab is the next
/// one that slab hands out, and handing it out leaves the free stack as before.
pub proof fn law_slab_reuse(free: Seq<u64>, addr: u64)
    ensures
        free.push(addr).last() == addr,
        free.push(addr).drop_last() == free,
{
    assert(free.push(addr).drop_last() =~= free);
}

} // verus!
