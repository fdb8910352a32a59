//! Linked-list first-fit heap over a growable virtual region.
use vstd::prelude::*;
use crate::memory::addr::{VirtAddr, PAGE_SIZE};
use crate::memory::paging::{pmm_in_mem, PageFlags, PhysMem, FLAG_NO_EXECUTE, FLAG_WRITABLE};
use crate::memory::pmm::{Pmm, Zone};
use crate::memory::vmm::Vmm;

verus! {

/// Bytes of the size header stored before each allocation.
pub const HEADER_SIZE: u64 = 8;

/// Smallest block the free list can hold.
pub const MIN_BLOCK: u64 = 16;

/// Least growth of the heap region.
pub const MIN_GROWTH: u64 = 1024 * 1024;

/// Kernel heap layout.
pub const KERNEL_HEAP_START: u64 = 0xFFFF_C000_0000_0000;
pub const KERNEL_HEAP_INITIAL_SIZE: u64 = 2 * 1024 * 1024;
pub const KERNEL_HEAP_MAX_SIZE: u64 = 256 * 1024 * 1024;

/// The page table entries of heap pages: writable, never executed.
pub const HEAP_PAGE_FLAGS: u64 = FLAG_WRITABLE | FLAG_NO_EXECUTE;

/// Back `pages` pages of the heap region from `start` with fresh frames, writable
/// and not executable: true when they are mapped.
fn map_heap_pages(vmm: &mut Vmm, mem: &mut PhysMem, pmm: &mut Pmm, start: u64, pages: u64) -> (ok: bool)
    requires
        old(mem).wf(),
        old(pmm).wf(),
        pmm_in_mem(*old(pmm), old(mem).words@),
        start + pages * PAGE_SIZE <= u64::MAX,
    ensures
        *final(vmm) == *old(vmm),
        final(mem).wf(),
        final(mem).words@.len() == old(mem).words@.len(),
        final(pmm).wf(),
        pmm_in_mem(*final(pmm), final(mem).words@),
        pages > 0 && old(pmm).serving_zone(Zone::Normal) is None ==> !ok && final(mem).words@ == old(mem).words@,
{
    let r = vmm.alloc_and_map(mem, pmm, VirtAddr(start), pages, PageFlags { bits: HEAP_PAGE_FLAGS });
    r.is_ok()
}

/// A free block: its address and size.
#[derive(Debug, Clone, Copy, PartialEq, Eq, Structural)]
pub struct FreeBlock {
    pub addr: u64,
    pub size: u64,
}

/// The heap: free list (head first), the region, and the size header of each block
/// handed out (block address, size).
pub struct LinkedListHeap {
    pub free: Vec<FreeBlock>,
    pub headers: Vec<(u64, u64)>,
    pub heap_start: u64,
    pub heap_end: u64,
    pub heap_max: u64,
    pub allocated_bytes: u64,
}

/// Index of the first free block of at least `total` bytes.
pub open spec fn first_fit(free: Seq<FreeBlock>, total: int) -> Option<int>
    decreases free.len(),
{
    if free.len() == 0 {
        None
    } else {
        match first_fit(free.drop_last(), total) {
            Some(i) => Some(i),
            None => if free.last().size >= total { Some(free.len() - 1) } else { None },
        }
    }
}

/// Bytes a request takes: header plus size rounded up to the alignment, and no less
/// than the smallest block.
pub open spec fn request_size(size: int, align: int) -> int {
    let a = if align < 8 { 8 } else { align };
    let t = ((HEADER_SIZE + size + a - 1) / a) * a;
    if t < MIN_BLOCK { MIN_BLOCK as int } else { t }
}

/// A block taken for a request of `size` bytes holds the size header and all `size`
/// bytes after it, so the bytes handed out, from the block's start plus the header,
/// lie inside the block; it is at least `MIN_BLOCK` and otherwise a whole number of
/// alignment units (8 at least), less than one unit over the header and the request.
pub proof fn law_request_size(size: int, align: int)
    requires
        size >= 0,
        align >= 1,
    ensures
        request_size(size, align) >= HEADER_SIZE + size,
        request_size(size, align) >= MIN_BLOCK,
        request_size(size, align) % (if align < 8 { 8 } else { align }) == 0 || request_size(size, align) == MIN_BLOCK,
        request_size(size, align) < HEADER_SIZE + size + (if align < 8 { 8 } else { align })
            || request_size(size, align) == MIN_BLOCK,
{
    let a = if align < 8 { 8 } else { align };
    let x = HEADER_SIZE + size + a - 1;
    let t = (x / a) * a;
    vstd::arithmetic::div_mod::lemma_fundamental_div_mod(x, a);
    vstd::arithmetic::div_mod::lemma_mod_pos_bound(x, a);
    assert(t == x - x % a) by (nonlinear_arith)
        requires
            x == a * (x / a) + x % a,
            t == (x / a) * a,
    ;
    vstd::arithmetic::div_mod::lemma_mod_multiples_basic(x / a, a);
    assert(t % a == 0);
    assert(t >= a) by (nonlinear_arith)
        requires
            t == x - x % a,
            0 <= x % a < a,
            x >= a + 7,
            t % a == 0,
            a > 0,
    {
        assert(t > 0);
        vstd::arithmetic::div_mod::lemma_fundamental_div_mod(t, a);
    }
}

/// A free block large enough for a request, taken for it, covers the size header and
/// the requested bytes after it: the address handed out and the `size` bytes from it
/// lie inside the block, so blocks taken from disjoint free blocks never overlap.
pub proof fn law_taken_block_holds_request(b: FreeBlock, size: int, align: int)
    requires
        size >= 0,
        align >= 1,
        b.size >= request_size(size, align),
    ensures
        b.addr + HEADER_SIZE + size <= b.addr + taken_size(b, request_size(size, align)),
        taken_size(b, request_size(size, align)) <= b.size,
{
    law_request_size(size, align);
}

/// The free list after taking `total` bytes from block `i`: the rest stays in place
/// as a block when it can hold a free block, else the block leaves the list.
pub open spec fn take_from(free: Seq<FreeBlock>, i: int, total: int) -> Seq<FreeBlock> {
    let b = free[i];
    if b.size - total >= MIN_BLOCK {
        free.update(i, FreeBlock { addr: (b.addr + total) as u64, size: (b.size - total) as u64 })
    } else {
        free.remove(i)
    }
}

/// Size recorded in the header of a block taken for `total` bytes.
pub open spec fn taken_size(b: FreeBlock, total: int) -> u64 {
    if b.size - total >= MIN_BLOCK { total as u64 } else { b.size }
}

/// How much the heap grows for a request of `min_bytes`.
pub open spec fn growth(min_bytes: int) -> int {
    let r = ((min_bytes + 4095) / 4096) * 4096;
    if r < MIN_GROWTH { MIN_GROWTH as int } else { r }
}

proof fn lemma_first_fit_bound(free: Seq<FreeBlock>, total: int)
    ensures
        first_fit(free, total) matches Some(i) ==> 0 <= i < free.len() && free[i].size >= total,
        first_fit(free, total) is None ==> forall|j: int| 0 <= j < free.len() ==> #[trigger] free[j].size < total,
    decreases free.len(),
{
    if free.len() > 0 {
        lemma_first_fit_bound(free.drop_last(), total);
        assert forall|j: int| 0 <= j < free.len() - 1 implies free[j] == free.drop_last()[j] by {}
    }
}

impl LinkedListHeap {
    /// Free blocks lie in the region and every size fits the address space.
    pub open spec fn wf(&self) -> bool {
        &&& self.heap_start <= self.heap_end <= self.heap_max
        &&& forall|i: int| 0 <= i < self.free@.len() ==> {
            &&& (#[trigger] self.free@[i]).addr as int + self.free@[i].size <= self.heap_end
            &&& self.free@[i].size >= MIN_BLOCK
        }
    }

    /// An empty heap with no region yet.
    pub fn new() -> (h: Self)
        ensures
            h.wf(),
            h.free@.len() == 0,
            h.allocated_bytes == 0,
    {
        LinkedListHeap { free: Vec::new(), headers: Vec::new(), heap_start: 0, heap_end: 0, heap_max: 0, allocated_bytes: 0 }
    }

    /// Map the initial region and make it one free block; false when the pages
    /// cannot be mapped.
    pub fn init(&mut self, vmm: &mut Vmm, mem: &mut PhysMem, pmm: &mut Pmm) -> (ok: bool)
        requires
            old(self).free@.len() == 0,
            old(mem).wf(),
            old(pmm).wf(),
            pmm_in_mem(*old(pmm), old(mem).words@),
        ensures
            *final(vmm) == *old(vmm),
            final(mem).wf(),
            final(pmm).wf(),
            pmm_in_mem(*final(pmm), final(mem).words@),
            old(pmm).serving_zone(Zone::Normal) is None ==> !ok,
            ok ==> final(self).wf() && final(self).free@ == seq![FreeBlock { addr: KERNEL_HEAP_START, size: KERNEL_HEAP_INITIAL_SIZE }]
                && final(self).heap_start == KERNEL_HEAP_START
                && final(self).heap_end == KERNEL_HEAP_START + KERNEL_HEAP_INITIAL_SIZE
                && final(self).heap_max == KERNEL_HEAP_START + KERNEL_HEAP_MAX_SIZE,
            !ok ==> *final(self) == *old(self),
    {
        if !map_heap_pages(vmm, mem, pmm, KERNEL_HEAP_START, KERNEL_HEAP_INITIAL_SIZE / 4096) {
            return false;
        }
        self.heap_start = KERNEL_HEAP_START;
        self.heap_end = KERNEL_HEAP_START + KERNEL_HEAP_INITIAL_SIZE;
        self.heap_max = KERNEL_HEAP_START + KERNEL_HEAP_MAX_SIZE;
        self.free.push(FreeBlock { addr: KERNEL_HEAP_START, size: KERNEL_HEAP_INITIAL_SIZE });
        true
    }

    /// Grow the region by at least `min_bytes` (whole pages, at least 1 MiB): the new
    /// pages become a free block at the head of the list. False when the region would
    /// pass its maximum or the pages cannot be mapped.
    fn grow(&mut self, min_bytes: u64, vmm: &mut Vmm, mem: &mut PhysMem, pmm: &mut Pmm) -> (ok: bool)
        requires
            old(self).wf(),
            min_bytes as int + 4095 <= u64::MAX,
            old(mem).wf(),
            old(pmm).wf(),
            pmm_in_mem(*old(pmm), old(mem).words@),
        ensures
            *final(vmm) == *old(vmm),
            final(mem).wf(),
            final(pmm).wf(),
            pmm_in_mem(*final(pmm), final(mem).words@),
            final(self).wf(),
            final(self).headers@ == old(self).headers@,
            final(self).allocated_bytes == old(self).allocated_bytes,
            final(self).heap_start == old(self).heap_start,
            final(self).heap_max == old(self).heap_max,
            old(self).heap_end + growth(min_bytes as int) > old(self).heap_max ==> !ok,
            ok ==> final(self).free@ == seq![FreeBlock { addr: old(self).heap_end, size: growth(min_bytes as int) as u64 }] + old(self).free@
                && final(self).heap_end == old(self).heap_end + growth(min_bytes as int),
            !ok ==> final(self).free@ == old(self).free@ && final(self).heap_end == old(self).heap_end,
    {
        let rounded = (min_bytes + 4095) / 4096 * 4096;
        let grow_size = if rounded < MIN_GROWTH { MIN_GROWTH } else { rounded };
        if self.heap_max - self.heap_end < grow_size {
            return false;
        }
        let new_end = self.heap_end + grow_size;
        proof {
            assert((grow_size / 4096) * 4096 <= grow_size) by (nonlinear_arith);
        }
        if !map_heap_pages(vmm, mem, pmm, self.heap_end, grow_size / 4096) {
            return false;
        }
        let block = FreeBlock { addr: self.heap_end, size: grow_size };
        self.free.insert(0, block);
        self.heap_end = new_end;
        proof {
            assert(self.free@ =~= seq![block] + old(self).free@);
            assert forall|i: int| 0 <= i < self.free@.len() implies {
                &&& (#[trigger] self.free@[i]).addr as int + self.free@[i].size <= self.heap_end
                &&& self.free@[i].size >= MIN_BLOCK
            } by {
                if i > 0 {
                    assert(self.free@[i] == old(self).free@[i - 1]);
                }
            }
        }
        true
    }

    /// Allocate `size` bytes aligned to `align`: the first free block large enough is
    /// split (or taken whole when the rest could not be a block); the heap grows when
    /// none is. Gives the address after the block's size header, or 0 when the heap
    /// cannot grow.
    pub fn allocate(&mut self, size: u64, align: u64, vmm: &mut Vmm, mem: &mut PhysMem, pmm: &mut Pmm) -> (r: u64)
        requires
            old(self).wf(),
            size as int + align as int + 0x2000 <= u64::MAX,
            old(mem).wf(),
            old(pmm).wf(),
            pmm_in_mem(*old(pmm), old(mem).words@),
        ensures
            *final(vmm) == *old(vmm),
            final(mem).wf(),
            final(pmm).wf(),
            pmm_in_mem(*final(pmm), final(mem).words@),
            final(self).wf(),
            ({
                let total = request_size(size as int, align as int);
                match first_fit(old(self).free@, total) {
                    Some(i) => {
                        let b = old(self).free@[i];
                        &&& r == b.addr + HEADER_SIZE
                        &&& final(self).free@ == take_from(old(self).free@, i, total)
                        &&& final(self).headers@ == old(self).headers@.push((b.addr, taken_size(b, total)))
                        &&& final(self).allocated_bytes == old(self).allocated_bytes.wrapping_add(total as u64)
                        &&& final(self).heap_end == old(self).heap_end
                    },
                    None => {
                        &&& old(self).heap_end + growth(total) > old(self).heap_max ==> r == 0 && final(self).free@ == old(self).free@
                        &&& r == 0 ==> final(self).headers@ == old(self).headers@ && final(self).allocated_bytes == old(self).allocated_bytes
                        &&& r != 0 ==> {
                            let b = FreeBlock { addr: old(self).heap_end, size: growth(total) as u64 };
                            &&& r == old(self).heap_end + HEADER_SIZE
                            &&& final(self).heap_end == old(self).heap_end + growth(total)
                            &&& final(self).free@ == take_from(seq![b] + old(self).free@, 0, total)
                            &&& final(self).headers@ == old(self).headers@.push((b.addr, taken_size(b, total)))
                            &&& final(self).allocated_bytes == old(self).allocated_bytes.wrapping_add(total as u64)
                        }
                    },
                }
            }),
    {
        let a = if align < 8 { 8 } else { align };
        let x = HEADER_SIZE + size + a - 1;
        let q = x / a;
        proof {
            assert(q * a <= x) by (nonlinear_arith)
                requires
                    q == x / a,
                    a > 0,
            ;
        }
        let t = q * a;
        let total = if t < MIN_BLOCK { MIN_BLOCK } else { t };
        proof {
            assert(total as int == request_size(size as int, align as int));
            assert(total as int + 4095 <= u64::MAX);
            lemma_first_fit_bound(self.free@, total as int);
        }
        let n = self.free.len();
        let mut i: usize = 0;
        while i < n
            invariant
                i <= n,
                n == self.free@.len(),
                *self == *old(self),
                old(self).wf(),
                total >= MIN_BLOCK,
                total as int == request_size(size as int, align as int),
                first_fit(self.free@.take(i as int), total as int) is None,
                *mem == *old(mem),
                *pmm == *old(pmm),
                mem.wf(),
                pmm.wf(),
                pmm_in_mem(*pmm, mem.words@),
                *vmm == *old(vmm),
            decreases n - i,
        {
            proof {
                assert(self.free@.take(i + 1).drop_last() =~= self.free@.take(i as int));
            }
            if self.free[i].size >= total {
                proof {
                    assert(self.free@.take(i + 1).last() == self.free@[i as int]);
                    assert(first_fit(self.free@.take(i + 1), total as int) == Some(i as int));
                    lemma_first_fit_prefix(self.free@, i as int + 1, total as int);
                }
                let r = self.take_block(i, total);
                assert(first_fit(old(self).free@, request_size(size as int, align as int)) == Some(i as int));
                assert(self.allocated_bytes == old(self).allocated_bytes.wrapping_add(total));
                assert(self.free@ == take_from(old(self).free@, i as int, request_size(size as int, align as int)));
                return r;
            }
            i = i + 1;
        }
        proof {
            assert(self.free@.take(n as int) =~= self.free@);
        }
        if !self.grow(total, vmm, mem, pmm) {
            return 0;
        }
        self.take_block(0, total)
    }

    fn take_block(&mut self, i: usize, total: u64) -> (r: u64)
        requires
            old(self).wf(),
            i < old(self).free@.len(),
            old(self).free@[i as int].size >= total,
            total >= MIN_BLOCK,
        ensures
            final(self).wf(),
            r == old(self).free@[i as int].addr + HEADER_SIZE,
            final(self).free@ == take_from(old(self).free@, i as int, total as int),
            final(self).headers@ == old(self).headers@.push((old(self).free@[i as int].addr, taken_size(old(self).free@[i as int], total as int))),
            final(self).allocated_bytes == old(self).allocated_bytes.wrapping_add(total),
            final(self).heap_end == old(self).heap_end,
            final(self).heap_start == old(self).heap_start,
            final(self).heap_max == old(self).heap_max,
    {
        let b = self.free[i];
        let remainder = b.size - total;
        if remainder >= MIN_BLOCK {
            self.free.set(i, FreeBlock { addr: b.addr + total, size: remainder });
            self.headers.push((b.addr, total));
        } else {
            self.free.remove(i);
            self.headers.push((b.addr, b.size));
            proof {
                assert forall|j: int| 0 <= j < self.free@.len() implies {
                    &&& (#[trigger] self.free@[j]).addr as int + self.free@[j].size <= self.heap_end
                    &&& self.free@[j].size >= MIN_BLOCK
                } by {
                    if j < i {
                        assert(self.free@[j] == old(self).free@[j]);
                    } else {
                        assert(self.free@[j] == old(self).free@[j + 1]);
                    }
                }
            }
        }
        self.allocated_bytes = self.allocated_bytes.wrapping_add(total);
        b.addr + HEADER_SIZE
    }

    /// Give back the allocation at `ptr`: its block, with the size from its header, goes
    /// to the head of the free list. A null pointer does nothing.
    pub fn dealloc(&mut self, ptr: u64)
        requires
            old(self).wf(),
            ptr != 0 ==> exists|k: int| 0 <= k < old(self).headers@.len() && #[trigger] old(self).headers@[k].0 == ptr - HEADER_SIZE,
            forall|k: int| 0 <= k < old(self).headers@.len() ==> {
                &&& (#[trigger] old(self).headers@[k]).0 as int + old(self).headers@[k].1 <= old(self).heap_end
                &&& old(self).headers@[k].1 >= MIN_BLOCK
            },
        ensures
            final(self).wf(),
            ptr == 0 ==> *final(self) == *old(self),
            ptr != 0 ==> exists|k: int| {
                &&& 0 <= k < old(self).headers@.len()
                &&& #[trigger] old(self).headers@[k].0 == ptr - HEADER_SIZE
                &&& final(self).free@ == seq![FreeBlock { addr: (ptr - HEADER_SIZE) as u64, size: old(self).headers@[k].1 }] + old(self).free@
                &&& final(self).headers@ == old(self).headers@.remove(k)
                &&& final(self).allocated_bytes == old(self).allocated_bytes.saturating_sub(old(self).headers@[k].1)
                &&& final(self).heap_end == old(self).heap_end
            },
    {
        if ptr == 0 {
            return;
        }
        let block = ptr - HEADER_SIZE;
        let n = self.headers.len();
        let mut k: usize = 0;
        while k < n
            invariant
                k <= n,
                n == self.headers@.len(),
                *self == *old(self),
                old(self).wf(),
                ptr != 0,
                block == ptr - HEADER_SIZE,
                exists|j: int| k <= j < n && #[trigger] self.headers@[j].0 == block,
                forall|j: int| 0 <= j < old(self).headers@.len() ==> {
                    &&& (#[trigger] old(self).headers@[j]).0 as int + old(self).headers@[j].1 <= old(self).heap_end
                    &&& old(self).headers@[j].1 >= MIN_BLOCK
                },
            decreases n - k,
        {
            if self.headers[k].0 == block {
                let size = self.headers[k].1;
                assert(old(self).headers@[k as int].0 as int + size <= old(self).heap_end);
                assert(old(self).headers@[k as int].0 == ptr - HEADER_SIZE);
                self.headers.remove(k);
                self.allocated_bytes = self.allocated_bytes.saturating_sub(size);
                self.free.insert(0, FreeBlock { addr: block, size });
                proof {
                    assert(self.free@ =~= seq![FreeBlock { addr: block, size }] + old(self).free@);

                    assert forall|j: int| 0 <= j < self.free@.len() implies {
                        &&& (#[trigger] self.free@[j]).addr as int + self.free@[j].size <= self.heap_end
                        &&& self.free@[j].size >= MIN_BLOCK
                    } by {
                        if j > 0 {
                            assert(self.free@[j] == old(self).free@[j - 1]);
                        }
                    }
                }
                return;
            }
            k = k + 1;
        }
    }

    /// Bytes currently handed out.
    pub fn allocated_bytes(&self) -> (r: u64)
        ensures
            r == self.allocated_bytes,
    {
        self.allocated_bytes
    }
}

proof fn lemma_first_fit_prefix(free: Seq<FreeBlock>, n: int, total: int)
    requires
        0 <= n <= free.len(),
        first_fit(free.take(n), total) is Some,
    ensures
        first_fit(free, total) == first_fit(free.take(n), total),
    decreases free.len() - n,
{
    if n < free.len() {
        assert(free.take(n + 1).drop_last() =~= free.take(n));
        lemma_first_fit_prefix(free, n + 1, total);
    } else {
        assert(free.take(n) =~= free);
    }
}

} // verus!
