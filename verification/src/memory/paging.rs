//! x86_64 page table entries and tables.
use vstd::prelude::*;
use crate::memory::addr::{PhysAddr, PhysFrame, VirtAddr, PHYS_ADDR_LIMIT, PAGE_SIZE, canonicalize_spec};
use crate::memory::pmm::{Pmm, Zone};

verus! {

/// Page table entry flag bits.
pub const FLAG_PRESENT: u64 = 1;
pub const FLAG_WRITABLE: u64 = 2;
pub const FLAG_USER: u64 = 4;
pub const FLAG_WRITE_THROUGH: u64 = 8;
pub const FLAG_NO_CACHE: u64 = 16;
pub const FLAG_ACCESSED: u64 = 32;
pub const FLAG_DIRTY: u64 = 64;
pub const FLAG_HUGE_PAGE: u64 = 128;
pub const FLAG_GLOBAL: u64 = 256;
pub const FLAG_NO_EXECUTE: u64 = 0x8000_0000_0000_0000;

/// All defined flag bits.
pub const FLAGS_ALL: u64 = 0x8000_0000_0000_01FF;

/// Bits 12..52 of an entry: the physical frame address.
pub const ADDR_MASK: u64 = 0x000F_FFFF_FFFF_F000;

/// x86_64 page table entry flags: a set of the defined flag bits.
#[derive(Debug, Clone, Copy, PartialEq, Eq, Structural)]
pub struct PageFlags {
    pub bits: u64,
}

impl PageFlags {
    pub open spec fn spec_bits(self) -> u64 {
        self.bits
    }

    /// The flags of `bits`, with undefined bits dropped.
    pub fn from_bits_truncate(bits: u64) -> (f: Self)
        ensures
            f.spec_bits() == bits & FLAGS_ALL,
    {
        PageFlags { bits: bits & FLAGS_ALL }
    }

    pub fn bits(&self) -> (r: u64)
        ensures
            r == self.spec_bits(),
    {
        self.bits
    }

    /// Both sets of flags together.
    pub fn union(self, other: Self) -> (f: Self)
        ensures
            f.spec_bits() == self.spec_bits() | other.spec_bits(),
    {
        PageFlags { bits: self.bits | other.bits }
    }

    /// Whether every flag of `other` is set here.
    pub fn contains(&self, other: Self) -> (r: bool)
        ensures
            r == (self.spec_bits() & other.spec_bits() == other.spec_bits()),
    {
        self.bits & other.bits == other.bits
    }
}

/// A single page table entry (PTE).
#[derive(Debug, Clone, Copy, PartialEq, Eq, Structural)]
pub struct PageTableEntry(pub u64);

impl PageTableEntry {
    pub fn empty() -> (e: Self)
        ensures
            e.0 == 0,
    {
        PageTableEntry(0)
    }

    pub fn is_present(&self) -> (r: bool)
        ensures
            r == (self.0 & FLAG_PRESENT != 0),
    {
        self.0 & FLAG_PRESENT != 0
    }

    /// The defined flag bits of the entry.
    pub fn flags(&self) -> (f: PageFlags)
        ensures
            f.spec_bits() == self.0 & FLAGS_ALL,
    {
        PageFlags::from_bits_truncate(self.0)
    }

    /// The mapped frame, if the entry is present.
    pub fn frame(&self) -> (r: Option<PhysFrame>)
        ensures
            self.0 & FLAG_PRESENT != 0 ==> r == Some(PhysFrame(((self.0 & ADDR_MASK) / PAGE_SIZE) as u64)),
            self.0 & FLAG_PRESENT == 0 ==> r is None,
    {
        if self.is_present() {
            let raw = self.0;
            let a = raw & ADDR_MASK;
            assert(a < PHYS_ADDR_LIMIT) by (bit_vector)
                requires
                    a == raw & 0x000F_FFFF_FFFF_F000u64,
            ;
            Some(PhysFrame::containing_address(PhysAddr::new(a)))
        } else {
            None
        }
    }

    /// Point the entry at `frame` with the given flags.
    pub fn set(&mut self, frame: PhysFrame, flags: PageFlags)
        ensures
            final(self).0 == (frame.0 << 12u64) | flags.spec_bits(),
    {
        self.0 = frame.start_address().as_u64() | flags.bits();
    }

    pub fn clear(&mut self)
        ensures
            final(self).0 == 0,
    {
        self.0 = 0;
    }

    pub fn raw(&self) -> (r: u64)
        ensures
            r == self.0,
    {
        self.0
    }

    pub fn set_raw(&mut self, raw: u64)
        ensures
            final(self).0 == raw,
    {
        self.0 = raw;
    }

    /// Get the physical frame address (bits 12-51).
    pub fn frame_address(&self) -> (r: u64)
        ensures
            r == self.0 & ADDR_MASK,
    {
        self.0 & ADDR_MASK
    }

    /// Create a new entry from a physical address and raw flags: address bits 12..52
    /// and flag bits 0..12.
    pub fn new(phys_addr: u64, flags: u64) -> (e: Self)
        ensures
            e.0 == (phys_addr & ADDR_MASK) | (flags & 0xFFF),
    {
        PageTableEntry((phys_addr & ADDR_MASK) | (flags & 0xFFF))
    }
}

/// An entry set to a frame below 2^40 with defined flags gives that frame back, and
/// is present exactly when the flags hold PRESENT.
pub proof fn lemma_set_then_frame(n: u64, flags: u64)
    requires
        n < 0x100_0000_0000,
        flags & !FLAGS_ALL == 0,
    ensures
        ((n << 12u64) | flags) & ADDR_MASK == n * 4096,
        (((n << 12u64) | flags) & FLAG_PRESENT != 0) == (flags & FLAG_PRESENT != 0),
        (((n << 12u64) | flags) & ADDR_MASK) / 4096 == n,
{
    assert(((n << 12u64) | flags) & 0x000F_FFFF_FFFF_F000u64 == n * 4096) by (bit_vector)
        requires
            n < 0x100_0000_0000u64,
            flags & !0x8000_0000_0000_01FFu64 == 0,
    ;
    assert((((n << 12u64) | flags) & 1u64 != 0) == (flags & 1u64 != 0)) by (bit_vector)
        requires
            n < 0x100_0000_0000u64,
    ;
}

/// Number of entries in a page table.
pub const ENTRIES_PER_TABLE: usize = 512;

/// A page table: 512 entries.
pub struct PageTable {
    pub entries: Vec<PageTableEntry>,
}

impl PageTable {
    /// A table of 512 empty entries.
    pub fn empty() -> (t: Self)
        ensures
            t.entries@.len() == ENTRIES_PER_TABLE,
            forall|i: int| 0 <= i < ENTRIES_PER_TABLE ==> #[trigger] t.entries@[i].0 == 0,
    {
        let mut entries: Vec<PageTableEntry> = Vec::new();
        while entries.len() < ENTRIES_PER_TABLE
            invariant
                entries@.len() <= ENTRIES_PER_TABLE,
                forall|i: int| 0 <= i < entries@.len() ==> #[trigger] entries@[i].0 == 0,
            decreases ENTRIES_PER_TABLE - entries@.len(),
        {
            entries.push(PageTableEntry::empty());
        }
        PageTable { entries }
    }

    /// Zero out all entries.
    pub fn zero(&mut self)
        ensures
            final(self).entries@.len() == old(self).entries@.len(),
            forall|i: int| 0 <= i < final(self).entries@.len() ==> #[trigger] final(self).entries@[i].0 == 0,
    {
        let n = self.entries.len();
        let mut i: usize = 0;
        while i < n
            invariant
                n == self.entries@.len(),
                i <= n,
                forall|j: int| 0 <= j < i ==> #[trigger] self.entries@[j].0 == 0,
            decreases n - i,
        {
            self.entries.set(i, PageTableEntry::empty());
            i += 1;
        }
    }
}


/// Errors of the page mapper.
#[derive(Debug, Clone, Copy, PartialEq, Eq, Structural)]
pub enum MapError {
    AlreadyMapped,
    NotMapped,
    OutOfMemory,
}

/// Upper bound on the number of physical frames: addresses stay below 2^52.
pub const MAX_MEM_FRAMES: u64 = 0x100_0000_0000;

/// Entry flags of an intermediate table created by the mapper.
pub const TABLE_FLAGS: u64 = 7;

/// Physical memory as reached through the direct map, as 64-bit words: word
/// `f * 512 + i` is entry `i` of the table held in frame `f`.
pub struct PhysMem {
    pub words: Vec<u64>,
}

/// Frame `f` lies inside memory `mem`.
pub open spec fn has_frame(mem: Seq<u64>, f: int) -> bool {
    0 <= f && (f + 1) * 512 <= mem.len()
}

/// Entry `i` of the table in frame `f`.
pub open spec fn entry_of(mem: Seq<u64>, f: int, i: int) -> u64 {
    mem[f * 512 + i]
}

pub open spec fn pte_present(e: u64) -> bool {
    e & FLAG_PRESENT != 0
}

/// Frame number an entry points to.
pub open spec fn pte_frame(e: u64) -> int {
    ((e & ADDR_MASK) / PAGE_SIZE) as int
}

/// The table that entry `i` of table `f` leads to: present, and inside memory.
pub open spec fn next_table_spec(mem: Seq<u64>, f: int, i: int) -> Option<int> {
    let e = entry_of(mem, f, i);
    if pte_present(e) && has_frame(mem, pte_frame(e)) {
        Some(pte_frame(e))
    } else {
        None
    }
}

pub open spec fn idx4(v: u64) -> int {
    ((v / 0x80_0000_0000) % 512) as int
}

pub open spec fn idx3(v: u64) -> int {
    ((v / 0x4000_0000) % 512) as int
}

pub open spec fn idx2(v: u64) -> int {
    ((v / 0x20_0000) % 512) as int
}

pub open spec fn idx1(v: u64) -> int {
    ((v / 0x1000) % 512) as int
}

/// The level-3, level-2 and level-1 tables on the walk of `v` from the level-4 table in
/// frame `p4`, as far as the walk gets.
pub open spec fn walk3(mem: Seq<u64>, p4: int, v: u64) -> Option<int> {
    if has_frame(mem, p4) {
        next_table_spec(mem, p4, idx4(v))
    } else {
        None
    }
}

pub open spec fn walk2(mem: Seq<u64>, p4: int, v: u64) -> Option<int> {
    match walk3(mem, p4, v) {
        Some(f3) => next_table_spec(mem, f3, idx3(v)),
        None => None,
    }
}

pub open spec fn walk1(mem: Seq<u64>, p4: int, v: u64) -> Option<int> {
    match walk2(mem, p4, v) {
        Some(f2) => next_table_spec(mem, f2, idx2(v)),
        None => None,
    }
}

/// The physical address `v` is mapped to, if the walk reaches a present leaf entry.
pub open spec fn translate_spec(mem: Seq<u64>, p4: int, v: u64) -> Option<u64> {
    match walk1(mem, p4, v) {
        Some(f1) => {
            let e = entry_of(mem, f1, idx1(v));
            if pte_present(e) {
                Some((pte_frame(e) * PAGE_SIZE + v % PAGE_SIZE) as u64)
            } else {
                None
            }
        },
        None => None,
    }
}

/// `m2` equals `m1` outside the frames in `fs`.
pub open spec fn agree_outside(m1: Seq<u64>, m2: Seq<u64>, fs: Set<int>) -> bool {
    &&& m1.len() == m2.len()
    &&& forall|k: int| 0 <= k < m1.len() && !fs.contains(k / 512) ==> #[trigger] m2[k] == m1[k]
}

/// Frame `t` of `m` holds only zeros.
pub open spec fn frame_zeroed(m: Seq<u64>, t: int) -> bool {
    forall|j: int| 0 <= j < 512 ==> #[trigger] entry_of(m, t, j) == 0
}

impl PhysMem {
    /// Memory of `frames` zeroed frames.
    pub fn new(frames: usize) -> (m: Self)
        requires
            frames <= MAX_MEM_FRAMES,
            frames * 512 <= usize::MAX,
        ensures
            m.words@.len() == frames * 512,
            forall|k: int| 0 <= k < m.words@.len() ==> #[trigger] m.words@[k] == 0,
    {
        let n = frames * 512;
        let mut words: Vec<u64> = Vec::new();
        while words.len() < n
            invariant
                words@.len() <= n,
                forall|k: int| 0 <= k < words@.len() ==> #[trigger] words@[k] == 0,
            decreases n - words@.len(),
        {
            words.push(0);
        }
        PhysMem { words }
    }

    pub open spec fn wf(self) -> bool {
        self.words@.len() <= MAX_MEM_FRAMES * 512
    }

    /// Whether frame `f` is inside memory.
    pub fn has(&self, f: u64) -> (r: bool)
        ensures
            r == has_frame(self.words@, f as int),
    {
        let nframes = (self.words.len() / 512) as u64;
        f < nframes
    }

    fn word_index(&self, f: u64, idx: usize) -> (k: usize)
        requires
            has_frame(self.words@, f as int),
            idx < 512,
        ensures
            k == f * 512 + idx,
            k < self.words@.len(),
    {
        let len = self.words.len();
        assert(f * 512 + idx < len) by (nonlinear_arith)
            requires
                (f + 1) * 512 <= len,
                idx < 512,
        ;
        let fu = f as usize;
        fu * 512 + idx
    }

    /// Entry `idx` of the table in frame `f`, if the frame is inside memory.
    pub fn read_entry(&self, f: u64, idx: usize) -> (r: Option<u64>)
        requires
            idx < 512,
        ensures
            r == if has_frame(self.words@, f as int) {
                Some(entry_of(self.words@, f as int, idx as int))
            } else {
                None::<u64>
            },
    {
        if self.has(f) {
            Some(self.words[self.word_index(f, idx)])
        } else {
            None
        }
    }

    pub fn write_entry(&mut self, f: u64, idx: usize, val: u64)
        requires
            has_frame(old(self).words@, f as int),
            idx < 512,
        ensures
            final(self).words@ == old(self).words@.update(f * 512 + idx, val),
    {
        let k = self.word_index(f, idx);
        self.words.set(k, val);
    }

    /// Write byte `b` at physical address `a`; nothing happens past the end of memory.
    pub fn write_byte(&mut self, a: u64, b: u8)
        ensures
            final(self).words@ == write_byte_spec(old(self).words@, a, b),
    {
        let k = a / 8;
        if k < self.words.len() as u64 {
            let shift = 8 * (a % 8);
            let w = self.words[k as usize];
            self.words.set(k as usize, (w & !(0xFFu64 << shift)) | ((b as u64) << shift));
        }
    }

    pub fn zero_frame(&mut self, f: u64)
        requires
            has_frame(old(self).words@, f as int),
        ensures
            agree_outside(old(self).words@, final(self).words@, set![f as int]),
            frame_zeroed(final(self).words@, f as int),
    {
        let base = self.word_index(f, 0);
        let mut j: usize = 0;
        while j < 512
            invariant
                base == f * 512,
                has_frame(old(self).words@, f as int),
                j <= 512,
                agree_outside(old(self).words@, self.words@, set![f as int]),
                forall|k: int| 0 <= k < j ==> #[trigger] entry_of(self.words@, f as int, k) == 0,
            decreases 512 - j,
        {
            let ghost before = self.words@;
            self.words.set(base + j, 0);
            proof {
                assert forall|k: int| 0 <= k < j + 1 implies #[trigger] entry_of(self.words@, f as int, k) == 0 by {
                    if k < j {
                        assert(entry_of(before, f as int, k) == 0);
                        assert(self.words@[f * 512 + k] == before[f * 512 + k]);
                    } else {
                        assert(self.words@[f * 512 + k] == 0);
                    }
                }
                assert forall|k: int| 0 <= k < self.words@.len() && !set![f as int].contains(k / 512)
                    implies #[trigger] self.words@[k] == old(self).words@[k] by {
                    assert(k != base + j);
                }
            }
            j = j + 1;
        }
    }
}

/// Byte `a` of physical memory: byte `a % 8` (little-endian) of word `a / 8`.
pub open spec fn mem_byte(words: Seq<u64>, a: int) -> u8 {
    ((words[a / 8] >> (8 * (a % 8)) as u64) & 0xFF) as u8
}

/// Word `w` with its byte `k` (little-endian) replaced by `b`.
pub open spec fn with_byte(w: u64, k: u64, b: u8) -> u64 {
    (w & !(0xFFu64 << (8 * k))) | ((b as u64) << (8 * k))
}

/// Memory after byte `a` is written with `b`; a write past the end of memory
/// changes nothing.
pub open spec fn write_byte_spec(words: Seq<u64>, a: u64, b: u8) -> Seq<u64> {
    if (a / 8) < words.len() {
        words.update((a / 8) as int, with_byte(words[(a / 8) as int], a % 8, b))
    } else {
        words
    }
}

proof fn lemma_with_byte(w: u64, k: u64, b: u8, j: u64)
    by (bit_vector)
    requires
        k < 8,
        j < 8,
    ensures
        (with_byte(w, k, b) >> (8 * j)) & 0xFF == if j == k { b as u64 } else { (w >> (8 * j)) & 0xFF },
{
}

/// After a byte write inside memory, that byte reads back as written and every
/// other byte is unchanged; words other than the written one are untouched.
pub proof fn law_write_byte_read_back(words: Seq<u64>, a: u64, b: u8, c: int)
    requires
        (a / 8) < words.len(),
        0 <= c < words.len() * 8,
    ensures
        write_byte_spec(words, a, b).len() == words.len(),
        mem_byte(write_byte_spec(words, a, b), c) == if c == a { b } else { mem_byte(words, c) },
        forall|k: int| 0 <= k < words.len() && k != a / 8 ==> #[trigger] write_byte_spec(words, a, b)[k] == words[k],
{
    let w2 = write_byte_spec(words, a, b);
    let q = c / 8;
    let j = (c % 8) as u64;
    if q == a / 8 {
        lemma_with_byte(words[q], a % 8, b, j);
        if c != a {
            assert(j != a % 8);
        }
    }
}

/// Page mapper: creates and changes mappings in the tables rooted at a level-4 frame.
pub struct PageMapper {
    pub p4_frame: PhysFrame,
    pub hhdm_offset: u64,
}

impl PageMapper {
    /// A mapper for the given level-4 frame.
    pub fn new(p4_frame: PhysFrame, hhdm_offset: u64) -> (m: Self)
        ensures
            m.p4_frame == p4_frame,
            m.hhdm_offset == hhdm_offset,
    {
        PageMapper { p4_frame, hhdm_offset }
    }

    /// A mapper for the tables that a CR3 value names.
    pub fn current(hhdm_offset: u64, cr3: u64) -> (m: Self)
        ensures
            m.p4_frame.0 == (cr3 & ADDR_MASK) / PAGE_SIZE,
            m.hhdm_offset == hhdm_offset,
    {
        let p4_frame = PhysFrame::containing_address(PhysAddr::new_unchecked(cr3 & ADDR_MASK));
        Self::new(p4_frame, hhdm_offset)
    }

    /// The level-4 frame.
    pub fn p4_frame(&self) -> (f: PhysFrame)
        ensures
            f == self.p4_frame,
    {
        self.p4_frame
    }

    fn next_table(mem: &PhysMem, f: u64, idx: usize) -> (r: Option<u64>)
        requires
            has_frame(mem.words@, f as int),
            idx < 512,
        ensures
            match r {
                Some(t) => next_table_spec(mem.words@, f as int, idx as int) == Some(t as int),
                None => next_table_spec(mem.words@, f as int, idx as int) is None,
            },
    {
        let e = PageTableEntry(mem.read_entry(f, idx).unwrap());
        match e.frame() {
            None => None,
            Some(t) => {
                proof {
                    let raw = e.0;
                    lemma_pte_frame_bound(raw);
                }
                if mem.has(t.0) {
                    Some(t.0)
                } else {
                    None
                }
            },
        }
    }

    /// Translate a virtual address to the physical address it is mapped to.
    pub fn translate(&self, mem: &PhysMem, virt: VirtAddr) -> (r: Option<PhysAddr>)
        ensures
            match translate_spec(mem.words@, self.p4_frame.0 as int, virt.0) {
                Some(a) => r == Some(PhysAddr(a)),
                None => r is None,
            },
    {
        let p4 = self.p4_frame.0;
        if !mem.has(p4) {
            return None;
        }
        let f3 = match Self::next_table(mem, p4, virt.p4_index()) {
            Some(t) => t,
            None => return None,
        };
        let f2 = match Self::next_table(mem, f3, virt.p3_index()) {
            Some(t) => t,
            None => return None,
        };
        let f1 = match Self::next_table(mem, f2, virt.p2_index()) {
            Some(t) => t,
            None => return None,
        };
        let e = PageTableEntry(mem.read_entry(f1, virt.p1_index()).unwrap());
        proof {
            let raw = e.0;
            lemma_pte_frame_bound(raw);
        }
        match e.frame() {
            Some(frame) => {
                let start = frame.start_address().as_u64();
                Some(PhysAddr(start + virt.page_offset()))
            },
            None => None,
        }
    }

    /// Map the page of `virt` to `frame`, creating missing intermediate tables from
    /// frames of `pmm`. The leaf entry gets `flags` and PRESENT.
    pub fn map(&mut self, mem: &mut PhysMem, pmm: &mut Pmm, virt: VirtAddr, frame: PhysFrame, flags: PageFlags) -> (r: Result<(), MapError>)
        requires
            old(mem).wf(),
            old(pmm).wf(),
            pmm_in_mem(*old(pmm), old(mem).words@),
        ensures
            *final(self) == *old(self),
            final(mem).wf(),
            final(mem).words@.len() == old(mem).words@.len(),
            final(pmm).wf(),
            pmm_in_mem(*final(pmm), final(mem).words@),
            pmm_shrunk(*old(pmm), *final(pmm)),
            !has_frame(old(mem).words@, old(self).p4_frame.0 as int) ==> r == Err::<(), MapError>(MapError::NotMapped)
                && final(mem).words@ == old(mem).words@,
            r == Err::<(), MapError>(MapError::OutOfMemory) ==> final(pmm).serving_zone(Zone::Normal) is None,
            // a successful mapping is what a later walk finds, in a state whose walk
            // tables are distinct and not on the free stacks
            r is Ok && path_distinct(old(mem).words@, old(self).p4_frame.0 as int, virt.0)
                && free_off_path(*old(pmm), old(mem).words@, old(self).p4_frame.0 as int, virt.0)
                && pmm_unique(*old(pmm))
                && frame.0 < MAX_MEM_FRAMES
                && flags.bits & !FLAGS_ALL == 0
                ==> translate_spec(final(mem).words@, old(self).p4_frame.0 as int, virt.0)
                    == Some((frame.0 * PAGE_SIZE + virt.0 % PAGE_SIZE) as u64),
            // a page that is mapped already is refused, and nothing changes
            has_frame(old(mem).words@, old(self).p4_frame.0 as int)
                && translate_spec(old(mem).words@, old(self).p4_frame.0 as int, virt.0) is Some
                ==> r == Err::<(), MapError>(MapError::AlreadyMapped) && final(mem).words@ == old(mem).words@,
            // it keeps every translation whose walk runs through tables off the free
            // stacks
            r is Ok ==> forall|w: u64| free_off_path(*old(pmm), old(mem).words@, old(self).p4_frame.0 as int, w)
                && #[trigger] translate_spec(old(mem).words@, old(self).p4_frame.0 as int, w) is Some
                ==> translate_spec(final(mem).words@, old(self).p4_frame.0 as int, w)
                    == translate_spec(old(mem).words@, old(self).p4_frame.0 as int, w),
            // where the page's tables all exist, only its leaf entry, absent before, is
            // written and no frame is taken
            r is Ok && walk1(old(mem).words@, old(self).p4_frame.0 as int, virt.0) is Some ==> {
                let w = walk1(old(mem).words@, old(self).p4_frame.0 as int, virt.0)->0 * 512 + idx1(virt.0);
                &&& final(pmm).same_as(*old(pmm))
                &&& !pte_present(old(mem).words@[w])
                &&& forall|k: int| 0 <= k < old(mem).words@.len() && k != w ==> #[trigger] final(mem).words@[k] == old(mem).words@[k]
            },
            // where the page's tables all exist, a failure is a page mapped already, and
            // nothing changes
            r is Err && walk1(old(mem).words@, old(self).p4_frame.0 as int, virt.0) is Some
                ==> r == Err::<(), MapError>(MapError::AlreadyMapped) && final(mem).words@ == old(mem).words@
                    && final(pmm).same_as(*old(pmm)),
            // an unmapped page is mapped when the level-4 table is there, every present
            // entry of the walk leads into memory, and three frames are free for the
            // tables that may be missing
            has_frame(old(mem).words@, old(self).p4_frame.0 as int)
                && translate_spec(old(mem).words@, old(self).p4_frame.0 as int, virt.0) is None
                && walk_sound(old(mem).words@, old(self).p4_frame.0 as int, virt.0)
                && old(pmm).free_frames >= 3
                && path_distinct(old(mem).words@, old(self).p4_frame.0 as int, virt.0)
                && free_off_path(*old(pmm), old(mem).words@, old(self).p4_frame.0 as int, virt.0)
                && pmm_unique(*old(pmm))
                ==> r is Ok,
    {
        let p4 = self.p4_frame.0;
        if !mem.has(p4) {
            return Err(MapError::NotMapped);
        }
        let ghost m0 = mem.words@;
        let ghost pm0 = *pmm;
        let ghost v = virt.0;
        let ghost hyp = translate_spec(m0, p4 as int, v) is None && walk_sound(m0, p4 as int, v)
            && pm0.free_frames >= 3 && path_distinct(m0, p4 as int, v) && free_off_path(pm0, m0, p4 as int, v)
            && pmm_unique(pm0);
        proof {
            lemma_zero_not_present();
            if hyp {
                lemma_free_serves(pm0);
            }
        }
        let g3 = match Self::next_table_create(mem, pmm, p4, virt.p4_index()) {
            Ok(t) => t,
            Err(e) => {
                proof {
                    if walk1(m0, p4 as int, v) is Some {
                        assert(walk3(m0, p4 as int, v) is Some);
                    }
                }
                return Err(e);
            },
        };
        let ghost m1 = mem.words@;
        let ghost pm1 = *pmm;
        assert(step_ok(m0, m1, pm0, pm1, p4 as int, idx4(virt.0), g3 as int));
        // the walk so far: either the old one, or from a fresh zeroed table on
        let ghost old1 = pte_present(entry_of(m0, p4 as int, idx4(v)));
        proof {
            if hyp {
                lemma_free_serves(pm1);
                if old1 {
                    assert(walk3(m0, p4 as int, v) == Some(g3 as int));
                } else {
                    assert(is_free_frame(pm0, g3 as int));
                    assert(g3 != p4);
                    assert(entry_of(m1, g3 as int, idx3(v)) == 0);
                }
            }
        }
        let g2 = match Self::next_table_create(mem, pmm, g3, virt.p3_index()) {
            Ok(t) => t,
            Err(e) => {
                proof {
                    if walk1(m0, p4 as int, v) is Some {
                        assert(walk3(m0, p4 as int, v) == Some(g3 as int));
                        assert(m1 == m0);
                        assert(walk2(m0, p4 as int, v) is Some);
                    }
                }
                return Err(e);
            },
        };
        let ghost m2 = mem.words@;
        let ghost pm2 = *pmm;
        assert(step_ok(m1, m2, pm1, pm2, g3 as int, idx3(virt.0), g2 as int));
        let ghost old2 = old1 && pte_present(entry_of(m1, g3 as int, idx3(v)));
        proof {
            if hyp {
                lemma_free_serves(pm2);
                if old2 {
                    assert(walk2(m0, p4 as int, v) == Some(g2 as int));
                } else {
                    assert(!pte_present(entry_of(m1, g3 as int, idx3(v))));
                    assert(is_free_frame(pm1, g2 as int));
                    lemma_shrunk_free(pm0, pm1, g2 as int);
                    if old1 {
                        assert(g2 != g3);
                    } else {
                        assert(!is_free_frame(pm1, g3 as int));
                        assert(g2 != g3);
                    }
                    assert(entry_of(m2, g2 as int, idx2(v)) == 0);
                }
            }
        }
        let g1 = match Self::next_table_create(mem, pmm, g2, virt.p2_index()) {
            Ok(t) => t,
            Err(e) => {
                proof {
                    if walk1(m0, p4 as int, v) is Some {
                        assert(walk3(m0, p4 as int, v) == Some(g3 as int));
                        assert(m1 == m0);
                        assert(walk2(m0, p4 as int, v) == Some(g2 as int));
                        assert(m2 == m1);
                    }
                }
                return Err(e);
            },
        };
        let ghost m3 = mem.words@;
        let ghost pm3 = *pmm;
        assert(step_ok(m2, m3, pm2, pm3, g2 as int, idx2(virt.0), g1 as int));
        proof {
            if hyp {
                if old2 && pte_present(entry_of(m2, g2 as int, idx2(v))) {
                    assert(walk1(m0, p4 as int, v) == Some(g1 as int));
                    assert(m3 == m0);
                } else {
                    assert(!pte_present(entry_of(m2, g2 as int, idx2(v))));
                    assert(is_free_frame(pm2, g1 as int));
                    lemma_shrunk_free(pm1, pm2, g1 as int);
                    lemma_shrunk_free(pm0, pm1, g1 as int);
                    if old2 {
                        assert(g1 != g2);
                    } else {
                        assert(!is_free_frame(pm2, g2 as int));
                        assert(g1 != g2);
                    }
                    assert(entry_of(m3, g1 as int, idx1(v)) == 0);
                }
            }
        }
        let i1 = virt.p1_index();
        let mut entry = PageTableEntry(mem.read_entry(g1, i1).unwrap());
        if entry.is_present() {
            proof {
                if walk1(m0, p4 as int, v) is Some {
                    assert(walk3(m0, p4 as int, v) == Some(g3 as int));
                    assert(m1 == m0);
                    assert(walk2(m0, p4 as int, v) == Some(g2 as int));
                    assert(m2 == m1);
                    assert(m3 == m2);
                }
            }
            return Err(MapError::AlreadyMapped);
        }
        let ghost leaf_before = entry.0;
        entry.set(frame, flags.union(PageFlags::from_bits_truncate(FLAG_PRESENT)));
        mem.write_entry(g1, i1, entry.0);
        proof {
            let val = entry.0;
            assert(!pte_present(entry_of(m3, g1 as int, idx1(v)))) by {
                assert(leaf_before == entry_of(m3, g1 as int, i1 as int));
            }
            assert forall|w: u64| free_off_path(pm0, m0, p4 as int, w) && #[trigger] translate_spec(m0, p4 as int, w) is Some
                implies translate_spec(mem.words@, p4 as int, w) == translate_spec(m0, p4 as int, w) by {
                lemma_map_keeps(m0, m1, m2, m3, mem.words@, pm0, pm1, pm2, pm3, p4 as int, v, g3 as int, g2 as int, g1 as int, val, w);
            }
            if walk1(m0, p4 as int, v) is Some {
                assert(m1 == m0);
                assert(m2 == m1);
                assert(m3 == m2);
                assert(g1 as int == walk1(m0, p4 as int, v)->0);
            }
            let n = frame.0;
            let fl = flags.bits;
            if path_distinct(m0, p4 as int, virt.0) && free_off_path(pm0, m0, p4 as int, virt.0)
                && pmm_unique(pm0) && n < MAX_MEM_FRAMES && fl & !FLAGS_ALL == 0 {
                lemma_map_walk(m0, m1, m2, m3, mem.words@, pm0, pm1, pm2, pm3, p4 as int, virt.0, g3 as int, g2 as int, g1 as int, val);
                assert((fl | (1u64 & 0x8000_0000_0000_01FFu64)) & !0x8000_0000_0000_01FFu64 == 0) by (bit_vector)
                    requires
                        fl & !0x8000_0000_0000_01FFu64 == 0,
                ;
                assert(((fl | (1u64 & 0x8000_0000_0000_01FFu64)) & 1u64) != 0) by (bit_vector);
                lemma_set_then_frame(n, fl | (1u64 & 0x8000_0000_0000_01FFu64));
                assert(pte_present(val));
                assert(pte_frame(val) == n as int);
            }
        }
        Ok(())
    }

    /// Remove the mapping of the page of `virt`; gives back the frame it was mapped to.
    pub fn unmap(&mut self, mem: &mut PhysMem, virt: VirtAddr) -> (r: Result<PhysFrame, MapError>)
        requires
            old(mem).wf(),
        ensures
            *final(self) == *old(self),
            final(mem).wf(),
            match translate_spec(old(mem).words@, old(self).p4_frame.0 as int, virt.0) {
                None => r == Err::<PhysFrame, MapError>(MapError::NotMapped) && final(mem).words@ == old(mem).words@,
                Some(a) => {
                    let f1 = walk1(old(mem).words@, old(self).p4_frame.0 as int, virt.0)->0;
                    &&& r == Ok::<PhysFrame, MapError>(PhysFrame((a / PAGE_SIZE) as u64))
                    &&& final(mem).words@ == old(mem).words@.update(f1 * 512 + idx1(virt.0), 0)
                    // once removed, a walk through distinct tables finds nothing
                    &&& path_distinct(old(mem).words@, old(self).p4_frame.0 as int, virt.0)
                        ==> translate_spec(final(mem).words@, old(self).p4_frame.0 as int, virt.0) is None
                },
            },
    {
        let p4 = self.p4_frame.0;
        if !mem.has(p4) {
            return Err(MapError::NotMapped);
        }
        let f3 = match Self::next_table(mem, p4, virt.p4_index()) {
            Some(t) => t,
            None => return Err(MapError::NotMapped),
        };
        let f2 = match Self::next_table(mem, f3, virt.p3_index()) {
            Some(t) => t,
            None => return Err(MapError::NotMapped),
        };
        let f1 = match Self::next_table(mem, f2, virt.p2_index()) {
            Some(t) => t,
            None => return Err(MapError::NotMapped),
        };
        let i1 = virt.p1_index();
        let mut entry = PageTableEntry(mem.read_entry(f1, i1).unwrap());
        proof {
            let raw = entry.0;
            lemma_pte_frame_bound(raw);
            assert((((raw & 0x000F_FFFF_FFFF_F000u64) / 4096) * 4096 + virt.0 % 4096) / 4096
                == (raw & 0x000F_FFFF_FFFF_F000u64) / 4096) by (nonlinear_arith);
        }
        let frame = match entry.frame() {
            Some(fr) => fr,
            None => return Err(MapError::NotMapped),
        };
        let ghost m0 = mem.words@;
        entry.clear();
        mem.write_entry(f1, i1, entry.0);
        proof {
            let v = virt.0;
            if path_distinct(m0, p4 as int, v) {
                let m1 = mem.words@;
                assert(agree_outside(m0, m1, set![f1 as int])) by {
                    assert forall|k: int| 0 <= k < m0.len() && !set![f1 as int].contains(k / 512) implies #[trigger] m1[k] == m0[k] by {
                        lemma_word_frame(f1 as int, i1 as int);
                    }
                }
                lemma_agree_entry(m0, m1, set![f1 as int], p4 as int, idx4(v));
                lemma_agree_entry(m0, m1, set![f1 as int], f3 as int, idx3(v));
                lemma_agree_entry(m0, m1, set![f1 as int], f2 as int, idx2(v));
                assert(walk1(m1, p4 as int, v) == Some(f1 as int));
                assert(0u64 & 1u64 == 0) by (bit_vector);
            }
        }
        Ok(frame)
    }

    /// Map `page_count` consecutive pages from `virt_start` to consecutive frames from
    /// `phys_start`. On the first failure, the pages mapped so far are unmapped again
    /// and the failure is returned.
    #[verifier::rlimit(100)]
    #[verifier::spinoff_prover]
    pub fn map_range(
        &mut self,
        mem: &mut PhysMem,
        pmm: &mut Pmm,
        virt_start: VirtAddr,
        phys_start: PhysFrame,
        page_count: u64,
        flags: PageFlags,
    ) -> (r: Result<(), MapError>)
        requires
            old(mem).wf(),
            old(pmm).wf(),
            pmm_in_mem(*old(pmm), old(mem).words@),
            virt_start.0 + page_count * PAGE_SIZE <= u64::MAX,
            phys_start.0 < PHYS_ADDR_LIMIT / PAGE_SIZE,
            phys_start.0 * PAGE_SIZE + page_count * PAGE_SIZE <= PHYS_ADDR_LIMIT,
        ensures
            *final(self) == *old(self),
            final(mem).wf(),
            final(mem).words@.len() == old(mem).words@.len(),
            final(pmm).wf(),
            pmm_in_mem(*final(pmm), final(mem).words@),
            pmm_shrunk(*old(pmm), *final(pmm)),
            page_count == 0 ==> r is Ok && final(mem).words@ == old(mem).words@,
            page_count > 0 && !has_frame(old(mem).words@, old(self).p4_frame.0 as int)
                ==> r == Err::<(), MapError>(MapError::NotMapped) && final(mem).words@ == old(mem).words@,
            r == Err::<(), MapError>(MapError::OutOfMemory) ==> final(pmm).serving_zone(Zone::Normal) is None,
            // a single page is mapped as `map` maps it
            page_count == 1 && r is Ok && path_distinct(old(mem).words@, old(self).p4_frame.0 as int, canonicalize_spec(virt_start.0))
                && free_off_path(*old(pmm), old(mem).words@, old(self).p4_frame.0 as int, canonicalize_spec(virt_start.0))
                && pmm_unique(*old(pmm))
                && flags.bits & !FLAGS_ALL == 0
                ==> translate_spec(final(mem).words@, old(self).p4_frame.0 as int, canonicalize_spec(virt_start.0))
                    == Some((phys_start.0 * PAGE_SIZE + canonicalize_spec(virt_start.0) % PAGE_SIZE) as u64),
            // pages whose tables all exist, distinct and off the free stacks, are each
            // mapped to their frame
            r is Ok && range_ready(old(mem).words@, *old(pmm), old(self).p4_frame.0 as int, virt_start.0, page_count as int, flags.bits)
                ==> forall|k: int| 0 <= k < page_count ==> #[trigger] translate_spec(final(mem).words@, old(self).p4_frame.0 as int,
                    range_page(virt_start.0, k)) == Some(((phys_start.0 + k) * PAGE_SIZE + range_page(virt_start.0, k) % PAGE_SIZE) as u64),
            // on such pages a failure is rolled back: every page of the range translates
            // as it did
            r is Err && range_ready(old(mem).words@, *old(pmm), old(self).p4_frame.0 as int, virt_start.0, page_count as int, flags.bits)
                ==> forall|k: int| 0 <= k < page_count ==> #[trigger] translate_spec(final(mem).words@, old(self).p4_frame.0 as int,
                    range_page(virt_start.0, k)) == translate_spec(old(mem).words@, old(self).p4_frame.0 as int, range_page(virt_start.0, k)),
    {
        let mut i: u64 = 0;
        let start = phys_start.start_address().as_u64();
        while i < page_count
            invariant
                0 <= i <= page_count,
                *self == *old(self),
                mem.wf(),
                mem.words@.len() == old(mem).words@.len(),
                pmm.wf(),
                pmm_in_mem(*pmm, mem.words@),
                pmm_shrunk(*old(pmm), *pmm),
                virt_start.0 + page_count * PAGE_SIZE <= u64::MAX,
                start == phys_start.0 * PAGE_SIZE,
                start + page_count * PAGE_SIZE <= PHYS_ADDR_LIMIT,
                page_count == 0 ==> mem.words@ == old(mem).words@,
                i == 0 ==> mem.words@ == old(mem).words@ && *pmm == *old(pmm),
                i > 0 ==> has_frame(old(mem).words@, old(self).p4_frame.0 as int),
                page_count == 1 && i == 1 && path_distinct(old(mem).words@, old(self).p4_frame.0 as int, canonicalize_spec(virt_start.0))
                    && free_off_path(*old(pmm), old(mem).words@, old(self).p4_frame.0 as int, canonicalize_spec(virt_start.0))
                    && pmm_unique(*old(pmm))
                    && flags.bits & !FLAGS_ALL == 0
                    ==> translate_spec(mem.words@, old(self).p4_frame.0 as int, canonicalize_spec(virt_start.0))
                        == Some((phys_start.0 * PAGE_SIZE + canonicalize_spec(virt_start.0) % PAGE_SIZE) as u64),
            range_ready(old(mem).words@, *old(pmm), old(self).p4_frame.0 as int, virt_start.0, page_count as int, flags.bits) ==> {
                &&& pmm.same_as(*old(pmm))
                &&& forall|k: int| 0 <= k < page_count ==> {
                    &&& walk3(mem.words@, old(self).p4_frame.0 as int, #[trigger] range_page(virt_start.0, k))
                        == walk3(old(mem).words@, old(self).p4_frame.0 as int, range_page(virt_start.0, k))
                    &&& walk2(mem.words@, old(self).p4_frame.0 as int, range_page(virt_start.0, k))
                        == walk2(old(mem).words@, old(self).p4_frame.0 as int, range_page(virt_start.0, k))
                    &&& walk1(mem.words@, old(self).p4_frame.0 as int, range_page(virt_start.0, k))
                        == walk1(old(mem).words@, old(self).p4_frame.0 as int, range_page(virt_start.0, k))
                }
                &&& forall|k: int| 0 <= k < i ==> #[trigger] translate_spec(mem.words@, old(self).p4_frame.0 as int,
                    range_page(virt_start.0, k)) == Some(((phys_start.0 + k) * PAGE_SIZE + range_page(virt_start.0, k) % PAGE_SIZE) as u64)
                &&& forall|w: int| 0 <= w < old(mem).words@.len() && #[trigger] mem.words@[w] != old(mem).words@[w]
                    ==> !pte_present(old(mem).words@[w]) && among_leaf_words(old(mem).words@, old(self).p4_frame.0 as int, virt_start.0, 0, i as int, w)
                &&& forall|k: int| 0 <= k < i ==> !pte_present(old(mem).words@[#[trigger] leaf_word(old(mem).words@, old(self).p4_frame.0 as int, virt_start.0, k)])
                &&& forall|k1: int, k2: int| 0 <= k1 < i && 0 <= k2 < i && k1 != k2
                    ==> #[trigger] leaf_word(old(mem).words@, old(self).p4_frame.0 as int, virt_start.0, k1)
                        != #[trigger] leaf_word(old(mem).words@, old(self).p4_frame.0 as int, virt_start.0, k2)
            },
            decreases page_count - i,
        {
            proof {
                assert(i * PAGE_SIZE < page_count * PAGE_SIZE) by (nonlinear_arith)
                    requires
                        i < page_count,
                ;
            }
            let virt = VirtAddr::new_canonicalize(virt_start.as_u64() + i * PAGE_SIZE);
            let frame = PhysFrame::containing_address(PhysAddr::new(start + i * PAGE_SIZE));
            proof {
                if i == 0 {
                    assert(frame.0 == phys_start.0) by (nonlinear_arith)
                        requires
                            frame.0 == (start + i * 4096) / 4096,
                            start == phys_start.0 * 4096,
                            i == 0,
                    ;
                    assert(frame.0 < MAX_MEM_FRAMES);
                }
            }
            proof {
                assert(frame.0 == phys_start.0 + i) by (nonlinear_arith)
                    requires
                        frame.0 == (start + i * 4096) / 4096,
                        start == phys_start.0 * 4096,
                ;
                assert(phys_start.0 + i < MAX_MEM_FRAMES) by (nonlinear_arith)
                    requires
                        phys_start.0 * 4096 + page_count * 4096 <= 0x0010_0000_0000_0000,
                        i < page_count,
                ;
                assert(virt.0 == range_page(virt_start.0, i as int));
            }
            let ghost pm_before = *pmm;
            let ghost m_before = mem.words@;
            let res = self.map(mem, pmm, virt, frame, flags);
            proof {
                lemma_shrunk_trans(*old(pmm), pm_before, *pmm);
                let p4 = old(self).p4_frame.0 as int;
                let vs = virt_start.0;
                if res is Err && range_ready(old(mem).words@, *old(pmm), p4, vs, page_count as int, flags.bits) {
                    let u = range_page(vs, i as int);
                    assert(range_page_ready(old(mem).words@, *old(pmm), p4, vs, i as int));
                    assert(walk1(m_before, p4, u) is Some);
                    assert(mem.words@ == m_before);
                }
                if res is Ok && range_ready(old(mem).words@, *old(pmm), p4, vs, page_count as int, flags.bits) {
                    let u = range_page(vs, i as int);
                    assert(range_page_ready(old(mem).words@, *old(pmm), p4, vs, i as int));
                    lemma_free_off_same(*old(pmm), pm_before, old(mem).words@, m_before, p4, u);
                    assert(pmm_unique(pm_before)) by {
                        assert forall|z: Zone| #[trigger] pm_before.free_list(z) == old(pmm).free_list(z) by {}
                    }
                    let w = walk1(m_before, p4, u)->0 * 512 + idx1(u);
                    assert(0 <= w < m_before.len());
                    assert forall|k: int| 0 <= k < page_count implies {
                        &&& walk3(mem.words@, p4, #[trigger] range_page(vs, k)) == walk3(old(mem).words@, p4, range_page(vs, k))
                        &&& walk2(mem.words@, p4, range_page(vs, k)) == walk2(old(mem).words@, p4, range_page(vs, k))
                        &&& walk1(mem.words@, p4, range_page(vs, k)) == walk1(old(mem).words@, p4, range_page(vs, k))
                    } by {
                        assert(range_page_ready(old(mem).words@, *old(pmm), p4, vs, k));
                        lemma_walk_kept(m_before, mem.words@, p4, w, range_page(vs, k));
                    }
                    assert forall|k: int| 0 <= k < i + 1 implies #[trigger] translate_spec(mem.words@, p4, range_page(vs, k))
                        == Some(((phys_start.0 + k) * PAGE_SIZE + range_page(vs, k) % PAGE_SIZE) as u64) by {
                        if k < i {
                            assert(range_page_ready(old(mem).words@, *old(pmm), p4, vs, k));
                            lemma_free_off_same(*old(pmm), pm_before, old(mem).words@, m_before, p4, range_page(vs, k));
                            assert(translate_spec(m_before, p4, range_page(vs, k)) is Some);
                        }
                    }
                    // the leaf word written was absent from the start and is no earlier page's
                    let m0 = old(mem).words@;
                    assert(w == leaf_word(m0, p4, vs, i as int));
                    assert forall|k: int| 0 <= k < i implies #[trigger] leaf_word(m0, p4, vs, k) != w by {
                        assert(range_page_ready(m0, *old(pmm), p4, vs, k));
                        assert(translate_spec(m_before, p4, range_page(vs, k)) is Some);
                        assert(walk1(m_before, p4, range_page(vs, k)) == walk1(m0, p4, range_page(vs, k)));
                    }
                    if m_before[w] != m0[w] {
                        let k = choose|k: int| 0 <= k < i && w == #[trigger] leaf_word(m0, p4, vs, k);
                        assert(leaf_word(m0, p4, vs, k) != w);
                    }
                    assert forall|x: int| 0 <= x < m0.len() && #[trigger] mem.words@[x] != m0[x]
                        implies !pte_present(m0[x]) && among_leaf_words(m0, p4, vs, 0, i + 1, x) by {
                        if x == w {
                            assert(leaf_word(m0, p4, vs, i as int) == x);
                        } else {
                            assert(mem.words@[x] == m_before[x]);
                            let k = choose|k: int| 0 <= k < i && x == #[trigger] leaf_word(m0, p4, vs, k);
                            assert(leaf_word(m0, p4, vs, k) == x);
                        }
                    }
                    assert forall|k: int| 0 <= k < i + 1 implies !pte_present(m0[#[trigger] leaf_word(m0, p4, vs, k)]) by {}
                    assert forall|k1: int, k2: int| 0 <= k1 < i + 1 && 0 <= k2 < i + 1 && k1 != k2
                        implies #[trigger] leaf_word(m0, p4, vs, k1) != #[trigger] leaf_word(m0, p4, vs, k2) by {}
                }
            }
            if let Err(e) = res {
                let mut j: u64 = 0;
                while j < i
                    invariant
                        0 <= j <= i < page_count,
                        *self == *old(self),
                        mem.wf(),
                        mem.words@.len() == old(mem).words@.len(),
                        pmm_in_mem(*pmm, mem.words@),
                        virt_start.0 + page_count * PAGE_SIZE <= u64::MAX,
                        pmm.wf(),
                        pmm_shrunk(*old(pmm), *pmm),
                        e == MapError::OutOfMemory ==> pmm.serving_zone(Zone::Normal) is None,
                        i == 0 && !has_frame(old(mem).words@, old(self).p4_frame.0 as int) ==> mem.words@ == old(mem).words@,
                        e == MapError::NotMapped || e == MapError::AlreadyMapped || e == MapError::OutOfMemory,
                        i == 0 && !has_frame(old(mem).words@, old(self).p4_frame.0 as int) ==> e == MapError::NotMapped,
                        range_ready(old(mem).words@, *old(pmm), old(self).p4_frame.0 as int, virt_start.0, page_count as int, flags.bits)
                            ==> rollback_inv(old(mem).words@, mem.words@, old(self).p4_frame.0 as int, virt_start.0, i as int, j as int),
                    decreases i - j,
                {
                    proof {
                        assert(j * PAGE_SIZE < page_count * PAGE_SIZE) by (nonlinear_arith)
                            requires
                                j < page_count,
                        ;
                    }
                    let rollback_virt = VirtAddr::new_canonicalize(virt_start.as_u64() + j * PAGE_SIZE);
                    let ghost m_before = mem.words@;
                    let _ = self.unmap(mem, rollback_virt);
                    proof {
                        assert(mem.words@.len() == m_before.len());
                        let m0 = old(mem).words@;
                        let p4 = old(self).p4_frame.0 as int;
                        let vs = virt_start.0;
                        if range_ready(m0, *old(pmm), p4, vs, page_count as int, flags.bits) {
                            assert(rollback_virt.0 == range_page(vs, j as int));
                            lemma_rollback_step(m0, m_before, mem.words@, *old(pmm), p4, vs, page_count as int, flags.bits, i as int, j as int);
                        }
                    }
                    j = j + 1;
                }
                proof {
                    let m0 = old(mem).words@;
                    let p4 = old(self).p4_frame.0 as int;
                    let vs = virt_start.0;
                    if range_ready(m0, *old(pmm), p4, vs, page_count as int, flags.bits) {
                        lemma_rollback_done(m0, mem.words@, *old(pmm), p4, vs, page_count as int, flags.bits, i as int);
                    }
                }
                return Err(e);
            }
            i = i + 1;
        }
        Ok(())
    }

    fn next_table_create(mem: &mut PhysMem, pmm: &mut Pmm, f: u64, idx: usize) -> (r: Result<u64, MapError>)
        requires
            old(mem).wf(),
            has_frame(old(mem).words@, f as int),
            idx < 512,
            old(pmm).wf(),
            pmm_in_mem(*old(pmm), old(mem).words@),
        ensures
            final(mem).wf(),
            final(mem).words@.len() == old(mem).words@.len(),
            final(pmm).wf(),
            pmm_in_mem(*final(pmm), final(mem).words@),
            pmm_shrunk(*old(pmm), *final(pmm)),
            pmm_unique(*old(pmm)) ==> pmm_unique(*final(pmm)),
            final(pmm).free_frames + 1 >= old(pmm).free_frames,
            pte_present(entry_of(old(mem).words@, f as int, idx as int)) ==> {
                &&& final(mem).words@ == old(mem).words@
                &&& final(pmm).same_as(*old(pmm))
                &&& match next_table_spec(old(mem).words@, f as int, idx as int) {
                    Some(t) => r == Ok::<u64, MapError>(t as u64),
                    None => r == Err::<u64, MapError>(MapError::NotMapped),
                }
            },
            !pte_present(entry_of(old(mem).words@, f as int, idx as int)) ==> match r {
                Err(e) => {
                    &&& e == MapError::OutOfMemory
                    &&& old(pmm).serving_zone(Zone::Normal) is None
                    &&& final(mem).words@ == old(mem).words@
                    &&& final(pmm).same_as(*old(pmm))
                },
                Ok(t) => {
                    &&& is_free_frame(*old(pmm), t as int)
                    &&& (pmm_unique(*old(pmm)) ==> !is_free_frame(*final(pmm), t as int))
                    &&& agree_outside(old(mem).words@, final(mem).words@, set![f as int, t as int])
                    &&& agree_but(old(mem).words@, final(mem).words@, t as int, f * 512 + idx)
                    &&& next_table_spec(final(mem).words@, f as int, idx as int) == Some(t as int)
                    &&& forall|j: int| 0 <= j < 512 && (t != f || j != idx) ==> #[trigger] entry_of(final(mem).words@, t as int, j) == 0
                },
            },
    {
        let e = PageTableEntry(mem.read_entry(f, idx).unwrap());
        if !e.is_present() {
            let ghost pm0 = *pmm;
            let ghost m0 = mem.words@;
            let new_frame = match pmm.alloc_normal() {
                Some(fr) => fr,
                None => return Err(MapError::OutOfMemory),
            };
            proof {
                let zs = pm0.serving_zone(Zone::Normal)->0;
                let k = pm0.free_list(zs).len() - 1;
                assert(pm0.free_list(zs)[k] == new_frame.0);
                assert(has_frame(m0, new_frame.0 as int));
                assert(is_free_frame(pm0, new_frame.0 as int));
                lemma_pop_shrinks(pm0, *pmm, zs);
            }
            mem.zero_frame(new_frame.0);
            let ghost m1 = mem.words@;
            let mut ne = PageTableEntry::empty();
            ne.set(new_frame, PageFlags::from_bits_truncate(TABLE_FLAGS));
            mem.write_entry(f, idx, ne.0);
            proof {
                let n = new_frame.0;
                assert(n < MAX_MEM_FRAMES) by (nonlinear_arith)
                    requires
                        (n + 1) * 512 <= m0.len(),
                        m0.len() <= MAX_MEM_FRAMES * 512,
                ;
                assert(7u64 & 0x8000_0000_0000_01FFu64 == 7u64 && 7u64 & !0x8000_0000_0000_01FFu64 == 0
                    && 7u64 & 1u64 != 0) by (bit_vector);
                lemma_set_then_frame(n, 7);
                lemma_word_frame(f as int, idx as int);
                assert(entry_of(mem.words@, f as int, idx as int) == ne.0);
                assert(pte_frame(ne.0) == n as int);
                assert(agree_outside(m0, mem.words@, set![f as int, n as int]));
                assert(agree_but(m0, mem.words@, n as int, f * 512 + idx));
                assert forall|j: int| 0 <= j < 512 && (n != f || j != idx) implies #[trigger] entry_of(mem.words@, n as int, j) == 0 by {
                    lemma_word_frame(n as int, j);
                    assert(entry_of(m1, n as int, j) == 0);
                }
                assert(pte_present(ne.0));
                assert(next_table_spec(mem.words@, f as int, idx as int) == Some(n as int));
                assert(is_free_frame(pm0, n as int));
            }
        }
        match Self::next_table(mem, f, idx) {
            Some(t) => Ok(t),
            None => Err(MapError::NotMapped),
        }
    }
}

/// `m2` equals `m1` but in frame `t` and in word `w`.
pub open spec fn agree_but(m1: Seq<u64>, m2: Seq<u64>, t: int, w: int) -> bool {
    &&& m1.len() == m2.len()
    &&& forall|k: int| 0 <= k < m1.len() && k / 512 != t && k != w ==> #[trigger] m2[k] == m1[k]
}

/// Every free frame of `pm` lies inside memory `mem`.
pub open spec fn pmm_in_mem(pm: Pmm, mem: Seq<u64>) -> bool {
    forall|z: Zone, k: int| 0 <= k < pm.free_list(z).len() ==> has_frame(mem, #[trigger] pm.free_list(z)[k] as int)
}

/// Frame `t` is on one of the free stacks of `pm`.
pub open spec fn is_free_frame(pm: Pmm, t: int) -> bool {
    exists|z: Zone, k: int| 0 <= k < pm.free_list(z).len() && #[trigger] pm.free_list(z)[k] == t
}

/// No frame is on the free stacks twice.
pub open spec fn pmm_unique(pm: Pmm) -> bool {
    forall|z1: Zone, z2: Zone, k1: int, k2: int|
        0 <= k1 < pm.free_list(z1).len() && 0 <= k2 < pm.free_list(z2).len()
            && #[trigger] pm.free_list(z1)[k1] == #[trigger] pm.free_list(z2)[k2]
            ==> z1 == z2 && k1 == k2
}

/// Each free stack of `pm2` is a prefix of the one of `pm`.
pub open spec fn pmm_shrunk(pm: Pmm, pm2: Pmm) -> bool {
    forall|z: Zone| {
        &&& #[trigger] pm2.free_list(z).len() <= pm.free_list(z).len()
        &&& forall|k: int| 0 <= k < pm2.free_list(z).len() ==> #[trigger] pm2.free_list(z)[k] == pm.free_list(z)[k]
    }
}

proof fn lemma_word_frame(f: int, i: int)
    requires
        0 <= f,
        0 <= i < 512,
    ensures
        (f * 512 + i) / 512 == f,
{
    assert((f * 512 + i) / 512 == f) by (nonlinear_arith)
        requires
            0 <= f,
            0 <= i < 512,
    ;
}

pub proof fn lemma_pop_shrinks(pm: Pmm, pm2: Pmm, zs: Zone)
    requires
        pm.free_list(zs).len() > 0,
        forall|z: Zone| #[trigger] pm2.free_list(z) == if z == zs {
            pm.free_list(z).drop_last()
        } else {
            pm.free_list(z)
        },
    ensures
        pmm_shrunk(pm, pm2),
        pmm_unique(pm) ==> pmm_unique(pm2),
        pmm_unique(pm) ==> !is_free_frame(pm2, pm.free_list(zs).last() as int),
        forall|mem: Seq<u64>| pmm_in_mem(pm, mem) ==> pmm_in_mem(pm2, mem),
{
    assert(pmm_shrunk(pm, pm2));
    if pmm_unique(pm) {
        let last = pm.free_list(zs).len() - 1;
        if is_free_frame(pm2, pm.free_list(zs).last() as int) {
            let (z, k) = choose|z: Zone, k: int| 0 <= k < pm2.free_list(z).len() && #[trigger] pm2.free_list(z)[k] == pm.free_list(zs).last() as int;
            assert(pm.free_list(z)[k] == pm.free_list(zs)[last]);
        }
        assert forall|z1: Zone, z2: Zone, k1: int, k2: int|
            0 <= k1 < pm2.free_list(z1).len() && 0 <= k2 < pm2.free_list(z2).len()
                && #[trigger] pm2.free_list(z1)[k1] == #[trigger] pm2.free_list(z2)[k2]
            implies z1 == z2 && k1 == k2 by {
            assert(pm.free_list(z1)[k1] == pm.free_list(z2)[k2]);
        }
    }
    assert forall|mem: Seq<u64>| pmm_in_mem(pm, mem) implies pmm_in_mem(pm2, mem) by {
        assert forall|z: Zone, k: int| 0 <= k < pm2.free_list(z).len() implies has_frame(mem, #[trigger] pm2.free_list(z)[k] as int) by {
            assert(pm.free_list(z)[k] == pm2.free_list(z)[k]);
        }
    }
}


/// One table step of a mapping: the entry `i` of table `f` leads to `t` afterwards;
/// either it was present and nothing changed, or `t` is a fresh zeroed frame off the
/// free stacks and only frames `f` and `t` changed.
pub open spec fn step_ok(m: Seq<u64>, m2: Seq<u64>, pm: Pmm, pm2: Pmm, f: int, i: int, t: int) -> bool {
    &&& m2.len() == m.len()
    &&& pmm_shrunk(pm, pm2)
    &&& (pmm_unique(pm) ==> pmm_unique(pm2))
    &&& next_table_spec(m2, f, i) == Some(t)
    &&& 0 <= t
    &&& (pte_present(entry_of(m, f, i)) ==> m2 == m && pm2.same_as(pm))
    &&& (!pte_present(entry_of(m, f, i)) ==> {
        &&& is_free_frame(pm, t)
        &&& (pmm_unique(pm) ==> !is_free_frame(pm2, t))
        &&& agree_outside(m, m2, set![f, t])
        &&& agree_but(m, m2, t, f * 512 + i)
        &&& forall|j: int| 0 <= j < 512 && (t != f || j != i) ==> #[trigger] entry_of(m2, t, j) == 0
    })
}

/// The tables on the walk of `v` are distinct frames.
pub open spec fn path_distinct(mem: Seq<u64>, p4: int, v: u64) -> bool {
    &&& (walk3(mem, p4, v) matches Some(a) ==> a != p4)
    &&& (walk2(mem, p4, v) matches Some(b) ==> b != p4 && Some(b) != walk3(mem, p4, v))
    &&& (walk1(mem, p4, v) matches Some(c) ==> c != p4 && Some(c) != walk3(mem, p4, v) && Some(c) != walk2(mem, p4, v))
}

/// No free frame of `pm` is a table on the walk of `v`.
pub open spec fn free_off_path(pm: Pmm, mem: Seq<u64>, p4: int, v: u64) -> bool {
    forall|x: int| #[trigger] is_free_frame(pm, x) ==> {
        &&& x != p4
        &&& Some(x) != walk3(mem, p4, v)
        &&& Some(x) != walk2(mem, p4, v)
        &&& Some(x) != walk1(mem, p4, v)
    }
}

/// Prefixes of free lists without repeats have none either.
pub proof fn lemma_shrunk_unique(pm: Pmm, pm2: Pmm)
    requires
        pmm_shrunk(pm, pm2),
        pmm_unique(pm),
    ensures
        pmm_unique(pm2),
{
    assert forall|z1: Zone, z2: Zone, k1: int, k2: int|
        0 <= k1 < pm2.free_list(z1).len() && 0 <= k2 < pm2.free_list(z2).len()
            && #[trigger] pm2.free_list(z1)[k1] == #[trigger] pm2.free_list(z2)[k2]
            implies z1 == z2 && k1 == k2 by {
        assert(pm2.free_list(z1)[k1] == pm.free_list(z1)[k1]);
        assert(pm2.free_list(z2)[k2] == pm.free_list(z2)[k2]);
    }
}

/// A frame free in shrunk lists was free before.
pub proof fn lemma_shrunk_free(pm: Pmm, pm2: Pmm, x: int)
    requires
        pmm_shrunk(pm, pm2),
        is_free_frame(pm2, x),
    ensures
        is_free_frame(pm, x),
{
    let (z, k) = choose|z: Zone, k: int| 0 <= k < pm2.free_list(z).len() && #[trigger] pm2.free_list(z)[k] == x;
    assert(pm.free_list(z)[k] == x);
}

proof fn lemma_agree_entry(m1: Seq<u64>, m2: Seq<u64>, fs: Set<int>, f: int, i: int)
    requires
        agree_outside(m1, m2, fs),
        !fs.contains(f),
        has_frame(m1, f),
        0 <= i < 512,
    ensures
        entry_of(m2, f, i) == entry_of(m1, f, i),
        next_table_spec(m2, f, i) == next_table_spec(m1, f, i),
{
    lemma_word_frame(f, i);
    assert(m2[f * 512 + i] == m1[f * 512 + i]);
}

proof fn lemma_map_walk(
    m0: Seq<u64>, m1: Seq<u64>, m2: Seq<u64>, m3: Seq<u64>, m4: Seq<u64>,
    pm0: Pmm, pm1: Pmm, pm2: Pmm, pm3: Pmm,
    p4: int, v: u64, g3: int, g2: int, g1: int, val: u64,
)
    requires
        has_frame(m0, p4),
        step_ok(m0, m1, pm0, pm1, p4, idx4(v), g3),
        step_ok(m1, m2, pm1, pm2, g3, idx3(v), g2),
        step_ok(m2, m3, pm2, pm3, g2, idx2(v), g1),
        m4 == m3.update(g1 * 512 + idx1(v), val),
        path_distinct(m0, p4, v),
        free_off_path(pm0, m0, p4, v),
        pmm_unique(pm0),
    ensures
        walk1(m4, p4, v) == Some(g1),
        entry_of(m4, g1, idx1(v)) == val,
{
    let i4 = idx4(v);
    let i3 = idx3(v);
    let i2 = idx2(v);
    let i1 = idx1(v);
    let c1 = !pte_present(entry_of(m0, p4, i4));
    let c2 = !pte_present(entry_of(m1, g3, i3));
    let c3 = !pte_present(entry_of(m2, g2, i2));
    assert(0u64 & 1u64 == 0) by (bit_vector);
    // the frames handed out are not on the old walk
    if c1 {
        assert(is_free_frame(pm0, g3));
        assert(g3 != p4);
        lemma_word_frame(g3, i3);
        assert(entry_of(m1, g3, i3) == 0);
    } else {
        assert(walk3(m0, p4, v) == Some(g3));
    }
    if c2 {
        lemma_shrunk_free(pm0, pm1, g2);
        assert(g2 != p4);
        assert(g2 != g3);
        assert(entry_of(m2, g2, i2) == 0);
    } else {
        assert(!c1);
        assert(walk2(m0, p4, v) == Some(g2));
    }
    if c3 {
        lemma_shrunk_free(pm1, pm2, g1);
        lemma_shrunk_free(pm0, pm1, g1);
        assert(g1 != p4);
        if c1 {
            if g1 == g3 {
                lemma_shrunk_free(pm1, pm2, g3);
            }
        }
        assert(g1 != g3);
        assert(g1 != g2);
    } else {
        assert(!c2);
        assert(walk1(m0, p4, v) == Some(g1));
    }
    assert(g3 != p4 && g2 != p4 && g1 != p4 && g2 != g3 && g1 != g3 && g1 != g2);
    // m4 keeps the entries of the walk
    assert(has_frame(m1, g3));
    assert(has_frame(m2, g2));
    assert(has_frame(m3, g1));
    assert(agree_outside(m3, m4, set![g1])) by {
        assert forall|k: int| 0 <= k < m3.len() && !set![g1].contains(k / 512) implies #[trigger] m4[k] == m3[k] by {
            lemma_word_frame(g1, i1);
        }
    }
    lemma_agree_entry(m3, m4, set![g1], g2, i2);
    assert(next_table_spec(m4, g2, i2) == Some(g1));
    // entry (g3, i3) is unchanged from m2 on
    if c3 {
        lemma_agree_entry(m2, m3, set![g2, g1], g3, i3);
    }
    lemma_agree_entry(m3, m4, set![g1], g3, i3);
    assert(next_table_spec(m4, g3, i3) == Some(g2));
    // entry (p4, i4) is unchanged from m1 on
    if c2 {
        lemma_agree_entry(m1, m2, set![g3, g2], p4, i4);
    }
    if c3 {
        lemma_agree_entry(m2, m3, set![g2, g1], p4, i4);
    }
    lemma_agree_entry(m3, m4, set![g1], p4, i4);
    assert(next_table_spec(m4, p4, i4) == Some(g3));
    assert(has_frame(m4, p4));
}


/// A present entry in a table off the free stacks outlives a mapping step: the step
/// only takes a free frame and sets an entry that was absent.
proof fn lemma_step_keeps(m: Seq<u64>, m2: Seq<u64>, pm: Pmm, pm2: Pmm, f: int, i: int, t: int, x: int, j: int)
    requires
        step_ok(m, m2, pm, pm2, f, i, t),
        has_frame(m, x),
        0 <= j < 512,
        !is_free_frame(pm, x),
        pte_present(entry_of(m, x, j)),
    ensures
        entry_of(m2, x, j) == entry_of(m, x, j),
        !is_free_frame(pm2, x),
{
    if is_free_frame(pm2, x) {
        lemma_shrunk_free(pm, pm2, x);
    }
    if !pte_present(entry_of(m, f, i)) {
        assert(x != t);
        lemma_word_frame(x, j);
        assert(x * 512 + j != f * 512 + i);
        assert(m2[x * 512 + j] == m[x * 512 + j]);
    }
}

/// The same through the three table steps of a mapping and its leaf write.
proof fn lemma_map_keeps_entry(
    m0: Seq<u64>, m1: Seq<u64>, m2: Seq<u64>, m3: Seq<u64>, m4: Seq<u64>,
    pm0: Pmm, pm1: Pmm, pm2: Pmm, pm3: Pmm,
    p4: int, v: u64, g3: int, g2: int, g1: int, val: u64, x: int, j: int,
)
    requires
        step_ok(m0, m1, pm0, pm1, p4, idx4(v), g3),
        step_ok(m1, m2, pm1, pm2, g3, idx3(v), g2),
        step_ok(m2, m3, pm2, pm3, g2, idx2(v), g1),
        m4 == m3.update(g1 * 512 + idx1(v), val),
        !pte_present(entry_of(m3, g1, idx1(v))),
        has_frame(m0, x),
        0 <= j < 512,
        !is_free_frame(pm0, x),
        pte_present(entry_of(m0, x, j)),
    ensures
        entry_of(m4, x, j) == entry_of(m0, x, j),
{
    lemma_step_keeps(m0, m1, pm0, pm1, p4, idx4(v), g3, x, j);
    lemma_step_keeps(m1, m2, pm1, pm2, g3, idx3(v), g2, x, j);
    lemma_step_keeps(m2, m3, pm2, pm3, g2, idx2(v), g1, x, j);
    assert(x * 512 + j != g1 * 512 + idx1(v));
}

/// A mapping keeps the translation of every address whose walk reaches a present leaf
/// through tables off the free stacks.
proof fn lemma_map_keeps(
    m0: Seq<u64>, m1: Seq<u64>, m2: Seq<u64>, m3: Seq<u64>, m4: Seq<u64>,
    pm0: Pmm, pm1: Pmm, pm2: Pmm, pm3: Pmm,
    p4: int, v: u64, g3: int, g2: int, g1: int, val: u64, w: u64,
)
    requires
        step_ok(m0, m1, pm0, pm1, p4, idx4(v), g3),
        step_ok(m1, m2, pm1, pm2, g3, idx3(v), g2),
        step_ok(m2, m3, pm2, pm3, g2, idx2(v), g1),
        m4 == m3.update(g1 * 512 + idx1(v), val),
        !pte_present(entry_of(m3, g1, idx1(v))),
        free_off_path(pm0, m0, p4, w),
        translate_spec(m0, p4, w) is Some,
    ensures
        translate_spec(m4, p4, w) == translate_spec(m0, p4, w),
{
    let a3 = walk3(m0, p4, w)->0;
    let a2 = walk2(m0, p4, w)->0;
    let a1 = walk1(m0, p4, w)->0;
    if is_free_frame(pm0, p4) {}
    if is_free_frame(pm0, a3) {}
    if is_free_frame(pm0, a2) {}
    if is_free_frame(pm0, a1) {}
    assert(m4.len() == m0.len());
    lemma_map_keeps_entry(m0, m1, m2, m3, m4, pm0, pm1, pm2, pm3, p4, v, g3, g2, g1, val, p4, idx4(w));
    lemma_map_keeps_entry(m0, m1, m2, m3, m4, pm0, pm1, pm2, pm3, p4, v, g3, g2, g1, val, a3, idx3(w));
    lemma_map_keeps_entry(m0, m1, m2, m3, m4, pm0, pm1, pm2, pm3, p4, v, g3, g2, g1, val, a2, idx2(w));
    lemma_map_keeps_entry(m0, m1, m2, m3, m4, pm0, pm1, pm2, pm3, p4, v, g3, g2, g1, val, a1, idx1(w));
    assert(walk3(m4, p4, w) == Some(a3));
    assert(walk2(m4, p4, w) == Some(a2));
    assert(walk1(m4, p4, w) == Some(a1));
}

/// Page `i` of a range of pages from `vs`.
pub open spec fn range_page(vs: u64, i: int) -> u64 {
    canonicalize_spec((vs + i * PAGE_SIZE) as u64)
}

/// Page `i` of the range from `vs` has all its tables, distinct and off the free stacks.
pub open spec fn range_page_ready(m: Seq<u64>, pm: Pmm, p4: int, vs: u64, i: int) -> bool {
    &&& walk1(m, p4, range_page(vs, i)) is Some
    &&& path_distinct(m, p4, range_page(vs, i))
    &&& free_off_path(pm, m, p4, range_page(vs, i))
}

/// The `n` pages from `vs` are ready for mapping with `flags`, and no frame is free twice.
pub open spec fn range_ready(m: Seq<u64>, pm: Pmm, p4: int, vs: u64, n: int, flags: u64) -> bool {
    &&& pmm_unique(pm)
    &&& flags & !FLAGS_ALL == 0
    &&& forall|k: int| 0 <= k < n ==> #[trigger] range_page_ready(m, pm, p4, vs, k)
}

/// Rewriting one word that held an absent entry keeps every complete walk.
proof fn lemma_walk_kept(m: Seq<u64>, m2: Seq<u64>, p4: int, w: int, u: u64)
    requires
        m2.len() == m.len(),
        0 <= w < m.len(),
        !pte_present(m[w]),
        forall|k: int| 0 <= k < m.len() && k != w ==> #[trigger] m2[k] == m[k],
        walk1(m, p4, u) is Some,
    ensures
        walk3(m2, p4, u) == walk3(m, p4, u),
        walk2(m2, p4, u) == walk2(m, p4, u),
        walk1(m2, p4, u) == walk1(m, p4, u),
{
    let a3 = walk3(m, p4, u)->0;
    let a2 = walk2(m, p4, u)->0;
    assert(m2[p4 * 512 + idx4(u)] == m[p4 * 512 + idx4(u)]);
    assert(m2[a3 * 512 + idx3(u)] == m[a3 * 512 + idx3(u)]);
    assert(m2[a2 * 512 + idx2(u)] == m[a2 * 512 + idx2(u)]);
}

/// Allocators with the same free stacks keep the same frames off a walk.
proof fn lemma_free_off_same(pm: Pmm, pm2: Pmm, m: Seq<u64>, m2: Seq<u64>, p4: int, u: u64)
    requires
        pm2.same_as(pm),
        walk3(m2, p4, u) == walk3(m, p4, u),
        walk2(m2, p4, u) == walk2(m, p4, u),
        walk1(m2, p4, u) == walk1(m, p4, u),
        free_off_path(pm, m, p4, u),
    ensures
        free_off_path(pm2, m2, p4, u),
{
    assert forall|z: Zone| #[trigger] pm2.free_list(z) == pm.free_list(z) by {}
    assert forall|x: int| #[trigger] is_free_frame(pm2, x) implies is_free_frame(pm, x) by {
        let (z, k) = choose|z: Zone, k: int| 0 <= k < pm2.free_list(z).len() && #[trigger] pm2.free_list(z)[k] == x;
        assert(pm.free_list(z)[k] == x);
    }
}

/// The word holding the leaf entry of page `k` of the range from `vs`, on its walk in `m`.
pub open spec fn leaf_word(m: Seq<u64>, p4: int, vs: u64, k: int) -> int {
    walk1(m, p4, range_page(vs, k))->0 * 512 + idx1(range_page(vs, k))
}

/// Word `w` is the leaf word of one of the pages `lo..hi` of the range.
pub open spec fn among_leaf_words(m: Seq<u64>, p4: int, vs: u64, lo: int, hi: int, w: int) -> bool {
    exists|k: int| lo <= k < hi && w == #[trigger] leaf_word(m, p4, vs, k)
}

/// Memory that differs only in words holding absent entries keeps every complete walk.
proof fn lemma_walk_same(m: Seq<u64>, m2: Seq<u64>, p4: int, u: u64)
    requires
        m2.len() == m.len(),
        forall|k: int| 0 <= k < m.len() && #[trigger] m2[k] != m[k] ==> !pte_present(m[k]),
        walk1(m, p4, u) is Some,
    ensures
        walk3(m2, p4, u) == walk3(m, p4, u),
        walk2(m2, p4, u) == walk2(m, p4, u),
        walk1(m2, p4, u) == walk1(m, p4, u),
{
    let a3 = walk3(m, p4, u)->0;
    let a2 = walk2(m, p4, u)->0;
    assert(m2[p4 * 512 + idx4(u)] == m[p4 * 512 + idx4(u)]);
    assert(m2[a3 * 512 + idx3(u)] == m[a3 * 512 + idx3(u)]);
    assert(m2[a2 * 512 + idx2(u)] == m[a2 * 512 + idx2(u)]);
}

/// While pages `0..i` of the range, mapped over `m0`, are unmapped again in order:
/// memory differs from `m0` only in their leaf words, absent in `m0`; those of pages
/// before `j` are absent again, those from `j` on still translate.
pub open spec fn rollback_inv(m0: Seq<u64>, m: Seq<u64>, p4: int, vs: u64, i: int, j: int) -> bool {
    &&& m.len() == m0.len()
    &&& forall|x: int| 0 <= x < m0.len() && #[trigger] m[x] != m0[x]
        ==> !pte_present(m0[x]) && among_leaf_words(m0, p4, vs, 0, i, x)
    &&& forall|k: int| 0 <= k < j ==> !pte_present(m[#[trigger] leaf_word(m0, p4, vs, k)])
    &&& forall|k: int| j <= k < i ==> (#[trigger] translate_spec(m, p4, range_page(vs, k))) is Some
    &&& forall|k: int| 0 <= k < i ==> !pte_present(m0[#[trigger] leaf_word(m0, p4, vs, k)])
    &&& forall|k1: int, k2: int| 0 <= k1 < i && 0 <= k2 < i && k1 != k2
        ==> #[trigger] leaf_word(m0, p4, vs, k1) != #[trigger] leaf_word(m0, p4, vs, k2)
}

/// Unmapping page `j` keeps the rollback going.
proof fn lemma_rollback_step(m0: Seq<u64>, m: Seq<u64>, m2: Seq<u64>, pm: Pmm, p4: int, vs: u64, n: int, flags: u64, i: int, j: int)
    requires
        range_ready(m0, pm, p4, vs, n, flags),
        rollback_inv(m0, m, p4, vs, i, j),
        0 <= j < i <= n,
        translate_spec(m, p4, range_page(vs, j)) is Some ==> m2 == m.update(
            walk1(m, p4, range_page(vs, j))->0 * 512 + idx1(range_page(vs, j)), 0),
    ensures
        rollback_inv(m0, m2, p4, vs, i, j + 1),
{
    let u = range_page(vs, j);
    assert(range_page_ready(m0, pm, p4, vs, j));
    lemma_walk_same(m0, m, p4, u);
    assert(translate_spec(m, p4, u) is Some);
    let lw = leaf_word(m0, p4, vs, j);
    assert(m2 == m.update(lw, 0));
    assert(has_frame(m0, walk1(m0, p4, u)->0));
    assert(0 <= lw < m.len());
    lemma_zero_not_present();
    assert(!pte_present(m2[lw]));
    assert forall|x: int| 0 <= x < m0.len() && #[trigger] m2[x] != m0[x]
        implies !pte_present(m0[x]) && among_leaf_words(m0, p4, vs, 0, i, x) by {
        if x == lw {
            assert(leaf_word(m0, p4, vs, j) == x);
        } else {
            assert(m2[x] == m[x]);
        }
    }
    assert forall|k: int| 0 <= k < j + 1 implies !pte_present(m2[#[trigger] leaf_word(m0, p4, vs, k)]) by {
        if k < j {
            assert(leaf_word(m0, p4, vs, k) != lw);
            assert(range_page_ready(m0, pm, p4, vs, k));
            assert(has_frame(m0, walk1(m0, p4, range_page(vs, k))->0));
            assert(0 <= leaf_word(m0, p4, vs, k) < m.len());
            assert(m2[leaf_word(m0, p4, vs, k)] == m[leaf_word(m0, p4, vs, k)]);
        }
    }
    assert forall|k: int| j + 1 <= k < i implies (#[trigger] translate_spec(m2, p4, range_page(vs, k))) is Some by {
        assert(range_page_ready(m0, pm, p4, vs, k));
        lemma_walk_same(m0, m, p4, range_page(vs, k));
        lemma_walk_same(m0, m2, p4, range_page(vs, k));
        assert(leaf_word(m0, p4, vs, k) != lw);
        assert(translate_spec(m, p4, range_page(vs, k)) is Some);
    }
}

/// A finished rollback leaves every page of the range translating as over `m0`.
proof fn lemma_rollback_done(m0: Seq<u64>, m: Seq<u64>, pm: Pmm, p4: int, vs: u64, n: int, flags: u64, i: int)
    requires
        range_ready(m0, pm, p4, vs, n, flags),
        rollback_inv(m0, m, p4, vs, i, i),
        0 <= i <= n,
    ensures
        forall|k: int| 0 <= k < n ==> #[trigger] translate_spec(m, p4, range_page(vs, k)) == translate_spec(m0, p4, range_page(vs, k)),
{
    assert forall|k: int| 0 <= k < n implies #[trigger] translate_spec(m, p4, range_page(vs, k)) == translate_spec(m0, p4, range_page(vs, k)) by {
        assert(range_page_ready(m0, pm, p4, vs, k));
        lemma_walk_same(m0, m, p4, range_page(vs, k));
        let x = leaf_word(m0, p4, vs, k);
        if m[x] != m0[x] {
            let k2 = choose|k2: int| 0 <= k2 < i && x == #[trigger] leaf_word(m0, p4, vs, k2);
            assert(!pte_present(m[leaf_word(m0, p4, vs, k2)]));
        }
    }
}

/// The frame number an entry's address bits give is below the frame limit.
proof fn lemma_pte_frame_bound(raw: u64)
    ensures
        (raw & 0x000F_FFFF_FFFF_F000u64) / 4096 < 0x100_0000_0000,
{
    assert((raw & 0x000F_FFFF_FFFF_F000u64) / 4096 < 0x100_0000_0000) by (bit_vector);
}

/// Every present entry on the walk of `v` leads to a table inside memory.
pub open spec fn walk_sound(mem: Seq<u64>, p4: int, v: u64) -> bool {
    &&& pte_present(entry_of(mem, p4, idx4(v))) ==> walk3(mem, p4, v) is Some
    &&& (walk3(mem, p4, v) matches Some(a) ==> (pte_present(entry_of(mem, a, idx3(v))) ==> walk2(mem, p4, v) is Some))
    &&& (walk2(mem, p4, v) matches Some(b) ==> (pte_present(entry_of(mem, b, idx2(v))) ==> walk1(mem, p4, v) is Some))
}

/// Changing only frame `f`, a frame that is not on the walk of `v`, leaves that walk,
/// and all that is read along it, as it was.
pub proof fn lemma_off_path_change(m: Seq<u64>, m2: Seq<u64>, f: int, p4: int, v: u64)
    requires
        agree_outside(m, m2, set![f]),
        has_frame(m, p4),
        f != p4,
        Some(f) != walk3(m, p4, v),
        Some(f) != walk2(m, p4, v),
        Some(f) != walk1(m, p4, v),
    ensures
        walk3(m2, p4, v) == walk3(m, p4, v),
        walk2(m2, p4, v) == walk2(m, p4, v),
        walk1(m2, p4, v) == walk1(m, p4, v),
        translate_spec(m2, p4, v) == translate_spec(m, p4, v),
        walk_sound(m2, p4, v) == walk_sound(m, p4, v),
        path_distinct(m2, p4, v) == path_distinct(m, p4, v),
{
    if has_frame(m, p4) {
        lemma_word_frame(p4, idx4(v));
        assert(entry_of(m2, p4, idx4(v)) == entry_of(m, p4, idx4(v)));
        if let Some(a) = walk3(m, p4, v) {
            lemma_word_frame(a, idx3(v));
            assert(entry_of(m2, a, idx3(v)) == entry_of(m, a, idx3(v)));
            if let Some(b) = walk2(m, p4, v) {
                lemma_word_frame(b, idx2(v));
                assert(entry_of(m2, b, idx2(v)) == entry_of(m, b, idx2(v)));
                if let Some(c) = walk1(m, p4, v) {
                    lemma_word_frame(c, idx1(v));
                    assert(entry_of(m2, c, idx1(v)) == entry_of(m, c, idx1(v)));
                }
            }
        }
    }
}

/// Clearing one word of memory can only take a translation away: afterwards each
/// address translates as before or not at all, and the address whose leaf entry was
/// cleared does not translate.
pub proof fn lemma_cleared_word(m: Seq<u64>, w: int, p4: int, v: u64)
    requires
        0 <= w < m.len(),
    ensures
        translate_spec(m.update(w, 0), p4, v) is None
            || translate_spec(m.update(w, 0), p4, v) == translate_spec(m, p4, v),
        (walk1(m, p4, v) matches Some(f1) && w == f1 * 512 + idx1(v)) ==> translate_spec(m.update(w, 0), p4, v) is None,
{
    let m2 = m.update(w, 0);
    lemma_zero_not_present();
    assert(walk3(m2, p4, v) is None || walk3(m2, p4, v) == walk3(m, p4, v));
    assert(walk2(m2, p4, v) is None || walk2(m2, p4, v) == walk2(m, p4, v));
    assert(walk1(m2, p4, v) is None || walk1(m2, p4, v) == walk1(m, p4, v));
}

proof fn lemma_zero_not_present()
    ensures
        !pte_present(0),
{
    assert(0u64 & 1u64 == 0) by (bit_vector);
}

/// A frame allocator with a free frame serves a request.
pub proof fn lemma_free_serves(pm: Pmm)
    requires
        pm.wf(),
        pm.free_frames > 0,
    ensures
        pm.serving_zone(Zone::Normal) is Some,
{
}

/// Shrunk free lists hold no more frames.
pub proof fn lemma_shrunk_count(a: Pmm, b: Pmm)
    requires
        a.wf(),
        b.wf(),
        pmm_shrunk(a, b),
    ensures
        b.free_frames <= a.free_frames,
{
    assert(b.free_list(Zone::Dma16).len() <= a.free_list(Zone::Dma16).len());
    assert(b.free_list(Zone::Dma32).len() <= a.free_list(Zone::Dma32).len());
    assert(b.free_list(Zone::Normal).len() <= a.free_list(Zone::Normal).len());
}

/// Shrinking the free lists twice is shrinking them once.
pub proof fn lemma_shrunk_trans(a: Pmm, b: Pmm, c: Pmm)
    requires
        pmm_shrunk(a, b),
        pmm_shrunk(b, c),
    ensures
        pmm_shrunk(a, c),
{
    assert forall|z: Zone| {
        &&& #[trigger] c.free_list(z).len() <= a.free_list(z).len()
        &&& forall|k: int| 0 <= k < c.free_list(z).len() ==> #[trigger] c.free_list(z)[k] == a.free_list(z)[k]
    } by {
        assert(c.free_list(z).len() <= b.free_list(z).len());
        assert forall|k: int| 0 <= k < c.free_list(z).len() implies #[trigger] c.free_list(z)[k] == a.free_list(z)[k] by {
            assert(c.free_list(z)[k] == b.free_list(z)[k]);
        }
    }
}

} // verus!
