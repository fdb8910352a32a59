use vstd::prelude::*;
use vstd::arithmetic::power2::pow2;
use vstd::bits::low_bits_mask;

verus! {

/// Size of a page and of a physical frame, in bytes.
pub const PAGE_SIZE: u64 = 4096;

/// Number of bits an address is shifted by to give its frame number.
pub const PAGE_SHIFT: u64 = 12;

/// Highest value a physical address may take plus one: bits 52..64 are clear.
pub const PHYS_ADDR_LIMIT: u64 = 0x0010_0000_0000_0000;

/// An alignment that is a power of two.
pub open spec fn is_pow2(a: u64) -> bool {
    exists|n: nat| n < 64 && a == pow2(n)
}

/// `x` rounded down to a multiple of `a`.
pub open spec fn align_down_spec(x: int, a: int) -> int {
    x - x % a
}

/// `x` rounded up to a multiple of `a`.
pub open spec fn align_up_spec(x: int, a: int) -> int {
    align_down_spec(x + a - 1, a)
}

/// For a power-of-two alignment, masking the low bits is taking the remainder.
pub proof fn lemma_pow2_mask_is_mod(x: u64, a: u64)
    requires
        is_pow2(a),
    ensures
        a > 0,
        x & ((a - 1) as u64) == x % a,
        x & !((a - 1) as u64) == x - x % a,
{
    let n = choose|n: nat| n < 64 && a == pow2(n);
    vstd::bits::lemma_u64_pow2_no_overflow(n);
    vstd::arithmetic::power2::lemma_pow2_pos(n);
    assert(low_bits_mask(n) == pow2(n) - 1);
    vstd::bits::lemma_u64_low_bits_mask_is_mod(x, n);
    let m = (a - 1) as u64;
    assert((x & !m) + (x & m) == x) by (bit_vector);
}

/// Properties of rounding down and up to a positive alignment.
pub proof fn lemma_align_props(x: int, a: int)
    requires
        a > 0,
        x >= 0,
    ensures
        align_down_spec(x, a) % a == 0,
        x - a < align_down_spec(x, a) <= x,
        align_up_spec(x, a) % a == 0,
        x <= align_up_spec(x, a) < x + a,
{
    vstd::arithmetic::div_mod::lemma_fundamental_div_mod(x, a);
    vstd::arithmetic::div_mod::lemma_mod_multiples_basic(x / a, a);
    vstd::arithmetic::div_mod::lemma_mod_bound(x, a);
    let y = x + a - 1;
    vstd::arithmetic::div_mod::lemma_fundamental_div_mod(y, a);
    vstd::arithmetic::div_mod::lemma_mod_multiples_basic(y / a, a);
    vstd::arithmetic::div_mod::lemma_mod_bound(y, a);
    assert(a * (x / a) == x - x % a);
    assert(a * (y / a) == y - y % a);
    vstd::arithmetic::mul::lemma_mul_is_commutative(a, x / a);
    vstd::arithmetic::mul::lemma_mul_is_commutative(a, y / a);
}


/// Sign-extension of bit 47 into bits 48..64: the canonical form of `x`.
pub open spec fn canonicalize_spec(x: u64) -> u64 {
    if x & 0x0000_8000_0000_0000 != 0 {
        x | 0xFFFF_0000_0000_0000
    } else {
        x & 0x0000_FFFF_FFFF_FFFF
    }
}

/// An x86_64 canonical address: bits 48..64 all equal bit 47.
pub open spec fn is_canonical(x: u64) -> bool {
    x < 0x0000_8000_0000_0000 || x >= 0xFFFF_8000_0000_0000
}

/// The canonical form of an address is canonical, and a canonical address is its own
/// canonical form.
pub proof fn lemma_canonicalize(x: u64)
    ensures
        is_canonical(canonicalize_spec(x)),
        is_canonical(x) <==> canonicalize_spec(x) == x,
        canonicalize_spec(canonicalize_spec(x)) == canonicalize_spec(x),
        canonicalize_spec(x) & 0x0000_FFFF_FFFF_FFFF == x & 0x0000_FFFF_FFFF_FFFF,
{
    assert(is_canonical(canonicalize_spec(x))) by (bit_vector);
    assert(is_canonical(x) <==> canonicalize_spec(x) == x) by (bit_vector);
    assert(canonicalize_spec(canonicalize_spec(x)) == canonicalize_spec(x)) by (bit_vector);
    assert(canonicalize_spec(x) & 0x0000_FFFF_FFFF_FFFF == x & 0x0000_FFFF_FFFF_FFFF) by (bit_vector);
}

fn canonicalize(x: u64) -> (r: u64)
    ensures
        r == canonicalize_spec(x),
{
    if x & 0x0000_8000_0000_0000 != 0 {
        x | 0xFFFF_0000_0000_0000
    } else {
        x & 0x0000_FFFF_FFFF_FFFF
    }
}

/// Physical memory address.
#[derive(Debug, Clone, Copy, PartialEq, Eq, Structural)]
pub struct PhysAddr(pub u64);

/// Virtual memory address.
#[derive(Debug, Clone, Copy, PartialEq, Eq, Structural)]
pub struct VirtAddr(pub u64);

/// A 4 KiB physical frame, given by its frame number.
#[derive(Debug, Clone, Copy, PartialEq, Eq, Structural)]
pub struct PhysFrame(pub u64);

impl PhysAddr {
    /// Create a new physical address; bits 52..64 must be clear.
    pub fn new(addr: u64) -> (r: Self)
        requires
            addr < PHYS_ADDR_LIMIT,
        ensures
            r.0 == addr,
    {
        PhysAddr(addr)
    }

    /// Create without validation: the address is kept as given.
    pub fn new_unchecked(addr: u64) -> (r: Self)
        ensures
            r.0 == addr,
    {
        PhysAddr(addr)
    }

    pub fn as_u64(self) -> (r: u64)
        ensures
            r == self.0,
    {
        self.0
    }

    /// Whether the low bits selected by `alignment - 1` are clear; for a power-of-two
    /// alignment, whether the address is a multiple of it.
    pub fn is_aligned(self, alignment: u64) -> (r: bool)
        requires
            alignment > 0,
        ensures
            r == (self.0 & ((alignment - 1) as u64) == 0),
            is_pow2(alignment) ==> (r == (self.0 % alignment == 0)),
    {
        proof {
            if is_pow2(alignment) {
                lemma_pow2_mask_is_mod(self.0, alignment);
            }
        }
        self.0 & (alignment - 1) == 0
    }

    /// Whether the address is a multiple of the page size.
    pub fn is_page_aligned(self) -> (r: bool)
        ensures
            r == (self.0 % PAGE_SIZE == 0),
    {
        proof { lemma_page_size_pow2(); }
        self.is_aligned(PAGE_SIZE)
    }

    /// Round up to the next multiple of a power-of-two alignment.
    pub fn align_up(self, alignment: u64) -> (r: Self)
        requires
            alignment > 0,
            self.0 + alignment - 1 <= u64::MAX,
        ensures
            r.0 == ((self.0 + alignment - 1) as u64) & !((alignment - 1) as u64),
            is_pow2(alignment) ==> r.0 == align_up_spec(self.0 as int, alignment as int),
    {
        proof {
            if is_pow2(alignment) {
                lemma_pow2_mask_is_mod((self.0 + alignment - 1) as u64, alignment);
            }
        }
        PhysAddr((self.0 + (alignment - 1)) & !(alignment - 1))
    }

    /// Round down to a multiple of a power-of-two alignment.
    pub fn align_down(self, alignment: u64) -> (r: Self)
        requires
            alignment > 0,
        ensures
            r.0 == self.0 & !((alignment - 1) as u64),
            is_pow2(alignment) ==> r.0 == align_down_spec(self.0 as int, alignment as int),
    {
        proof {
            if is_pow2(alignment) {
                lemma_pow2_mask_is_mod(self.0, alignment);
            }
        }
        PhysAddr(self.0 & !(alignment - 1))
    }

    /// The physical frame that contains this address.
    pub fn containing_frame(self) -> (r: PhysFrame)
        ensures
            r.0 == self.0 / PAGE_SIZE,
    {
        let x = self.0;
        assert(x >> 12u64 == x / 4096) by (bit_vector);
        PhysFrame(x >> PAGE_SHIFT)
    }
}

impl VirtAddr {
    /// Create a new canonical virtual address; the address must be canonical.
    pub fn new(addr: u64) -> (r: Self)
        requires
            is_canonical(addr),
        ensures
            r.0 == addr,
    {
        VirtAddr(addr)
    }

    /// Create without validation.
    pub fn new_unchecked(addr: u64) -> (r: Self)
        ensures
            r.0 == addr,
    {
        VirtAddr(addr)
    }

    /// Force an address into canonical form by sign-extending bit 47.
    pub fn new_canonicalize(addr: u64) -> (r: Self)
        ensures
            r.0 == canonicalize_spec(addr),
            is_canonical(r.0),
            is_canonical(addr) ==> r.0 == addr,
    {
        proof { lemma_canonicalize(addr); }
        VirtAddr(canonicalize(addr))
    }

    pub fn as_u64(self) -> (r: u64)
        ensures
            r == self.0,
    {
        self.0
    }

    /// Whether the low bits selected by `alignment - 1` are clear; for a power-of-two
    /// alignment, whether the address is a multiple of it.
    pub fn is_aligned(self, alignment: u64) -> (r: bool)
        requires
            alignment > 0,
        ensures
            r == (self.0 & ((alignment - 1) as u64) == 0),
            is_pow2(alignment) ==> (r == (self.0 % alignment == 0)),
    {
        proof {
            if is_pow2(alignment) {
                lemma_pow2_mask_is_mod(self.0, alignment);
            }
        }
        self.0 & (alignment - 1) == 0
    }

    /// Round up to a multiple of the alignment, then canonicalize.
    pub fn align_up(self, alignment: u64) -> (r: Self)
        requires
            alignment > 0,
            self.0 + alignment - 1 <= u64::MAX,
        ensures
            r.0 == canonicalize_spec(((self.0 + alignment - 1) as u64) & !((alignment - 1) as u64)),
            is_pow2(alignment) ==> r.0 == canonicalize_spec(
                align_up_spec(self.0 as int, alignment as int) as u64,
            ),
    {
        proof {
            if is_pow2(alignment) {
                lemma_pow2_mask_is_mod((self.0 + alignment - 1) as u64, alignment);
            }
        }
        Self::new_canonicalize((self.0 + (alignment - 1)) & !(alignment - 1))
    }

    /// Round down to a multiple of the alignment, then canonicalize.
    pub fn align_down(self, alignment: u64) -> (r: Self)
        requires
            alignment > 0,
        ensures
            r.0 == canonicalize_spec(self.0 & !((alignment - 1) as u64)),
            is_pow2(alignment) ==> r.0 == canonicalize_spec(
                align_down_spec(self.0 as int, alignment as int) as u64,
            ),
    {
        proof {
            if is_pow2(alignment) {
                lemma_pow2_mask_is_mod(self.0, alignment);
            }
        }
        Self::new_canonicalize(self.0 & !(alignment - 1))
    }

    /// Index into the level-4 page table: bits 39..48.
    pub fn p4_index(self) -> (r: usize)
        ensures
            r == (self.0 / 0x80_0000_0000) % 512,
            r < 512,
    {
        let x = self.0;
        assert((x >> 39u64) & 0x1FF == (x / 0x80_0000_0000) % 512) by (bit_vector);
        ((x >> 39) & 0x1FF) as usize
    }

    /// Index into the level-3 page table: bits 30..39.
    pub fn p3_index(self) -> (r: usize)
        ensures
            r == (self.0 / 0x4000_0000) % 512,
            r < 512,
    {
        let x = self.0;
        assert((x >> 30u64) & 0x1FF == (x / 0x4000_0000) % 512) by (bit_vector);
        ((x >> 30) & 0x1FF) as usize
    }

    /// Index into the level-2 page table: bits 21..30.
    pub fn p2_index(self) -> (r: usize)
        ensures
            r == (self.0 / 0x20_0000) % 512,
            r < 512,
    {
        let x = self.0;
        assert((x >> 21u64) & 0x1FF == (x / 0x20_0000) % 512) by (bit_vector);
        ((x >> 21) & 0x1FF) as usize
    }

    /// Index into the level-1 page table: bits 12..21.
    pub fn p1_index(self) -> (r: usize)
        ensures
            r == (self.0 / 0x1000) % 512,
            r < 512,
    {
        let x = self.0;
        assert((x >> 12u64) & 0x1FF == (x / 0x1000) % 512) by (bit_vector);
        ((x >> 12) & 0x1FF) as usize
    }

    /// Offset of the address within its page.
    pub fn page_offset(self) -> (r: u64)
        ensures
            r == self.0 % PAGE_SIZE,
    {
        let x = self.0;
        assert(x & 0xFFF == x % 4096) by (bit_vector);
        x & 0xFFF
    }

    /// The address moved by `offset` bytes, wrapping around, then canonicalized.
    pub fn offset(self, offset: u64) -> (r: Self)
        ensures
            r.0 == canonicalize_spec(((self.0 + offset) % 0x1_0000_0000_0000_0000) as u64),
    {
        Self::new_canonicalize(self.0.wrapping_add(offset))
    }
}

impl PhysFrame {
    /// Create from a frame number.
    pub fn from_number(n: u64) -> (r: Self)
        ensures
            r.0 == n,
    {
        PhysFrame(n)
    }

    /// The frame that contains the given physical address.
    pub fn containing_address(addr: PhysAddr) -> (r: Self)
        ensures
            r.0 == addr.0 / PAGE_SIZE,
    {
        addr.containing_frame()
    }

    pub fn number(self) -> (r: u64)
        ensures
            r == self.0,
    {
        self.0
    }

    /// Start address of this frame (the frame number shifted by the page size; bits
    /// beyond 64 are lost).
    pub fn start_address(self) -> (r: PhysAddr)
        ensures
            r.0 == self.0 << 12u64,
            self.0 < PHYS_ADDR_LIMIT / PAGE_SIZE ==> r.0 == self.0 * PAGE_SIZE,
            self.0 < PHYS_ADDR_LIMIT / PAGE_SIZE ==> r.0 < PHYS_ADDR_LIMIT,
    {
        let n = self.0;
        assert(n < 0x1_0000_0000_0000 ==> n << 12u64 == n * 4096) by (bit_vector);
        PhysAddr::new_unchecked(n << PAGE_SHIFT)
    }

    /// The frame after this one.
    pub fn next(self) -> (r: Self)
        requires
            self.0 < u64::MAX,
        ensures
            r.0 == self.0 + 1,
    {
        PhysFrame(self.0 + 1)
    }
}

/// The frame of a frame's start address is that frame, and the start address of the
/// frame containing an address is that address rounded down to the page size.
pub proof fn lemma_frame_address_roundtrip(f: PhysFrame, a: PhysAddr)
    requires
        f.0 < PHYS_ADDR_LIMIT / PAGE_SIZE,
    ensures
        (f.0 * PAGE_SIZE) / (PAGE_SIZE as int) == f.0,
        ((a.0 / PAGE_SIZE) * PAGE_SIZE) as int == align_down_spec(a.0 as int, PAGE_SIZE as int),
{
    vstd::arithmetic::div_mod::lemma_div_by_multiple(f.0 as int, PAGE_SIZE as int);
    vstd::arithmetic::div_mod::lemma_fundamental_div_mod(a.0 as int, PAGE_SIZE as int);
}

pub proof fn lemma_page_size_pow2()
    ensures
        is_pow2(PAGE_SIZE),
{
    vstd::arithmetic::power2::lemma2_to64();
    assert(PAGE_SIZE == pow2(12));
}

} // verus!
