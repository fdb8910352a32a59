//! ELF64 executable parsing.
use vstd::prelude::*;
use crate::errno::Errno;
use crate::bytes::{le16, le32, le64, read16, read32, read64};

verus! {

/// ELF class: 64-bit.
pub const ELFCLASS64: u8 = 2;
/// ELF data encoding: little-endian.
pub const ELFDATA2LSB: u8 = 1;
/// ELF type: executable.
pub const ET_EXEC: u16 = 2;
/// ELF machine: x86_64.
pub const EM_X86_64: u16 = 62;
/// Program header type: loadable segment.
pub const PT_LOAD: u32 = 1;

/// Program header flags.
pub const PF_X: u32 = 1;
pub const PF_W: u32 = 2;
pub const PF_R: u32 = 4;

/// Size in bytes of the ELF64 file header.
pub const EHDR_SIZE: usize = 64;
/// Size in bytes of an ELF64 program header.
pub const PHDR_SIZE: usize = 56;
/// Lowest kernel address: user segments and entry points lie below it.
pub const KERNEL_BASE: u64 = 0xFFFF_8000_0000_0000;

/// ELF64 file header.
#[derive(Debug, Clone, Copy)]
pub struct Elf64Header {
    pub e_ident: [u8; 16],
    pub e_type: u16,
    pub e_machine: u16,
    pub e_version: u32,
    pub e_entry: u64,
    pub e_phoff: u64,
    pub e_shoff: u64,
    pub e_flags: u32,
    pub e_ehsize: u16,
    pub e_phentsize: u16,
    pub e_phnum: u16,
    pub e_shentsize: u16,
    pub e_shnum: u16,
    pub e_shstrndx: u16,
}

/// ELF64 program header.
#[derive(Debug, Clone, Copy, PartialEq, Eq, Structural)]
pub struct Elf64Phdr {
    pub p_type: u32,
    pub p_flags: u32,
    pub p_offset: u64,
    pub p_vaddr: u64,
    pub p_paddr: u64,
    pub p_filesz: u64,
    pub p_memsz: u64,
    pub p_align: u64,
}

impl Elf64Header {
    /// Decode the header at the start of `d`.
    pub fn read(d: &[u8]) -> (h: Self)
        requires
            d@.len() >= EHDR_SIZE,
        ensures
            forall|i: int| 0 <= i < 16 ==> h.e_ident[i] == d@[i],
            h.e_type == le16(d@, 16),
            h.e_machine == le16(d@, 18),
            h.e_version == le32(d@, 20),
            h.e_entry == le64(d@, 24),
            h.e_phoff == le64(d@, 32),
            h.e_shoff == le64(d@, 40),
            h.e_flags == le32(d@, 48),
            h.e_ehsize == le16(d@, 52),
            h.e_phentsize == le16(d@, 54),
            h.e_phnum == le16(d@, 56),
            h.e_shentsize == le16(d@, 58),
            h.e_shnum == le16(d@, 60),
            h.e_shstrndx == le16(d@, 62),
    {
        let e_ident = [
            d[0], d[1], d[2], d[3], d[4], d[5], d[6], d[7],
            d[8], d[9], d[10], d[11], d[12], d[13], d[14], d[15],
        ];
        Elf64Header {
            e_ident,
            e_type: read16(d, 16),
            e_machine: read16(d, 18),
            e_version: read32(d, 20),
            e_entry: read64(d, 24),
            e_phoff: read64(d, 32),
            e_shoff: read64(d, 40),
            e_flags: read32(d, 48),
            e_ehsize: read16(d, 52),
            e_phentsize: read16(d, 54),
            e_phnum: read16(d, 56),
            e_shentsize: read16(d, 58),
            e_shnum: read16(d, 60),
            e_shstrndx: read16(d, 62),
        }
    }
}

/// The program header at byte offset `o`, decoded.
pub open spec fn phdr_spec(d: Seq<u8>, o: int) -> Elf64Phdr {
    Elf64Phdr {
        p_type: le32(d, o),
        p_flags: le32(d, o + 4),
        p_offset: le64(d, o + 8),
        p_vaddr: le64(d, o + 16),
        p_paddr: le64(d, o + 24),
        p_filesz: le64(d, o + 32),
        p_memsz: le64(d, o + 40),
        p_align: le64(d, o + 48),
    }
}

impl Elf64Phdr {
    /// Decode the program header at byte offset `o`.
    pub fn read(d: &[u8], o: usize) -> (p: Self)
        requires
            o + PHDR_SIZE <= d@.len(),
        ensures
            p == phdr_spec(d@, o as int),
    {
        let _n = d.len();
        Elf64Phdr {
            p_type: read32(d, o),
            p_flags: read32(d, o + 4),
            p_offset: read64(d, o + 8),
            p_vaddr: read64(d, o + 16),
            p_paddr: read64(d, o + 24),
            p_filesz: read64(d, o + 32),
            p_memsz: read64(d, o + 40),
            p_align: read64(d, o + 48),
        }
    }
}

/// A loadable ELF segment.
#[derive(Debug, Clone, Copy, PartialEq, Eq, Structural)]
pub struct ElfSegment {
    pub vaddr: u64,
    pub memsz: u64,
    pub filesz: u64,
    pub offset: u64,
    pub flags: u32,
}

impl ElfSegment {
    pub fn is_executable(&self) -> (r: bool)
        ensures
            r == (self.flags & PF_X != 0),
    {
        self.flags & PF_X != 0
    }

    pub fn is_writable(&self) -> (r: bool)
        ensures
            r == (self.flags & PF_W != 0),
    {
        self.flags & PF_W != 0
    }
}

/// Parsed ELF information ready for loading.
#[derive(Debug)]
pub struct ElfInfo {
    pub entry_point: u64,
    pub segments: Vec<ElfSegment>,
}

/// Whether the file header identifies a 64-bit little-endian x86_64 executable whose
/// program header entries are large enough.
pub open spec fn header_ok(d: Seq<u8>) -> bool {
    &&& d.len() >= EHDR_SIZE
    &&& d[0] == 0x7F && d[1] == 0x45 && d[2] == 0x4C && d[3] == 0x46
    &&& d[4] == ELFCLASS64
    &&& d[5] == ELFDATA2LSB
    &&& le16(d, 16) == ET_EXEC
    &&& le16(d, 18) == EM_X86_64
    &&& le16(d, 54) >= PHDR_SIZE
}

/// Byte offset of program header `i`.
pub open spec fn phdr_offset(d: Seq<u8>, i: int) -> int {
    le64(d, 32) + i * le16(d, 54)
}

/// Whether program header `i` lies within the file and, if loadable, is acceptable:
/// contents within the file, not both writable and executable, below the kernel.
pub open spec fn phdr_ok(d: Seq<u8>, i: int) -> bool {
    let o = phdr_offset(d, i);
    &&& o + PHDR_SIZE <= d.len()
    &&& phdr_spec(d, o).p_type == PT_LOAD ==> {
        let p = phdr_spec(d, o);
        &&& p.p_offset + p.p_filesz <= d.len()
        &&& !(p.p_flags & PF_W != 0 && p.p_flags & PF_X != 0)
        &&& p.p_vaddr < KERNEL_BASE
    }
}

/// The segment described by a loadable program header.
pub open spec fn segment_of(p: Elf64Phdr) -> ElfSegment {
    ElfSegment { vaddr: p.p_vaddr, memsz: p.p_memsz, filesz: p.p_filesz, offset: p.p_offset, flags: p.p_flags }
}

/// The loadable segments among the first `n` program headers, in order.
pub open spec fn load_segments(d: Seq<u8>, n: nat) -> Seq<ElfSegment>
    decreases n,
{
    if n == 0 {
        Seq::empty()
    } else {
        let p = phdr_spec(d, phdr_offset(d, n - 1));
        let prev = load_segments(d, (n - 1) as nat);
        if p.p_type == PT_LOAD {
            prev.push(segment_of(p))
        } else {
            prev
        }
    }
}

/// Whether `d` is an executable this kernel can load.
pub open spec fn elf_valid(d: Seq<u8>) -> bool {
    &&& header_ok(d)
    &&& forall|i: int| 0 <= i < le16(d, 56) ==> #[trigger] phdr_ok(d, i)
    &&& load_segments(d, le16(d, 56) as nat).len() > 0
    &&& le64(d, 24) < KERNEL_BASE
}

/// Validate and parse an ELF64 executable from a byte buffer: the entry point and
/// the loadable segments in program header order. Any defect gives `ENOEXEC`.
pub fn parse(data: &[u8]) -> (r: Result<ElfInfo, Errno>)
    ensures
        elf_valid(data@) ==> (r matches Ok(info) && info.entry_point == le64(data@, 24)
            && info.segments@ == load_segments(data@, le16(data@, 56) as nat)),
        !elf_valid(data@) ==> (r matches Err(e) && e == Errno::ENOEXEC),
{
    if data.len() < EHDR_SIZE {
        return Err(Errno::ENOEXEC);
    }
    let header = Elf64Header::read(data);
    if header.e_ident[0] != 0x7F || header.e_ident[1] != 0x45 || header.e_ident[2] != 0x4C
        || header.e_ident[3] != 0x46 {
        return Err(Errno::ENOEXEC);
    }
    if header.e_ident[4] != ELFCLASS64 {
        return Err(Errno::ENOEXEC);
    }
    if header.e_ident[5] != ELFDATA2LSB {
        return Err(Errno::ENOEXEC);
    }
    if header.e_type != ET_EXEC {
        return Err(Errno::ENOEXEC);
    }
    if header.e_machine != EM_X86_64 {
        return Err(Errno::ENOEXEC);
    }
    let phoff = header.e_phoff;
    let phentsize = header.e_phentsize as u64;
    let phnum = header.e_phnum;
    if phentsize < PHDR_SIZE as u64 {
        return Err(Errno::ENOEXEC);
    }
    let len = data.len() as u64;
    proof {
        assert(phoff == le64(data@, 32));
    }
    let mut segments: Vec<ElfSegment> = Vec::new();
    let mut i: u16 = 0;
    while i < phnum
        invariant
            header_ok(data@),
            phoff == le64(data@, 32),
            phentsize == le16(data@, 54),
            phnum == le16(data@, 56),
            len == data@.len(),
            data@.len() <= usize::MAX,
            i <= phnum,
            forall|j: int| 0 <= j < i ==> #[trigger] phdr_ok(data@, j),
            segments@ == load_segments(data@, i as nat),
        decreases phnum - i,
    {
        // offset = phoff + i * phentsize, with anything past the file rejected
        proof {
            assert((i as int) * (phentsize as int) <= 65535 * 65535) by (nonlinear_arith)
                requires
                    i <= 65535,
                    phentsize <= 65535,
            ;
        }
        let step = (i as u64) * phentsize;
        proof {
            assert(step == i * le16(data@, 54));
        }
        if phoff > len || step > len - phoff || len - phoff - step < PHDR_SIZE as u64 {
            proof {
                assert(!phdr_ok(data@, i as int));
            }
            return Err(Errno::ENOEXEC);
        }
        let offset = (phoff + step) as usize;
        let phdr = Elf64Phdr::read(data, offset);
        proof {
            assert(offset as int == phdr_offset(data@, i as int));
            assert(phdr == phdr_spec(data@, phdr_offset(data@, i as int)));
        }
        if phdr.p_type == PT_LOAD {
            if phdr.p_offset > len || phdr.p_filesz > len - phdr.p_offset {
                proof {
                    assert(!phdr_ok(data@, i as int));
                }
                return Err(Errno::ENOEXEC);
            }
            if phdr.p_flags & PF_W != 0 && phdr.p_flags & PF_X != 0 {
                proof {
                    assert(!phdr_ok(data@, i as int));
                }
                return Err(Errno::ENOEXEC);
            }
            if phdr.p_vaddr >= KERNEL_BASE {
                proof {
                    assert(!phdr_ok(data@, i as int));
                }
                return Err(Errno::ENOEXEC);
            }
            segments.push(
                ElfSegment {
                    vaddr: phdr.p_vaddr,
                    memsz: phdr.p_memsz,
                    filesz: phdr.p_filesz,
                    offset: phdr.p_offset,
                    flags: phdr.p_flags,
                },
            );
        }
        proof {
            assert(phdr_ok(data@, i as int));
        }
        i += 1;
    }
    if segments.len() == 0 {
        return Err(Errno::ENOEXEC);
    }
    if header.e_entry >= KERNEL_BASE {
        return Err(Errno::ENOEXEC);
    }
    Ok(ElfInfo { entry_point: header.e_entry, segments })
}

/// Every segment of an accepted executable is writable or executable but not both,
/// lies in user space, and has its file contents within the file.
pub proof fn lemma_parsed_segments_safe(d: Seq<u8>)
    requires
        elf_valid(d),
    ensures
        forall|k: int| 0 <= k < load_segments(d, le16(d, 56) as nat).len() ==> {
            let s = #[trigger] load_segments(d, le16(d, 56) as nat)[k];
            &&& !(s.flags & PF_W != 0 && s.flags & PF_X != 0)
            &&& s.vaddr < KERNEL_BASE
            &&& s.offset + s.filesz <= d.len()
        },
{
    lemma_load_segments_safe(d, le16(d, 56) as nat);
}

proof fn lemma_load_segments_safe(d: Seq<u8>, n: nat)
    requires
        forall|i: int| 0 <= i < n ==> #[trigger] phdr_ok(d, i),
    ensures
        forall|k: int| 0 <= k < load_segments(d, n).len() ==> {
            let s = #[trigger] load_segments(d, n)[k];
            &&& !(s.flags & PF_W != 0 && s.flags & PF_X != 0)
            &&& s.vaddr < KERNEL_BASE
            &&& s.offset + s.filesz <= d.len()
        },
    decreases n,
{
    if n > 0 {
        lemma_load_segments_safe(d, (n - 1) as nat);
        assert(phdr_ok(d, n - 1));
        let prev = load_segments(d, (n - 1) as nat);
        let p = phdr_spec(d, phdr_offset(d, n - 1));
        let cur = load_segments(d, n);
        assert forall|k: int| 0 <= k < cur.len() implies {
            let s = #[trigger] cur[k];
            &&& !(s.flags & PF_W != 0 && s.flags & PF_X != 0)
            &&& s.vaddr < KERNEL_BASE
            &&& s.offset + s.filesz <= d.len()
        } by {
            if k < prev.len() {
                assert(cur[k] == prev[k]);
            } else {
                assert(p.p_type == PT_LOAD);
                assert(cur[k] == segment_of(p));
            }
        }
    }
}

} // verus!
