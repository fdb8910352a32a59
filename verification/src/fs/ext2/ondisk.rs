//! ext2 on-disk structures.
use vstd::prelude::*;
use crate::bytes::{le16, le32, read16, read32, byte16, byte32, byte16_exec, byte32_exec, lemma_le16_bytes, lemma_le32_bytes};

verus! {

/// ext2 on-disk superblock (at byte offset 1024). The padding to 1024 bytes is not kept.
#[derive(Debug, Clone, Copy)]
pub struct Superblock {
    pub inodes_count: u32,
    pub blocks_count: u32,
    pub r_blocks_count: u32,
    pub free_blocks_count: u32,
    pub free_inodes_count: u32,
    pub first_data_block: u32,
    pub log_block_size: u32,
    pub log_frag_size: u32,
    pub blocks_per_group: u32,
    pub frags_per_group: u32,
    pub inodes_per_group: u32,
    pub mtime: u32,
    pub wtime: u32,
    pub mnt_count: u16,
    pub max_mnt_count: u16,
    pub magic: u16,
    pub state: u16,
    pub errors: u16,
    pub minor_rev_level: u16,
    pub lastcheck: u32,
    pub checkinterval: u32,
    pub creator_os: u32,
    pub rev_level: u32,
    pub def_resuid: u16,
    pub def_resgid: u16,
    pub first_ino: u32,
    pub inode_size: u16,
    pub block_group_nr: u16,
    pub feature_compat: u32,
    pub feature_incompat: u32,
    pub feature_ro_compat: u32,
    pub uuid: [u8; 16],
    pub volume_name: [u8; 16],
    pub last_mounted: [u8; 64],
    pub algo_bitmap: u32,
}

pub const EXT2_MAGIC: u16 = 0xEF53;

impl Superblock {
    /// Block size in bytes: 1024 shifted left by `log_block_size`.
    pub fn block_size(&self) -> (r: u32)
        requires
            self.log_block_size < 32,
        ensures
            r == 1024u32 << self.log_block_size,
    {
        1024u32 << self.log_block_size
    }

    /// Number of block groups: the blocks divided by blocks per group, rounded up.
    pub fn block_group_count(&self) -> (r: u32)
        requires
            self.blocks_per_group > 0,
        ensures
            r as int == (self.blocks_count as int + self.blocks_per_group - 1) / (self.blocks_per_group as int),
    {
        let q = self.blocks_count / self.blocks_per_group;
        if self.blocks_count % self.blocks_per_group == 0 {
            proof {
                vstd::arithmetic::div_mod::lemma_fundamental_div_mod(self.blocks_count as int, self.blocks_per_group as int);
                lemma_div_ceil(self.blocks_count as int, self.blocks_per_group as int);
            }
            q
        } else {
            proof {
                vstd::arithmetic::div_mod::lemma_fundamental_div_mod(self.blocks_count as int, self.blocks_per_group as int);
                lemma_div_ceil(self.blocks_count as int, self.blocks_per_group as int);
                let b = self.blocks_per_group as int;
                let c = self.blocks_count as int;
                assert(b >= 2);
                assert(q * b <= c) by (nonlinear_arith)
                    requires
                        c == b * (c / b) + c % b,
                        c % b >= 0,
                        q == c / b,
                ;
                assert(q < 0xFFFF_FFFF) by (nonlinear_arith)
                    requires
                        q * b <= c,
                        b >= 2,
                        c < 0x1_0000_0000,
                        q >= 0,
                ;
            }
            q + 1
        }
    }

    /// Inode size in bytes: 128 before revision 1, else the recorded size.
    pub fn inode_size(&self) -> (r: u32)
        ensures
            r == (if self.rev_level >= 1 { self.inode_size as u32 } else { 128 }),
    {
        if self.rev_level >= 1 {
            self.inode_size as u32
        } else {
            128
        }
    }
}

/// Rounding up a quotient: `(x + d - 1) / d` is `x / d`, plus one when `d` does not
/// divide `x`.
pub proof fn lemma_div_ceil(x: int, d: int)
    requires
        x >= 0,
        d > 0,
    ensures
        (x + d - 1) / d == x / d + (if x % d == 0 { 0int } else { 1int }),
{
    vstd::arithmetic::div_mod::lemma_fundamental_div_mod(x, d);
    vstd::arithmetic::div_mod::lemma_fundamental_div_mod(x + d - 1, d);
    vstd::arithmetic::div_mod::lemma_mod_bound(x, d);
    vstd::arithmetic::div_mod::lemma_mod_bound(x + d - 1, d);
    let q = x / d;
    let r = x % d;
    vstd::arithmetic::mul::lemma_mul_is_commutative(d, q);
    if r == 0 {
        vstd::arithmetic::div_mod::lemma_fundamental_div_mod_converse(x + d - 1, d, q, d - 1);
    } else {
        assert(x + d - 1 == (q + 1) * d + (r - 1)) by (nonlinear_arith)
            requires
                x == d * q + r,
        ;
        vstd::arithmetic::div_mod::lemma_fundamental_div_mod_converse(x + d - 1, d, q + 1, r - 1);
    }
}

/// Block Group Descriptor.
#[derive(Debug, Clone, Copy)]
pub struct BlockGroupDesc {
    pub block_bitmap: u32,
    pub inode_bitmap: u32,
    pub inode_table: u32,
    pub free_blocks_count: u16,
    pub free_inodes_count: u16,
    pub used_dirs_count: u16,
    pub pad: u16,
    pub reserved: [u8; 12],
}

/// On-disk inode.
#[derive(Debug, Clone, Copy)]
pub struct DiskInode {
    pub mode: u16,
    pub uid: u16,
    pub size: u32,
    pub atime: u32,
    pub ctime: u32,
    pub mtime: u32,
    pub dtime: u32,
    pub gid: u16,
    pub links_count: u16,
    /// In 512-byte units.
    pub blocks: u32,
    pub flags: u32,
    pub osd1: u32,
    /// 0-11: direct, 12: indirect, 13: double indirect, 14: triple indirect.
    pub block: [u32; 15],
    pub generation: u32,
    pub file_acl: u32,
    /// High 32 bits of the size, for regular files in revision 1.
    pub dir_acl: u32,
    pub faddr: u32,
    pub osd2: [u8; 12],
}

/// File type bits in inode mode.
pub const S_IFMT: u16 = 0xF000;
pub const S_IFREG: u16 = 0x8000;
pub const S_IFDIR: u16 = 0x4000;
pub const S_IFLNK: u16 = 0xA000;
pub const S_IFCHR: u16 = 0x2000;
pub const S_IFBLK: u16 = 0x6000;

impl DiskInode {
    pub fn file_type(&self) -> (r: u16)
        ensures
            r == self.mode & S_IFMT,
    {
        self.mode & S_IFMT
    }

    pub fn is_dir(&self) -> (r: bool)
        ensures
            r == (self.mode & S_IFMT == S_IFDIR),
    {
        self.file_type() == S_IFDIR
    }

    pub fn is_regular(&self) -> (r: bool)
        ensures
            r == (self.mode & S_IFMT == S_IFREG),
    {
        self.file_type() == S_IFREG
    }

    pub fn is_symlink(&self) -> (r: bool)
        ensures
            r == (self.mode & S_IFMT == S_IFLNK),
    {
        self.file_type() == S_IFLNK
    }

    /// The full 64-bit file size: regular files keep the high half in `dir_acl`.
    pub fn size64(&self) -> (r: u64)
        ensures
            r == (if self.mode & S_IFMT == S_IFREG {
                self.dir_acl as int * 0x1_0000_0000 + self.size as int
            } else {
                self.size as int
            }),
    {
        if self.is_regular() {
            let hi = self.dir_acl as u64;
            let lo = self.size as u64;
            assert((hi << 32u64) | lo == hi * 0x1_0000_0000 + lo) by (bit_vector)
                requires
                    hi < 0x1_0000_0000,
                    lo < 0x1_0000_0000,
            ;
            (hi << 32) | lo
        } else {
            self.size as u64
        }
    }
}

/// On-disk directory entry header; the name follows it (up to 255 bytes).
#[derive(Debug, Clone, Copy, PartialEq, Eq, Structural)]
pub struct DirEntry {
    pub inode: u32,
    pub rec_len: u16,
    pub name_len: u8,
    pub file_type: u8,
}

/// Directory entry file type values.
pub const FT_UNKNOWN: u8 = 0;
pub const FT_REG_FILE: u8 = 1;
pub const FT_DIR: u8 = 2;
pub const FT_CHRDEV: u8 = 3;
pub const FT_BLKDEV: u8 = 4;
pub const FT_SYMLINK: u8 = 7;

/// Root inode number is always 2 in ext2.
pub const ROOT_INODE: u32 = 2;


/// Size in bytes of an on-disk block group descriptor.
pub const BGD_SIZE: usize = 32;

/// Size in bytes of the inode structure.
pub const DISK_INODE_SIZE: usize = 128;

/// Size in bytes of a directory entry header.
pub const DIR_ENTRY_HEADER: usize = 8;

fn copy_bytes16(d: &[u8], o: usize) -> (r: [u8; 16])
    requires
        o + 16 <= d@.len(),
    ensures
        r@ == d@.subrange(o as int, o + 16),
{
    let mut a: [u8; 16] = [0u8; 16];
    let mut i: usize = 0;
    let len = d.len();
    while i < 16
        invariant
            i <= 16,
            len == d@.len(),
            o + 16 <= d@.len(),
            forall|k: int| 0 <= k < i ==> a@[k] == d@[o + k],
        decreases 16 - i,
    {
        a[i] = d[o + i];
        i = i + 1;
    }
    assert(a@ =~= d@.subrange(o as int, o + 16));
    a
}

fn copy_bytes64(d: &[u8], o: usize) -> (r: [u8; 64])
    requires
        o + 64 <= d@.len(),
    ensures
        r@ == d@.subrange(o as int, o + 64),
{
    let mut a: [u8; 64] = [0u8; 64];
    let mut i: usize = 0;
    let len = d.len();
    while i < 64
        invariant
            i <= 64,
            len == d@.len(),
            o + 64 <= d@.len(),
            forall|k: int| 0 <= k < i ==> a@[k] == d@[o + k],
        decreases 64 - i,
    {
        a[i] = d[o + i];
        i = i + 1;
    }
    assert(a@ =~= d@.subrange(o as int, o + 64));
    a
}

fn copy_bytes12(d: &[u8], o: usize) -> (r: [u8; 12])
    requires
        o + 12 <= d@.len(),
    ensures
        r@ == d@.subrange(o as int, o + 12),
{
    let mut a: [u8; 12] = [0u8; 12];
    let mut i: usize = 0;
    let len = d.len();
    while i < 12
        invariant
            i <= 12,
            len == d@.len(),
            o + 12 <= d@.len(),
            forall|k: int| 0 <= k < i ==> a@[k] == d@[o + k],
        decreases 12 - i,
    {
        a[i] = d[o + i];
        i = i + 1;
    }
    assert(a@ =~= d@.subrange(o as int, o + 12));
    a
}

impl Superblock {
    /// The superblock laid out in `d` (little-endian, fields in on-disk order).
    pub open spec fn parsed_from(self, d: Seq<u8>) -> bool {
        &&& self.inodes_count == le32(d, 0)
        &&& self.blocks_count == le32(d, 4)
        &&& self.r_blocks_count == le32(d, 8)
        &&& self.free_blocks_count == le32(d, 12)
        &&& self.free_inodes_count == le32(d, 16)
        &&& self.first_data_block == le32(d, 20)
        &&& self.log_block_size == le32(d, 24)
        &&& self.log_frag_size == le32(d, 28)
        &&& self.blocks_per_group == le32(d, 32)
        &&& self.frags_per_group == le32(d, 36)
        &&& self.inodes_per_group == le32(d, 40)
        &&& self.mtime == le32(d, 44)
        &&& self.wtime == le32(d, 48)
        &&& self.mnt_count == le16(d, 52)
        &&& self.max_mnt_count == le16(d, 54)
        &&& self.magic == le16(d, 56)
        &&& self.state == le16(d, 58)
        &&& self.errors == le16(d, 60)
        &&& self.minor_rev_level == le16(d, 62)
        &&& self.lastcheck == le32(d, 64)
        &&& self.checkinterval == le32(d, 68)
        &&& self.creator_os == le32(d, 72)
        &&& self.rev_level == le32(d, 76)
        &&& self.def_resuid == le16(d, 80)
        &&& self.def_resgid == le16(d, 82)
        &&& self.first_ino == le32(d, 84)
        &&& self.inode_size == le16(d, 88)
        &&& self.block_group_nr == le16(d, 90)
        &&& self.feature_compat == le32(d, 92)
        &&& self.feature_incompat == le32(d, 96)
        &&& self.feature_ro_compat == le32(d, 100)
        &&& self.uuid@ == d.subrange(104, 120)
        &&& self.volume_name@ == d.subrange(120, 136)
        &&& self.last_mounted@ == d.subrange(136, 200)
        &&& self.algo_bitmap == le32(d, 200)
    }

    /// Decode the superblock from its 1024 on-disk bytes.
    pub fn parse(d: &[u8]) -> (sb: Superblock)
        requires
            d@.len() >= 1024,
        ensures
            sb.parsed_from(d@),
    {
        Superblock {
            inodes_count: read32(d, 0),
            blocks_count: read32(d, 4),
            r_blocks_count: read32(d, 8),
            free_blocks_count: read32(d, 12),
            free_inodes_count: read32(d, 16),
            first_data_block: read32(d, 20),
            log_block_size: read32(d, 24),
            log_frag_size: read32(d, 28),
            blocks_per_group: read32(d, 32),
            frags_per_group: read32(d, 36),
            inodes_per_group: read32(d, 40),
            mtime: read32(d, 44),
            wtime: read32(d, 48),
            mnt_count: read16(d, 52),
            max_mnt_count: read16(d, 54),
            magic: read16(d, 56),
            state: read16(d, 58),
            errors: read16(d, 60),
            minor_rev_level: read16(d, 62),
            lastcheck: read32(d, 64),
            checkinterval: read32(d, 68),
            creator_os: read32(d, 72),
            rev_level: read32(d, 76),
            def_resuid: read16(d, 80),
            def_resgid: read16(d, 82),
            first_ino: read32(d, 84),
            inode_size: read16(d, 88),
            block_group_nr: read16(d, 90),
            feature_compat: read32(d, 92),
            feature_incompat: read32(d, 96),
            feature_ro_compat: read32(d, 100),
            uuid: copy_bytes16(d, 104),
            volume_name: copy_bytes16(d, 120),
            last_mounted: copy_bytes64(d, 136),
            algo_bitmap: read32(d, 200),
        }
    }
}

impl BlockGroupDesc {
    /// The descriptor laid out at offset `o` of `d`.
    pub open spec fn parsed_from(self, d: Seq<u8>, o: int) -> bool {
        &&& self.block_bitmap == le32(d, o)
        &&& self.inode_bitmap == le32(d, o + 4)
        &&& self.inode_table == le32(d, o + 8)
        &&& self.free_blocks_count == le16(d, o + 12)
        &&& self.free_inodes_count == le16(d, o + 14)
        &&& self.used_dirs_count == le16(d, o + 16)
        &&& self.pad == le16(d, o + 18)
        &&& self.reserved@ == d.subrange(o + 20, o + 32)
    }

    /// Decode the descriptor at offset `o`.
    pub fn parse(d: &[u8], o: usize) -> (g: BlockGroupDesc)
        requires
            o + BGD_SIZE <= d@.len(),
        ensures
            g.parsed_from(d@, o as int),
    {
        let _n = d.len();
        BlockGroupDesc {
            block_bitmap: read32(d, o),
            inode_bitmap: read32(d, o + 4),
            inode_table: read32(d, o + 8),
            free_blocks_count: read16(d, o + 12),
            free_inodes_count: read16(d, o + 14),
            used_dirs_count: read16(d, o + 16),
            pad: read16(d, o + 18),
            reserved: copy_bytes12(d, o + 20),
        }
    }
}

impl DiskInode {
    /// The inode laid out in the first 128 bytes of `d`.
    pub open spec fn parsed_from(self, d: Seq<u8>) -> bool {
        &&& self.mode == le16(d, 0)
        &&& self.uid == le16(d, 2)
        &&& self.size == le32(d, 4)
        &&& self.atime == le32(d, 8)
        &&& self.ctime == le32(d, 12)
        &&& self.mtime == le32(d, 16)
        &&& self.dtime == le32(d, 20)
        &&& self.gid == le16(d, 24)
        &&& self.links_count == le16(d, 26)
        &&& self.blocks == le32(d, 28)
        &&& self.flags == le32(d, 32)
        &&& self.osd1 == le32(d, 36)
        &&& forall|i: int| 0 <= i < 15 ==> #[trigger] self.block@[i] == le32(d, 40 + 4 * i)
        &&& self.generation == le32(d, 100)
        &&& self.file_acl == le32(d, 104)
        &&& self.dir_acl == le32(d, 108)
        &&& self.faddr == le32(d, 112)
        &&& self.osd2@ == d.subrange(116, 128)
    }

    /// The bytes of an inode record determine the inode.
    pub proof fn lemma_parse_unique(a: DiskInode, b: DiskInode, d: Seq<u8>)
        requires
            a.parsed_from(d),
            b.parsed_from(d),
            d.len() >= DISK_INODE_SIZE,
        ensures
            a == b,
    {
        assert(a.block@ =~= b.block@);
        assert(a.osd2@ =~= b.osd2@);
        vstd::array::lemma_array_index(a.block, 0);
        assert(a.block == b.block);
        assert(a.osd2 == b.osd2);
    }

    /// Decode an inode from its on-disk bytes.
    pub fn parse(d: &[u8]) -> (ino: DiskInode)
        requires
            d@.len() >= DISK_INODE_SIZE,
        ensures
            ino.parsed_from(d@),
    {
        let mut block: [u32; 15] = [0u32; 15];
        let mut i: usize = 0;
        while i < 15
            invariant
                i <= 15,
                d@.len() >= DISK_INODE_SIZE,
                forall|k: int| 0 <= k < i ==> #[trigger] block@[k] == le32(d@, 40 + 4 * k),
            decreases 15 - i,
        {
            block[i] = read32(d, 40 + 4 * i);
            i = i + 1;
        }
        DiskInode {
            mode: read16(d, 0),
            uid: read16(d, 2),
            size: read32(d, 4),
            atime: read32(d, 8),
            ctime: read32(d, 12),
            mtime: read32(d, 16),
            dtime: read32(d, 20),
            gid: read16(d, 24),
            links_count: read16(d, 26),
            blocks: read32(d, 28),
            flags: read32(d, 32),
            osd1: read32(d, 36),
            block,
            generation: read32(d, 100),
            file_acl: read32(d, 104),
            dir_acl: read32(d, 108),
            faddr: read32(d, 112),
            osd2: copy_bytes12(d, 116),
        }
    }

    /// Byte `i` of the on-disk form of the inode.
    pub open spec fn byte_at(self, i: int) -> u8 {
        if 0 <= i < 2 {
            byte16(self.mode, i - 0)
        } else if 2 <= i < 4 {
            byte16(self.uid, i - 2)
        } else if 4 <= i < 8 {
            byte32(self.size, i - 4)
        } else if 8 <= i < 12 {
            byte32(self.atime, i - 8)
        } else if 12 <= i < 16 {
            byte32(self.ctime, i - 12)
        } else if 16 <= i < 20 {
            byte32(self.mtime, i - 16)
        } else if 20 <= i < 24 {
            byte32(self.dtime, i - 20)
        } else if 24 <= i < 26 {
            byte16(self.gid, i - 24)
        } else if 26 <= i < 28 {
            byte16(self.links_count, i - 26)
        } else if 28 <= i < 32 {
            byte32(self.blocks, i - 28)
        } else if 32 <= i < 36 {
            byte32(self.flags, i - 32)
        } else if 36 <= i < 40 {
            byte32(self.osd1, i - 36)
        } else if 40 <= i < 100 {
            byte32(self.block@[(i - 40) / 4], (i - 40) % 4)
        } else if 100 <= i < 104 {
            byte32(self.generation, i - 100)
        } else if 104 <= i < 108 {
            byte32(self.file_acl, i - 104)
        } else if 108 <= i < 112 {
            byte32(self.dir_acl, i - 108)
        } else if 112 <= i < 116 {
            byte32(self.faddr, i - 112)
        } else {
            self.osd2@[i - 116]
        }
    }

    fn byte_at_exec(&self, i: usize) -> (b: u8)
        requires
            i < DISK_INODE_SIZE,
        ensures
            b == self.byte_at(i as int),
    {
        if 0 <= i && i < 2 {
            byte16_exec(self.mode, i - 0)
        } else if 2 <= i && i < 4 {
            byte16_exec(self.uid, i - 2)
        } else if 4 <= i && i < 8 {
            byte32_exec(self.size, i - 4)
        } else if 8 <= i && i < 12 {
            byte32_exec(self.atime, i - 8)
        } else if 12 <= i && i < 16 {
            byte32_exec(self.ctime, i - 12)
        } else if 16 <= i && i < 20 {
            byte32_exec(self.mtime, i - 16)
        } else if 20 <= i && i < 24 {
            byte32_exec(self.dtime, i - 20)
        } else if 24 <= i && i < 26 {
            byte16_exec(self.gid, i - 24)
        } else if 26 <= i && i < 28 {
            byte16_exec(self.links_count, i - 26)
        } else if 28 <= i && i < 32 {
            byte32_exec(self.blocks, i - 28)
        } else if 32 <= i && i < 36 {
            byte32_exec(self.flags, i - 32)
        } else if 36 <= i && i < 40 {
            byte32_exec(self.osd1, i - 36)
        } else if 40 <= i && i < 100 {
            byte32_exec(self.block[(i - 40) / 4], (i - 40) % 4)
        } else if 100 <= i && i < 104 {
            byte32_exec(self.generation, i - 100)
        } else if 104 <= i && i < 108 {
            byte32_exec(self.file_acl, i - 104)
        } else if 108 <= i && i < 112 {
            byte32_exec(self.dir_acl, i - 108)
        } else if 112 <= i && i < 116 {
            byte32_exec(self.faddr, i - 112)
        } else {
            self.osd2[i - 116]
        }
    }

    /// The 128 on-disk bytes of the inode.
    pub fn to_bytes(&self) -> (d: Vec<u8>)
        ensures
            d@.len() == DISK_INODE_SIZE,
            self.parsed_from(d@),
    {
        let mut d: Vec<u8> = Vec::new();
        let mut i: usize = 0;
        while i < DISK_INODE_SIZE
            invariant
                i <= DISK_INODE_SIZE,
                d@.len() == i,
                forall|k: int| 0 <= k < i ==> #[trigger] d@[k] == self.byte_at(k),
            decreases DISK_INODE_SIZE - i,
        {
            d.push(self.byte_at_exec(i));
            i = i + 1;
        }
        proof {
            assert(d@[0] == self.byte_at(0) && d@[1] == self.byte_at(1));
            lemma_le16_bytes(d@, 0, self.mode);
            assert(d@[2] == self.byte_at(2) && d@[3] == self.byte_at(3));
            lemma_le16_bytes(d@, 2, self.uid);
            assert(d@[4] == self.byte_at(4) && d@[5] == self.byte_at(5) && d@[6] == self.byte_at(6) && d@[7] == self.byte_at(7));
            lemma_le32_bytes(d@, 4, self.size);
            assert(d@[8] == self.byte_at(8) && d@[9] == self.byte_at(9) && d@[10] == self.byte_at(10) && d@[11] == self.byte_at(11));
            lemma_le32_bytes(d@, 8, self.atime);
            assert(d@[12] == self.byte_at(12) && d@[13] == self.byte_at(13) && d@[14] == self.byte_at(14) && d@[15] == self.byte_at(15));
            lemma_le32_bytes(d@, 12, self.ctime);
            assert(d@[16] == self.byte_at(16) && d@[17] == self.byte_at(17) && d@[18] == self.byte_at(18) && d@[19] == self.byte_at(19));
            lemma_le32_bytes(d@, 16, self.mtime);
            assert(d@[20] == self.byte_at(20) && d@[21] == self.byte_at(21) && d@[22] == self.byte_at(22) && d@[23] == self.byte_at(23));
            lemma_le32_bytes(d@, 20, self.dtime);
            assert(d@[24] == self.byte_at(24) && d@[25] == self.byte_at(25));
            lemma_le16_bytes(d@, 24, self.gid);
            assert(d@[26] == self.byte_at(26) && d@[27] == self.byte_at(27));
            lemma_le16_bytes(d@, 26, self.links_count);
            assert(d@[28] == self.byte_at(28) && d@[29] == self.byte_at(29) && d@[30] == self.byte_at(30) && d@[31] == self.byte_at(31));
            lemma_le32_bytes(d@, 28, self.blocks);
            assert(d@[32] == self.byte_at(32) && d@[33] == self.byte_at(33) && d@[34] == self.byte_at(34) && d@[35] == self.byte_at(35));
            lemma_le32_bytes(d@, 32, self.flags);
            assert(d@[36] == self.byte_at(36) && d@[37] == self.byte_at(37) && d@[38] == self.byte_at(38) && d@[39] == self.byte_at(39));
            lemma_le32_bytes(d@, 36, self.osd1);
            assert(d@[100] == self.byte_at(100) && d@[101] == self.byte_at(101) && d@[102] == self.byte_at(102) && d@[103] == self.byte_at(103));
            lemma_le32_bytes(d@, 100, self.generation);
            assert(d@[104] == self.byte_at(104) && d@[105] == self.byte_at(105) && d@[106] == self.byte_at(106) && d@[107] == self.byte_at(107));
            lemma_le32_bytes(d@, 104, self.file_acl);
            assert(d@[108] == self.byte_at(108) && d@[109] == self.byte_at(109) && d@[110] == self.byte_at(110) && d@[111] == self.byte_at(111));
            lemma_le32_bytes(d@, 108, self.dir_acl);
            assert(d@[112] == self.byte_at(112) && d@[113] == self.byte_at(113) && d@[114] == self.byte_at(114) && d@[115] == self.byte_at(115));
            lemma_le32_bytes(d@, 112, self.faddr);
            assert forall|b: int| 0 <= b < 15 implies #[trigger] self.block@[b] == le32(d@, 40 + 4 * b) by {
                let o = 40 + 4 * b;
                assert(d@[o] == self.byte_at(o) && d@[o + 1] == self.byte_at(o + 1) && d@[o + 2] == self.byte_at(o + 2) && d@[o + 3] == self.byte_at(o + 3));
                assert((o - 40) / 4 == b && (o + 1 - 40) / 4 == b && (o + 2 - 40) / 4 == b && (o + 3 - 40) / 4 == b);
                assert((o - 40) % 4 == 0 && (o + 1 - 40) % 4 == 1 && (o + 2 - 40) % 4 == 2 && (o + 3 - 40) % 4 == 3);
                lemma_le32_bytes(d@, o, self.block@[b]);
            }
            assert forall|k: int| 0 <= k < 12 implies d@.subrange(116, 128)[k] == self.osd2@[k] by {
                assert(d@[116 + k] == self.byte_at(116 + k));
            }
            assert(d@.subrange(116, 128) =~= self.osd2@);
        }
        d
    }
}

} // verus!
