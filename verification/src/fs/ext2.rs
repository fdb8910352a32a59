//! ext2 file system over a sector device.
pub mod ondisk;
pub mod dev;

use vstd::prelude::*;
use crate::bytes::{le16, le32, read16, read32, write16, write32, byte32, byte32_exec};
use crate::errno::Errno;
use crate::fs::vfs::{InodeType, Stat, DirEntry as VfsDirEntry};
use vstd::string::StringExecFns;
use vstd::utf8::valid_utf8;
use vstd::string::StrSliceExecFns;
use vstd::string::StringSliceAdditionalSpecFns;
use crate::fs::ext2::dev::{BlockDevice, read_block_bytes, write_block_bytes};
use crate::fs::ext2::ondisk::{
    Superblock, BlockGroupDesc, DiskInode, EXT2_MAGIC, BGD_SIZE, DISK_INODE_SIZE,
    S_IFMT, S_IFREG, S_IFDIR, S_IFLNK, S_IFCHR, S_IFBLK,
    FT_REG_FILE, FT_DIR, FT_SYMLINK, FT_CHRDEV, FT_BLKDEV,
};

verus! {

/// Largest block size the file system accepts (64 KiB, the ext2 maximum).
pub const MAX_LOG_BLOCK_SIZE: u32 = 6;

/// Number of direct block pointers in an inode.
pub const DIRECT_BLOCKS: u32 = 12;

/// An ext2 file system instance on a device.
pub struct Ext2Fs<D: BlockDevice> {
    pub dev: D,
    pub sb: Superblock,
    pub block_size: u32,
    pub bgdt: Vec<BlockGroupDesc>,
}

/// Block size from the superblock: 1024 shifted by `log`.
pub open spec fn block_size_of(log: u32) -> int {
    if log == 0 {
        1024
    } else if log == 1 {
        2048
    } else if log == 2 {
        4096
    } else if log == 3 {
        8192
    } else if log == 4 {
        16384
    } else if log == 5 {
        32768
    } else {
        65536
    }
}

/// Byte offset of the block group descriptor table.
pub open spec fn bgdt_offset(bs: int) -> int {
    if bs == 1024 { 2048 } else { bs }
}

/// A block pointer read from a pointer block: 0 for the null block.
pub open spec fn ptr_at(disk: Seq<u8>, bs: int, block: u32, index: int) -> u32 {
    if block == 0 { 0 } else { le32(disk, block * bs + 4 * index) }
}

/// The disk block that holds logical block `lb` of an inode (0: a hole), or `None`
/// past the double-indirect range.
pub open spec fn resolve_spec(disk: Seq<u8>, bs: int, inode: DiskInode, lb: int) -> Option<u32> {
    let ppb = bs / 4;
    if lb < 12 {
        Some(inode.block@[lb])
    } else if lb - 12 < ppb {
        Some(ptr_at(disk, bs, inode.block@[12], lb - 12))
    } else if lb - 12 - ppb < ppb * ppb {
        let l = lb - 12 - ppb;
        Some(ptr_at(disk, bs, ptr_at(disk, bs, inode.block@[13], l / ppb), l % ppb))
    } else {
        None
    }
}

/// The ext2 block map: logical blocks 0 to 11 are the inode's direct pointers; the
/// next `bs / 4` are the entries, in order, of the single-indirect pointer block that
/// slot 12 names; the next `(bs / 4)^2` go through the double-indirect block of slot 13
/// and then the pointer block it names; past those there is no block. A null pointer
/// block gives a hole (0).
pub proof fn law_block_map(disk: Seq<u8>, bs: int, inode: DiskInode, lb: int)
    requires
        bs >= 4,
        0 <= lb,
    ensures
        lb < 12 ==> resolve_spec(disk, bs, inode, lb) == Some(inode.block@[lb]),
        12 <= lb < 12 + bs / 4 ==> resolve_spec(disk, bs, inode, lb) == Some(
            if inode.block@[12] == 0 { 0u32 } else { le32(disk, inode.block@[12] * bs + 4 * (lb - 12)) }),
        12 + bs / 4 <= lb < 12 + bs / 4 + (bs / 4) * (bs / 4) ==> ({
            let l = lb - 12 - bs / 4;
            let mid = if inode.block@[13] == 0 { 0u32 } else { le32(disk, inode.block@[13] * bs + 4 * (l / (bs / 4))) };
            resolve_spec(disk, bs, inode, lb) == Some(if mid == 0 { 0u32 } else { le32(disk, mid * bs + 4 * (l % (bs / 4))) })
        }),
        lb >= 12 + bs / 4 + (bs / 4) * (bs / 4) ==> resolve_spec(disk, bs, inode, lb) is None,
{
}

/// The logical block of byte `p`, as a 32-bit block number (higher bits are dropped).
pub open spec fn lblock(p: int, bs: int) -> int {
    (p / bs) % 0x1_0000_0000
}

/// Byte `p` of a file: from its disk block, or 0 in a hole.
pub open spec fn file_byte(disk: Seq<u8>, bs: int, inode: DiskInode, p: int) -> u8 {
    match resolve_spec(disk, bs, inode, lblock(p, bs)) {
        Some(b) => if b == 0 { 0u8 } else { disk[b * bs + p % bs] },
        None => 0u8,
    }
}

/// The direct block that byte `p` of a file lies in.
pub open spec fn direct_block(inode: DiskInode, bs: int, p: int) -> u32 {
    inode.block@[p / bs]
}

/// Bytes `[offset, offset + n)` of the file lie in its direct blocks, and the blocks
/// they lie in are set, different for different block positions, and none is a block
/// bitmap of a group.
pub open spec fn direct_write_ok(inode: DiskInode, bgdt: Seq<BlockGroupDesc>, bs: int, offset: int, n: int) -> bool {
    &&& offset + n <= 12 * bs
    &&& forall|p: int| offset <= p < offset + n ==> #[trigger] direct_block(inode, bs, p) != 0
        && forall|g: int| 0 <= g < bgdt.len() ==> direct_block(inode, bs, p) != #[trigger] bgdt[g].block_bitmap
    &&& forall|p1: int, p2: int| offset <= p1 < offset + n && offset <= p2 < offset + n && p1 / bs != p2 / bs
        ==> #[trigger] direct_block(inode, bs, p1) != #[trigger] direct_block(inode, bs, p2)
}

proof fn lemma_pos_in_block(p: int, bs: int)
    requires
        bs > 0,
        p >= 0,
    ensures
        p == (p / bs) * bs + p % bs,
        0 <= p % bs < bs,
        p / bs >= 0,
{
    vstd::arithmetic::div_mod::lemma_fundamental_div_mod(p, bs);
    vstd::arithmetic::div_mod::lemma_mod_pos_bound(p, bs);
    assert(p / bs >= 0) by (nonlinear_arith)
        requires
            p == bs * (p / bs) + p % bs,
            0 <= p % bs < bs,
            p >= 0,
            bs > 0,
    ;
    assert(bs * (p / bs) == (p / bs) * bs) by (nonlinear_arith);
}

proof fn lemma_block_disjoint(b1: int, r: int, b2: int, bs: int)
    requires
        b1 != b2,
        0 <= r < bs,
        b1 >= 0,
        b2 >= 0,
    ensures
        !(b2 * bs <= b1 * bs + r < b2 * bs + bs),
{
    if b1 < b2 {
        assert(b1 * bs + r < b2 * bs) by (nonlinear_arith)
            requires
                b1 < b2,
                0 <= r < bs,
        ;
    } else {
        assert(b1 * bs + r >= b2 * bs + bs) by (nonlinear_arith)
            requires
                b1 > b2,
                0 <= r < bs,
        ;
    }
}

/// One chunk of a file write: the bytes written before it still read back, and so do
/// the chunk's own.
proof fn lemma_chunk_step(
    d0: Seq<u8>, d1: Seq<u8>, d2: Seq<u8>, i0: DiskInode, i1: DiskInode, bgdt: Seq<BlockGroupDesc>,
    bs: int, offset: int, bw: int, chunk: int, data: Seq<u8>, blk: int, buf: Seq<u8>, g: Option<int>,
)
    requires
        bs > 0,
        offset >= 0,
        bw >= 0,
        chunk > 0,
        bw + chunk <= data.len(),
        bw > 0 ==> (offset + bw) % bs == 0,
        (offset + bw) % bs + chunk <= bs,
        direct_write_ok(i0, bgdt, bs, offset, bw)
            ==> forall|p: int| offset <= p < offset + bw ==> #[trigger] file_byte(d0, bs, i0, p) == data[p - offset]
                && direct_block(i0, bs, p) * bs + bs <= d0.len(),
        (offset + bw) / bs < 12 ==> forall|l: int| 0 <= l < 15 && l != (offset + bw) / bs ==> #[trigger] i1.block@[l] == i0.block@[l],
        (offset + bw) / bs < 12 ==> i1.block@[(offset + bw) / bs] == blk,
        d1.len() == d0.len(),
        match g {
            None => d1 == d0,
            Some(gg) => 0 <= gg < bgdt.len() && outside_block_same(d0, d1, bgdt[gg].block_bitmap as int, bs),
        },
        blk >= 0,
        buf.len() == bs,
        blk * bs + bs <= d1.len(),
        d2 == crate::fs::ext2::dev::splice(d1, blk * bs, buf),
        forall|k: int| 0 <= k < chunk ==> #[trigger] buf[(offset + bw) % bs + k] == data[bw + k],
    ensures
        direct_write_ok(i1, bgdt, bs, offset, bw + chunk)
            ==> forall|p: int| offset <= p < offset + bw + chunk ==> #[trigger] file_byte(d2, bs, i1, p) == data[p - offset]
                && direct_block(i1, bs, p) * bs + bs <= d2.len(),
{
    let fo = offset + bw;
    let l = fo / bs;
    let bo = fo % bs;
    lemma_pos_in_block(fo, bs);
    if direct_write_ok(i1, bgdt, bs, offset, bw + chunk) {
        assert(l < 12) by (nonlinear_arith)
            requires
                fo == l * bs + bo,
                0 <= bo,
                fo < 12 * bs,
                bs > 0,
        ;
        assert forall|p: int| offset <= p < offset + bw implies #[trigger] direct_block(i1, bs, p) == direct_block(i0, bs, p)
            && p / bs < l by {
            lemma_pos_in_block(p, bs);
            assert(p / bs < l) by (nonlinear_arith)
                requires
                    p == (p / bs) * bs + p % bs,
                    0 <= p % bs,
                    p < fo,
                    fo == l * bs,
                    bs > 0,
            ;
        }
        assert(direct_write_ok(i0, bgdt, bs, offset, bw)) by {
            assert forall|p: int| offset <= p < offset + bw implies #[trigger] direct_block(i0, bs, p) != 0
                && forall|gg: int| 0 <= gg < bgdt.len() ==> direct_block(i0, bs, p) != #[trigger] bgdt[gg].block_bitmap by {
                assert(direct_block(i1, bs, p) == direct_block(i0, bs, p));
            }
            assert forall|p1: int, p2: int| offset <= p1 < offset + bw && offset <= p2 < offset + bw && p1 / bs != p2 / bs
                implies #[trigger] direct_block(i0, bs, p1) != #[trigger] direct_block(i0, bs, p2) by {
                assert(direct_block(i1, bs, p1) != direct_block(i1, bs, p2));
            }
        }
        assert forall|p: int| offset <= p < offset + bw + chunk implies #[trigger] file_byte(d2, bs, i1, p) == data[p - offset]
            && direct_block(i1, bs, p) * bs + bs <= d2.len() by {
            lemma_pos_in_block(p, bs);
            let q = p / bs;
            let r = p % bs;
            assert(q < 12) by (nonlinear_arith)
                requires
                    p == q * bs + r,
                    0 <= r,
                    p < 12 * bs,
                    bs > 0,
            ;
            assert(lblock(p, bs) == q);
            let b = direct_block(i1, bs, p);
            assert(b != 0);
            if p < fo {
                assert(direct_block(i1, bs, p) == direct_block(i0, bs, p));
                assert(file_byte(d0, bs, i0, p) == data[p - offset]);
                assert(file_byte(d0, bs, i0, p) == d0[b * bs + r]);
                // not the chunk's block, and not the bitmap block
                lemma_pos_in_block(fo, bs);
                assert(direct_block(i1, bs, fo) == blk);
                assert(b != blk) by {
                    assert(q != l);
                    assert(direct_block(i1, bs, p) != direct_block(i1, bs, fo));
                }
                lemma_block_disjoint(b as int, r, blk, bs);
                if let Some(gg) = g {
                    assert(b != bgdt[gg].block_bitmap);
                    lemma_block_disjoint(b as int, r, bgdt[gg].block_bitmap as int, bs);
                }
                assert(direct_block(i0, bs, p) * bs + bs <= d0.len());
                assert(d2[b * bs + r] == d1[b * bs + r]);
                assert(d1[b * bs + r] == d0[b * bs + r]);
            } else {
                assert(q == l) by (nonlinear_arith)
                    requires
                        p == q * bs + r,
                        0 <= r < bs,
                        fo == l * bs + bo,
                        0 <= bo,
                        fo <= p,
                        p < fo + chunk,
                        bo + chunk <= bs,
                ;
                assert(r == bo + (p - fo));
                assert(b == blk);
                assert(d2[blk * bs + r] == buf[r]);
                assert(buf[bo + (p - fo)] == data[bw + (p - fo)]);
            }
        }
    }
}

/// Bytes `[offset, offset + n)` of the file read back as `data` from `offset` on,
/// wherever they lie in distinct direct blocks that are no block bitmaps.
#[verifier::opaque]
spec fn reads_back(disk: Seq<u8>, bs: int, inode: DiskInode, bgdt: Seq<BlockGroupDesc>, offset: int, n: int, data: Seq<u8>) -> bool {
    direct_write_ok(inode, bgdt, bs, offset, n)
        ==> forall|p: int| offset <= p < offset + n ==> #[trigger] file_byte(disk, bs, inode, p) == data[p - offset]
            && direct_block(inode, bs, p) * bs + bs <= disk.len()
}

/// Two inodes with the same block pointers hold the same bytes at the same places.
proof fn lemma_same_blocks(i1: DiskInode, i2: DiskInode, bgdt: Seq<BlockGroupDesc>, d: Seq<u8>, bs: int, offset: int, n: int)
    requires
        i1.block@ == i2.block@,
    ensures
        direct_write_ok(i1, bgdt, bs, offset, n) == direct_write_ok(i2, bgdt, bs, offset, n),
        forall|p: int| #[trigger] file_byte(d, bs, i1, p) == file_byte(d, bs, i2, p),
{
    assert forall|p: int| #![trigger direct_block(i1, bs, p)] #![trigger direct_block(i2, bs, p)]
        direct_block(i1, bs, p) == direct_block(i2, bs, p) by {}
    assert forall|p: int| #[trigger] file_byte(d, bs, i1, p) == file_byte(d, bs, i2, p) by {
        assert(resolve_spec(d, bs, i1, lblock(p, bs)) == resolve_spec(d, bs, i2, lblock(p, bs)));
    }
}

/// The `o`-th group tried when groups are tried from `preferred` on, wrapping around
/// after the last of `n`.
pub open spec fn group_at(preferred: int, n: int, o: int) -> int {
    (preferred % n + o) % n
}

proof fn lemma_group_at(preferred: int, n: int, o: int, g: int)
    requires
        0 <= preferred,
        0 <= o < n,
        g == (if preferred % n >= n - o { preferred % n - (n - o) } else { preferred % n + o }),
    ensures
        g == group_at(preferred, n, o),
        0 <= g < n,
{
    let a = preferred % n;
    vstd::arithmetic::div_mod::lemma_mod_pos_bound(preferred, n);
    if a >= n - o {
        assert((a + o) % n == a + o - n) by (nonlinear_arith)
            requires
                n <= a + o < 2 * n,
        ;
    } else {
        vstd::arithmetic::div_mod::lemma_small_mod((a + o) as nat, n as nat);
    }
}

/// Bitmap `bm` with bit `t` set.
pub open spec fn with_bit(bm: Seq<u8>, t: int) -> Seq<u8> {
    bm.update(t / 8, bm[t / 8] | (1u8 << ((t % 8) as u8)))
}

/// The data blocks of bytes `[offset, offset + n)` lie clear of the `len` bytes at `at`.
pub open spec fn blocks_apart(inode: DiskInode, bs: int, offset: int, n: int, at: int, len: int) -> bool {
    forall|p: int| offset <= p < offset + n ==> #[trigger] direct_block(inode, bs, p) * bs + bs <= at
        || at + len <= direct_block(inode, bs, p) * bs
}

/// Bytes that read back stay so when only bytes clear of their blocks change.
proof fn lemma_read_back_kept(d1: Seq<u8>, d2: Seq<u8>, inode: DiskInode, bs: int, offset: int, n: int, data: Seq<u8>, at: int, len: int)
    requires
        bs > 0,
        offset >= 0,
        offset + n <= 12 * bs,
        d2.len() == d1.len(),
        forall|k: int| 0 <= k < d1.len() && !(at <= k < at + len) ==> #[trigger] d2[k] == d1[k],
        blocks_apart(inode, bs, offset, n, at, len),
        forall|p: int| offset <= p < offset + n ==> #[trigger] file_byte(d1, bs, inode, p) == data[p - offset]
            && direct_block(inode, bs, p) * bs + bs <= d1.len(),
    ensures
        forall|p: int| offset <= p < offset + n ==> #[trigger] file_byte(d2, bs, inode, p) == data[p - offset],
{
    assert forall|p: int| offset <= p < offset + n implies #[trigger] file_byte(d2, bs, inode, p) == data[p - offset] by {
        lemma_pos_in_block(p, bs);
        let q = p / bs;
        let r = p % bs;
        assert(q < 12) by (nonlinear_arith)
            requires
                p == q * bs + r,
                0 <= r,
                p < 12 * bs,
                bs > 0,
        ;
        assert(lblock(p, bs) == q);
        let b = direct_block(inode, bs, p);
        assert(file_byte(d1, bs, inode, p) == data[p - offset]);
        assert(direct_block(inode, bs, p) * bs + bs <= d1.len());
        assert(b * bs + bs <= at || at + len <= b * bs);
        assert(0 <= b * bs) by (nonlinear_arith)
            requires
                b >= 0,
                bs > 0,
        ;
        if b != 0 {
            assert(d2[b * bs + r] == d1[b * bs + r]);
        }
    }
}

/// One chunk of a file write, over `reads_back`: what read back before still does,
/// and the chunk reads back too.
proof fn lemma_chunk_reads_back(
    d0: Seq<u8>, d1: Seq<u8>, d2: Seq<u8>, i0: DiskInode, i1: DiskInode, bgdt: Seq<BlockGroupDesc>,
    bs: int, offset: int, bw: int, chunk: int, data: Seq<u8>, blk: int, buf: Seq<u8>, g: Option<int>,
)
    requires
        bs > 0,
        offset >= 0,
        bw >= 0,
        chunk > 0,
        bw + chunk <= data.len(),
        bw > 0 ==> (offset + bw) % bs == 0,
        (offset + bw) % bs + chunk <= bs,
        reads_back(d0, bs, i0, bgdt, offset, bw, data),
        (offset + bw) / bs < 12 ==> forall|l: int| 0 <= l < 15 && l != (offset + bw) / bs ==> #[trigger] i1.block@[l] == i0.block@[l],
        (offset + bw) / bs < 12 ==> i1.block@[(offset + bw) / bs] == blk,
        d1.len() == d0.len(),
        match g {
            None => d1 == d0,
            Some(gg) => 0 <= gg < bgdt.len() && outside_block_same(d0, d1, bgdt[gg].block_bitmap as int, bs),
        },
        blk >= 0,
        buf.len() == bs,
        blk * bs + bs <= d1.len(),
        d2 == crate::fs::ext2::dev::splice(d1, blk * bs, buf),
        forall|k: int| 0 <= k < chunk ==> #[trigger] buf[(offset + bw) % bs + k] == data[bw + k],
    ensures
        reads_back(d2, bs, i1, bgdt, offset, bw + chunk, data),
{
    reveal(reads_back);
    lemma_chunk_step(d0, d1, d2, i0, i1, bgdt, bs, offset, bw, chunk, data, blk, buf, g);
}

/// Byte `k` lies in block 0, in a group's block bitmap, or in one of the direct blocks
/// of `inode`: the places a write within the direct blocks may change.
pub open spec fn touched(k: int, bs: int, inode: DiskInode, bgdt: Seq<BlockGroupDesc>) -> bool {
    ||| 0 <= k < bs
    ||| exists|g: int| 0 <= g < bgdt.len() && (#[trigger] bgdt[g]).block_bitmap * bs <= k < bgdt[g].block_bitmap * bs + bs
    ||| exists|l: int| 0 <= l < 12 && (#[trigger] inode.block@[l]) * bs <= k < inode.block@[l] * bs + bs
}

/// Every byte where `d2` differs from `d` is `touched`.
pub open spec fn changes_touched(d: Seq<u8>, d2: Seq<u8>, bs: int, inode: DiskInode, bgdt: Seq<BlockGroupDesc>) -> bool {
    forall|k: int| 0 <= k < d.len() && #[trigger] d2[k] != d[k] ==> touched(k, bs, inode, bgdt)
}

/// What was touched for an inode stays touched once its set block pointers are kept.
proof fn lemma_touched_grows(d: Seq<u8>, d2: Seq<u8>, bs: int, i1: DiskInode, i2: DiskInode, bgdt: Seq<BlockGroupDesc>)
    requires
        changes_touched(d, d2, bs, i1, bgdt),
        forall|l: int| 0 <= l < 15 && i1.block@[l] != 0 ==> #[trigger] i2.block@[l] == i1.block@[l],
    ensures
        changes_touched(d, d2, bs, i2, bgdt),
{
    assert forall|k: int| 0 <= k < d.len() && #[trigger] d2[k] != d[k] implies touched(k, bs, i2, bgdt) by {
        assert(touched(k, bs, i1, bgdt));
        if !(0 <= k < bs) && !(exists|g: int| 0 <= g < bgdt.len() && (#[trigger] bgdt[g]).block_bitmap * bs <= k < bgdt[g].block_bitmap * bs + bs) {
            let l = choose|l: int| 0 <= l < 12 && (#[trigger] i1.block@[l]) * bs <= k < i1.block@[l] * bs + bs;
            if i1.block@[l] == 0 {
                assert(0 <= k < bs);
            } else {
                assert(i2.block@[l] == i1.block@[l]);
            }
        }
    }
}

/// `w` holds at `j` a directory entry header for inode `ino` with file type `ft` and
/// the name bytes `name`.
pub open spec fn entry_record(w: Seq<u8>, j: int, ino: u32, name: Seq<u8>, ft: u8) -> bool {
    &&& 0 <= j
    &&& j + 8 + name.len() <= w.len()
    &&& le32(w, j) == ino
    &&& w[j + 6] == name.len()
    &&& w[j + 7] == ft
    &&& w.subrange(j + 8, j + 8 + name.len()) == name
}

/// Bytes `w`, holding at `j` the entry of inode `ino` named `name` with type `ft`,
/// were written at offset `off` of the file of `inode`: they read back where its
/// direct blocks are set, distinct, no block bitmaps and clear of its record at `rec`.
pub open spec fn entry_written(disk: Seq<u8>, bs: int, inode: DiskInode, bgdt: Seq<BlockGroupDesc>, rec: int,
    w: Seq<u8>, off: int, j: int, ino: u32, name: Seq<u8>, ft: u8) -> bool {
    &&& 0 <= off
    &&& entry_record(w, j, ino, name, ft)
    &&& (direct_write_ok(inode, bgdt, bs, off, w.len() as int) && blocks_apart(inode, bs, off, w.len() as int, rec, DISK_INODE_SIZE as int)
        ==> forall|p: int| off <= p < off + w.len() ==> #[trigger] file_byte(disk, bs, inode, p) == w[p - off])
}

/// Bytes that read back stay so when only a record clear of their blocks is rewritten.
proof fn lemma_entry_kept(d1: Seq<u8>, d2: Seq<u8>, inode: DiskInode, bgdt: Seq<BlockGroupDesc>, bs: int, off: int, w: Seq<u8>, rec: int)
    requires
        bs > 0,
        off >= 0,
        d2.len() == d1.len(),
        forall|k: int| 0 <= k < d1.len() && !(rec <= k < rec + DISK_INODE_SIZE) ==> #[trigger] d2[k] == d1[k],
        direct_write_ok(inode, bgdt, bs, off, w.len() as int)
            ==> forall|p: int| off <= p < off + w.len() ==> #[trigger] file_byte(d1, bs, inode, p) == w[p - off],
        direct_write_ok(inode, bgdt, bs, off, w.len() as int)
            ==> forall|p: int| off <= p < off + w.len() ==> #[trigger] direct_block(inode, bs, p) * bs + bs <= d1.len(),
    ensures
        direct_write_ok(inode, bgdt, bs, off, w.len() as int) && blocks_apart(inode, bs, off, w.len() as int, rec, DISK_INODE_SIZE as int)
            ==> forall|p: int| off <= p < off + w.len() ==> #[trigger] file_byte(d2, bs, inode, p) == w[p - off],
{
    if direct_write_ok(inode, bgdt, bs, off, w.len() as int) && blocks_apart(inode, bs, off, w.len() as int, rec, DISK_INODE_SIZE as int) {
        assert forall|p: int| off <= p < off + w.len() implies #[trigger] file_byte(d1, bs, inode, p) == w[p - off]
            && direct_block(inode, bs, p) * bs + bs <= d1.len() by {
            assert(direct_block(inode, bs, p) * bs + bs <= d1.len());
        }
        lemma_read_back_kept(d1, d2, inode, bs, off, w.len() as int, w, rec, DISK_INODE_SIZE as int);
    }
}

/// `d2` equals `d` outside block `b` (of `bs` bytes).
pub open spec fn outside_block_same(d: Seq<u8>, d2: Seq<u8>, b: int, bs: int) -> bool {
    &&& d2.len() == d.len()
    &&& forall|k: int| 0 <= k < d.len() && !(b * bs <= k < b * bs + bs) ==> #[trigger] d2[k] == d[k]
}

/// Full 64-bit size of an inode.
pub open spec fn size64_spec(inode: DiskInode) -> int {
    if inode.mode & S_IFMT == S_IFREG {
        inode.dir_acl as int * 0x1_0000_0000 + inode.size as int
    } else {
        inode.size as int
    }
}

/// How many bytes a read of `len` bytes at `offset` returns.
pub open spec fn read_len(size: int, offset: int, len: int) -> int {
    if offset >= size { 0 } else if len < size - offset { len } else { size - offset }
}

/// The VFS type of an inode's mode type bits.
pub open spec fn disk_type_spec(mode_type: u16) -> InodeType {
    if mode_type == S_IFREG {
        InodeType::File
    } else if mode_type == S_IFDIR {
        InodeType::Directory
    } else if mode_type == S_IFLNK {
        InodeType::Symlink
    } else if mode_type == S_IFCHR {
        InodeType::CharDevice
    } else if mode_type == S_IFBLK {
        InodeType::BlockDevice
    } else {
        InodeType::File
    }
}

/// The VFS type of a directory entry's file type.
pub open spec fn ft_spec(ft: u8) -> InodeType {
    if ft == FT_REG_FILE {
        InodeType::File
    } else if ft == FT_DIR {
        InodeType::Directory
    } else if ft == FT_SYMLINK {
        InodeType::Symlink
    } else if ft == FT_CHRDEV {
        InodeType::CharDevice
    } else if ft == FT_BLKDEV {
        InodeType::BlockDevice
    } else {
        InodeType::File
    }
}

/// Map inode mode type bits to the VFS type.
pub fn disk_type_to_vfs(mode_type: u16) -> (t: InodeType)
    ensures
        t == disk_type_spec(mode_type),
{
    if mode_type == S_IFREG {
        InodeType::File
    } else if mode_type == S_IFDIR {
        InodeType::Directory
    } else if mode_type == S_IFLNK {
        InodeType::Symlink
    } else if mode_type == S_IFCHR {
        InodeType::CharDevice
    } else if mode_type == S_IFBLK {
        InodeType::BlockDevice
    } else {
        InodeType::File
    }
}

/// Map a directory entry file type to the VFS type.
pub fn ft_to_vfs(ft: u8) -> (t: InodeType)
    ensures
        t == ft_spec(ft),
{
    if ft == FT_REG_FILE {
        InodeType::File
    } else if ft == FT_DIR {
        InodeType::Directory
    } else if ft == FT_SYMLINK {
        InodeType::Symlink
    } else if ft == FT_CHRDEV {
        InodeType::CharDevice
    } else if ft == FT_BLKDEV {
        InodeType::BlockDevice
    } else {
        InodeType::File
    }
}

fn zeroed(n: usize) -> (v: Vec<u8>)
    ensures
        v@.len() == n,
        forall|i: int| 0 <= i < n ==> #[trigger] v@[i] == 0,
{
    let mut v: Vec<u8> = Vec::new();
    while v.len() < n
        invariant
            v@.len() <= n,
            forall|i: int| 0 <= i < v@.len() ==> #[trigger] v@[i] == 0,
        decreases n - v@.len(),
    {
        v.push(0);
    }
    v
}

/// Two superblocks agree on the geometry (all but the free counts that allocation
/// changes).
pub open spec fn same_geometry(a: Superblock, b: Superblock) -> bool {
    &&& a.inodes_count == b.inodes_count
    &&& a.blocks_count == b.blocks_count
    &&& a.first_data_block == b.first_data_block
    &&& a.log_block_size == b.log_block_size
    &&& a.blocks_per_group == b.blocks_per_group
    &&& a.inodes_per_group == b.inodes_per_group
    &&& a.rev_level == b.rev_level
    &&& a.inode_size == b.inode_size
}

/// Two descriptor tables agree on where each group keeps its bitmaps and inodes.
pub open spec fn same_layout(a: Seq<BlockGroupDesc>, b: Seq<BlockGroupDesc>) -> bool {
    &&& a.len() == b.len()
    &&& forall|i: int| 0 <= i < a.len() ==> {
        &&& (#[trigger] b[i]).block_bitmap == a[i].block_bitmap
        &&& b[i].inode_bitmap == a[i].inode_bitmap
        &&& b[i].inode_table == a[i].inode_table
    }
}

impl<D: BlockDevice> Ext2Fs<D> {
    /// The geometry the file system works with.
    pub open spec fn wf(&self) -> bool {
        &&& self.sb.log_block_size <= MAX_LOG_BLOCK_SIZE
        &&& self.block_size == block_size_of(self.sb.log_block_size)
        &&& self.sb.blocks_per_group > 0
        &&& self.sb.inodes_per_group > 0
        &&& self.bgdt@.len() <= u32::MAX
    }

    pub open spec fn disk(&self) -> Seq<u8> {
        self.dev.sectors()
    }

    pub open spec fn bs(&self) -> int {
        self.block_size as int
    }

    /// Inode size in bytes.
    pub open spec fn isz(&self) -> int {
        if self.sb.rev_level >= 1 { self.sb.inode_size as int } else { 128 }
    }

    /// Inode `ino` lies in a known block group.
    pub open spec fn inode_valid(&self, ino: u32) -> bool {
        ino >= 1 && (ino - 1) / (self.sb.inodes_per_group as int) < self.bgdt@.len()
    }

    /// Byte offset of inode `ino` on the device.
    pub open spec fn inode_offset(&self, ino: u32) -> int {
        let g = (ino - 1) / (self.sb.inodes_per_group as int);
        let idx = (ino - 1) % (self.sb.inodes_per_group as int);
        self.bgdt@[g].inode_table as int * self.bs() + idx * self.isz()
    }

    /// Mount an ext2 file system from a device: read and check the superblock, then
    /// read the block group descriptor table.
    pub fn mount(dev: D) -> (r: Result<Ext2Fs<D>, &'static str>)
        ensures
            r matches Ok(fs) ==> {
                &&& fs.wf()
                &&& fs.dev == dev
                &&& fs.sb.parsed_from(dev.sectors().subrange(1024, 2048))
                &&& fs.sb.magic == EXT2_MAGIC
                &&& fs.bgdt@.len() == (fs.sb.blocks_count as int + fs.sb.blocks_per_group - 1) / (fs.sb.blocks_per_group as int)
                &&& forall|i: int| 0 <= i < fs.bgdt@.len() ==> #[trigger] fs.bgdt@[i].parsed_from(
                    dev.sectors(), bgdt_offset(fs.bs()) + i * BGD_SIZE)
            },
            // a superblock without the ext2 magic, or with a block size or group sizes
            // this driver does not take, is refused
            dev.sectors().len() >= 2048 && ({
                let sbb = dev.sectors().subrange(1024, 2048);
                ||| le16(sbb, 56) != EXT2_MAGIC
                ||| le32(sbb, 24) > MAX_LOG_BLOCK_SIZE
                ||| le32(sbb, 32) == 0
                ||| le32(sbb, 40) == 0
            }) ==> r is Err,
    {
        let mut sb_buf = zeroed(1024);
        if read_block_bytes(&dev, 1024, &mut sb_buf).is_err() {
            return Err("ext2: cannot read superblock");
        }
        let sb = Superblock::parse(sb_buf.as_slice());
        if sb.magic != EXT2_MAGIC {
            return Err("ext2: bad magic number");
        }
        if sb.log_block_size > MAX_LOG_BLOCK_SIZE || sb.blocks_per_group == 0 || sb.inodes_per_group == 0 {
            return Err("ext2: unsupported geometry");
        }
        let block_size = sb.block_size();
        proof {
            let l = sb.log_block_size;
            assert((1024u32 << l) == (if l == 0 { 1024u32 } else if l == 1 { 2048u32 } else if l == 2 { 4096u32 }
                else if l == 3 { 8192u32 } else if l == 4 { 16384u32 } else if l == 5 { 32768u32 } else { 65536u32 })) by (bit_vector)
                requires
                    l <= 6,
            ;
        }
        let bg_count = sb.block_group_count();
        let bgdt_offset: u64 = if block_size == 1024 { 2048 } else { block_size as u64 };
        let bgdt_bytes: u64 = (bg_count as u64) * 32;
        if bgdt_bytes + 1024 > usize::MAX as u64 {
            return Err("ext2: descriptor table too large");
        }
        let bgdt_size = bgdt_bytes as usize;
        let mut bgdt_buf = zeroed(bgdt_size);
        if read_block_bytes(&dev, bgdt_offset, &mut bgdt_buf).is_err() {
            return Err("ext2: cannot read block group descriptors");
        }
        let ghost disk = dev.sectors();
        let mut bgdt: Vec<BlockGroupDesc> = Vec::new();
        let mut i: usize = 0;
        while i < bg_count as usize
            invariant
                i <= bg_count,
                bgdt_size == bg_count * BGD_SIZE,
                bgdt_buf@.len() == bgdt_size,
                bgdt_offset + bgdt_size <= disk.len(),
                bgdt_buf@ == disk.subrange(bgdt_offset as int, bgdt_offset + bgdt_size),
                bgdt@.len() == i,
                forall|k: int| 0 <= k < i ==> #[trigger] bgdt@[k].parsed_from(disk, bgdt_offset + k * BGD_SIZE),
            decreases bg_count - i,
        {
            let off = i * BGD_SIZE;
            let desc = BlockGroupDesc::parse(bgdt_buf.as_slice(), off);
            proof {
                assert(desc.parsed_from(disk, bgdt_offset + i * BGD_SIZE)) by {
                    lemma_parsed_shift(bgdt_buf@, disk, bgdt_offset as int, off as int, desc);
                }
            }
            bgdt.push(desc);
            i = i + 1;
        }
        Ok(Ext2Fs { dev, sb, block_size, bgdt })
    }
}

impl<D: BlockDevice> Ext2Fs<D> {
    /// Read inode `ino` from its inode table. An inode number outside the block groups,
    /// or an inode size below the inode structure, gives EIO.
    pub fn read_inode(&self, ino: u32) -> (r: Result<DiskInode, Errno>)
        requires
            self.wf(),
        ensures
            r matches Ok(di) ==> {
                &&& self.inode_valid(ino)
                &&& self.isz() >= DISK_INODE_SIZE
                &&& self.inode_offset(ino) + self.isz() <= self.disk().len()
                &&& di.parsed_from(self.disk().subrange(self.inode_offset(ino), self.inode_offset(ino) + self.isz()))
            },
            r matches Err(e) ==> e == Errno::EIO,
            !self.inode_valid(ino) ==> r is Err,
    {
        let ipg = self.sb.inodes_per_group;
        if ino == 0 {
            return Err(Errno::EIO);
        }
        let group = ((ino - 1) / ipg) as usize;
        let index = ((ino - 1) % ipg) as u64;
        if group >= self.bgdt.len() {
            return Err(Errno::EIO);
        }
        let inode_size = self.sb.inode_size();
        if (inode_size as usize) < DISK_INODE_SIZE {
            return Err(Errno::EIO);
        }
        let table = self.bgdt[group].inode_table as u64;
        proof {
            assert(table * self.block_size <= 0xFFFF_FFFF * 65536) by (nonlinear_arith)
                requires
                    table <= 0xFFFF_FFFF,
                    self.block_size <= 65536,
            ;
            assert(index * inode_size <= 0xFFFF_FFFF * 0xFFFF) by (nonlinear_arith)
                requires
                    index <= 0xFFFF_FFFF,
                    inode_size <= 0xFFFF,
            ;
        }
        let offset = table * (self.block_size as u64) + index * (inode_size as u64);
        let mut buf = zeroed(inode_size as usize);
        if read_block_bytes(&self.dev, offset, &mut buf).is_err() {
            return Err(Errno::EIO);
        }
        Ok(DiskInode::parse(buf.as_slice()))
    }

    /// Read data block `block_num` into `buf` (one block long).
    fn read_data_block(&self, block_num: u32, buf: &mut Vec<u8>) -> (r: Result<(), Errno>)
        requires
            self.wf(),
            old(buf)@.len() == self.bs(),
        ensures
            final(buf)@.len() == self.bs(),
            r is Ok ==> block_num * self.bs() + self.bs() <= self.disk().len()
                && final(buf)@ == self.disk().subrange(block_num * self.bs(), block_num * self.bs() + self.bs()),
            r matches Err(e) ==> e == Errno::EIO,
            self.dev.dependable() && self.disk().len() % 512 == 0 && block_num * self.bs() + self.bs() <= self.disk().len() ==> r is Ok,
    {
        proof {
            assert(block_num * self.block_size <= 0xFFFF_FFFF * 65536) by (nonlinear_arith)
                requires
                    block_num <= 0xFFFF_FFFF,
                    self.block_size <= 65536,
            ;
        }
        let offset = block_num as u64 * self.block_size as u64;
        match read_block_bytes(&self.dev, offset, buf) {
            Ok(()) => Ok(()),
            Err(_) => Err(Errno::EIO),
        }
    }

    /// Pointer `index` of pointer block `block` (0 for the null block).
    fn read_indirect(&self, block: u32, index: u32) -> (r: Result<u32, Errno>)
        requires
            self.wf(),
            index < self.bs() / 4,
        ensures
            r matches Ok(p) ==> p == ptr_at(self.disk(), self.bs(), block, index as int),
            block == 0 ==> r == Ok::<u32, Errno>(0),
            r matches Err(e) ==> e == Errno::EIO,
    {
        if block == 0 {
            return Ok(0);
        }
        let mut buf = zeroed(self.block_size as usize);
        self.read_data_block(block, &mut buf)?;
        let p = read32(buf.as_slice(), (index as usize) * 4);
        proof {
            reveal(le32);
            reveal(le16);
            let o = block * self.bs();
            let i4 = 4 * index as int;
            assert(buf@[i4] == self.disk()[o + i4]);
            assert(buf@[i4 + 1] == self.disk()[o + i4 + 1]);
            assert(buf@[i4 + 2] == self.disk()[o + i4 + 2]);
            assert(buf@[i4 + 3] == self.disk()[o + i4 + 3]);
        }
        Ok(p)
    }

    /// The disk block of logical block `logical_block` of `inode`: direct, single
    /// indirect or double indirect; EFBIG beyond that.
    pub fn resolve_block(&self, inode: &DiskInode, logical_block: u32) -> (r: Result<u32, Errno>)
        requires
            self.wf(),
        ensures
            r matches Ok(b) ==> resolve_spec(self.disk(), self.bs(), *inode, logical_block as int) == Some(b),
            r matches Err(e) ==> (e == Errno::EFBIG && resolve_spec(self.disk(), self.bs(), *inode, logical_block as int) is None)
                || e == Errno::EIO,
            resolve_spec(self.disk(), self.bs(), *inode, logical_block as int) is None ==> r == Err::<u32, Errno>(Errno::EFBIG),
            // a direct block needs no read
            logical_block < 12 ==> r == Ok::<u32, Errno>(inode.block@[logical_block as int]),
    {
        let ppb = self.block_size / 4;
        if logical_block < DIRECT_BLOCKS {
            return Ok(inode.block[logical_block as usize]);
        }
        let lb = logical_block - 12;
        if lb < ppb {
            return self.read_indirect(inode.block[12], lb);
        }
        let lb = lb - ppb;
        assert(ppb <= 16384);
        assert(ppb * ppb <= 16384 * 16384) by (nonlinear_arith)
            requires
                ppb <= 16384,
        ;
        if lb < ppb * ppb {
            let idx1 = lb / ppb;
            let idx2 = lb % ppb;
            proof {
                assert(idx1 < ppb) by (nonlinear_arith)
                    requires
                        lb < ppb * ppb,
                        idx1 == lb / ppb,
                        ppb > 0,
                ;
            }
            let indirect1 = self.read_indirect(inode.block[13], idx1)?;
            return self.read_indirect(indirect1, idx2);
        }
        Err(Errno::EFBIG)
    }

    /// Read up to `buf.len()` bytes of the file at `offset` into the front of `buf`;
    /// gives the number of bytes read (0 at or past the end). Holes read as zeros.
    pub fn read_file_data(&self, inode: &DiskInode, offset: u64, buf: &mut Vec<u8>) -> (r: Result<usize, Errno>)
        requires
            self.wf(),
        ensures
            final(buf)@.len() == old(buf)@.len(),
            r matches Ok(n) ==> {
                &&& n == read_len(size64_spec(*inode), offset as int, old(buf)@.len() as int)
                &&& forall|i: int| 0 <= i < n ==> #[trigger] final(buf)@[i] == file_byte(self.disk(), self.bs(), *inode, offset + i)
                &&& forall|i: int| n <= i < old(buf)@.len() ==> #[trigger] final(buf)@[i] == old(buf)@[i]
            },
            r matches Err(e) ==> e == Errno::EIO || e == Errno::EFBIG,
    {
        let file_size = inode.size64();
        if offset >= file_size {
            return Ok(0);
        }
        let remaining = file_size - offset;
        let to_read: usize = if (buf.len() as u64) < remaining { buf.len() } else { remaining as usize };
        let bs = self.block_size as u64;
        let mut bytes_read: usize = 0;
        let mut file_offset = offset;
        let mut block_buf = zeroed(self.block_size as usize);
        while bytes_read < to_read
            invariant
                self.wf(),
                bs == self.bs(),
                bytes_read <= to_read,
                to_read == read_len(size64_spec(*inode), offset as int, old(buf)@.len() as int),
                to_read <= old(buf)@.len(),
                offset + to_read <= file_size,
                file_size == size64_spec(*inode),
                file_offset == offset + bytes_read,
                buf@.len() == old(buf)@.len(),
                block_buf@.len() == bs,
                forall|i: int| 0 <= i < bytes_read ==> #[trigger] buf@[i] == file_byte(self.disk(), self.bs(), *inode, offset + i),
                forall|i: int| to_read <= i < old(buf)@.len() ==> #[trigger] buf@[i] == old(buf)@[i],
            decreases to_read - bytes_read,
        {
            let logical = file_offset / bs;
            let block_offset = (file_offset % bs) as usize;
            let room = (bs as usize) - block_offset;
            let chunk = if room < to_read - bytes_read { room } else { to_read - bytes_read };
            let lb32 = logical as u32;
            assert(lb32 == lblock(file_offset as int, bs as int)) by (bit_vector)
                requires
                    logical == file_offset / bs,
                    lb32 == logical as u32,
            ;
            let disk_block = self.resolve_block(inode, lb32)?;
            if disk_block == 0 {
                let mut k: usize = 0;
                while k < chunk
                    invariant
                        k <= chunk,
                        bytes_read + chunk <= to_read,
                        buf@.len() == old(buf)@.len(),
                        to_read <= old(buf)@.len(),
                        forall|i: int| 0 <= i < bytes_read ==> #[trigger] buf@[i] == file_byte(self.disk(), self.bs(), *inode, offset + i),
                        forall|i: int| bytes_read <= i < bytes_read + k ==> #[trigger] buf@[i] == 0u8,
                        forall|i: int| to_read <= i < old(buf)@.len() ==> #[trigger] buf@[i] == old(buf)@[i],
                    decreases chunk - k,
                {
                    buf.set(bytes_read + k, 0);
                    k = k + 1;
                }
                proof {
                    assert forall|i: int| bytes_read <= i < bytes_read + chunk implies
                        #[trigger] buf@[i] == file_byte(self.disk(), self.bs(), *inode, offset + i) by {
                        lemma_same_block(offset + bytes_read, offset + i, bs as int, block_offset as int, chunk as int);
                    }
                }
            } else {
                self.read_data_block(disk_block, &mut block_buf)?;
                let mut k: usize = 0;
                while k < chunk
                    invariant
                        k <= chunk,
                        block_offset + chunk <= bs,
                        bs <= 65536,
                        block_buf@.len() == bs,
                        bytes_read + chunk <= to_read,
                        buf@.len() == old(buf)@.len(),
                        to_read <= old(buf)@.len(),
                        forall|i: int| 0 <= i < bytes_read ==> #[trigger] buf@[i] == file_byte(self.disk(), self.bs(), *inode, offset + i),
                        forall|i: int| bytes_read <= i < bytes_read + k ==> #[trigger] buf@[i] == block_buf@[block_offset + i - bytes_read],
                        forall|i: int| to_read <= i < old(buf)@.len() ==> #[trigger] buf@[i] == old(buf)@[i],
                    decreases chunk - k,
                {
                    buf.set(bytes_read + k, block_buf[block_offset + k]);
                    k = k + 1;
                }
                proof {
                    assert forall|i: int| bytes_read <= i < bytes_read + chunk implies
                        #[trigger] buf@[i] == file_byte(self.disk(), self.bs(), *inode, offset + i) by {
                        lemma_same_block(offset + bytes_read, offset + i, bs as int, block_offset as int, chunk as int);
                        assert(buf@[i] == block_buf@[block_offset + i - bytes_read]);
                    }
                }
            }
            bytes_read = bytes_read + chunk;
            file_offset = file_offset + chunk as u64;
        }
        Ok(bytes_read)
    }
}

/// The (name bytes, inode, file type) of the directory entries in `d` from `pos` on,
/// skipping deleted entries (inode 0), empty names and names running past the data;
/// the walk stops at a zero record length or when no header fits.
pub open spec fn dir_list(d: Seq<u8>, pos: int) -> Seq<(Seq<u8>, u32, u8)>
    decreases d.len() - pos,
{
    if pos < 0 || pos + 8 > d.len() {
        Seq::empty()
    } else {
        let ino = le32(d, pos);
        let rl = le16(d, pos + 4) as int;
        let nl = d[pos + 6] as int;
        let ft = d[pos + 7];
        if rl == 0 {
            Seq::empty()
        } else {
            let rest = if pos + rl <= d.len() { dir_list(d, pos + rl) } else { Seq::empty() };
            if ino != 0 && nl > 0 && pos + 8 + nl <= d.len() {
                seq![(d.subrange(pos + 8, pos + 8 + nl), ino, ft)] + rest
            } else {
                rest
            }
        }
    }
}

/// The entry named by `bytes` matches the text `name` as the directory's names are
/// compared: by the bytes when they are UTF-8, else as "?".
pub open spec fn entry_matches(bytes: Seq<u8>, name: Seq<char>) -> bool {
    if valid_utf8(bytes) {
        vstd::utf8::encode_utf8(name) == bytes
    } else {
        name == seq!['?']
    }
}

/// `core::str::from_utf8`: a string exactly when the bytes are valid UTF-8, and then
/// one whose bytes are the given ones.
#[verifier::external_body]
pub(crate) fn str_from_utf8(v: &[u8]) -> (r: Option<&str>)
    ensures
        r is Some <==> valid_utf8(v@),
        r matches Some(s) ==> s.spec_bytes() == v@,
{
    core::str::from_utf8(v).ok()
}

/// The text of an entry name.
fn name_to_string(bytes: &Vec<u8>) -> (s: String)
    ensures
        entry_matches(bytes@, s@),
{
    match str_from_utf8(bytes.as_slice()) {
        Some(t) => {
            let s = String::from_str(t);
            assert(t.spec_bytes() == vstd::utf8::encode_utf8(t@));
            s
        },
        None => {
            proof {
                reveal_strlit("?");
            }
            let s = String::from_str("?");
            assert(s@ =~= seq!['?']);
            s
        },
    }
}

/// Whether entry bytes match a name.
fn name_matches(bytes: &Vec<u8>, name: &str) -> (r: bool)
    ensures
        r == entry_matches(bytes@, name@),
{
    match str_from_utf8(bytes.as_slice()) {
        Some(_) => {
            let nb = name.as_bytes();
            assert(name.spec_bytes() == vstd::utf8::encode_utf8(name@));
            if nb.len() != bytes.len() {
                assert(nb@.len() != bytes@.len());
                assert(vstd::utf8::encode_utf8(name@) != bytes@);
                assert(valid_utf8(bytes@));
                return false;
            }
            let mut i: usize = 0;
            while i < nb.len()
                invariant
                    i <= nb@.len(),
                    nb@.len() == bytes@.len(),
                    nb@ == name.spec_bytes(),
                    name.spec_bytes() == vstd::utf8::encode_utf8(name@),
                    valid_utf8(bytes@),
                    forall|k: int| 0 <= k < i ==> nb@[k] == bytes@[k],
                decreases nb@.len() - i,
            {
                if nb[i] != bytes[i] {
                    assert(nb@[i as int] != bytes@[i as int]);
                    return false;
                }
                i = i + 1;
            }
            assert(nb@ =~= bytes@);
            true
        },
        None => {
            let n = name.unicode_len();
            if n == 1 && name.get_char(0) == '?' {
                assert(name@ =~= seq!['?']);
                true
            } else {
                false
            }
        },
    }
}

/// Copy of `d[a..b]`.
fn copy_range(d: &Vec<u8>, a: usize, b: usize) -> (r: Vec<u8>)
    requires
        a <= b <= d@.len(),
    ensures
        r@ == d@.subrange(a as int, b as int),
{
    let mut r: Vec<u8> = Vec::new();
    let mut i = a;
    while i < b
        invariant
            a <= i <= b <= d@.len(),
            r@ == d@.subrange(a as int, i as int),
        decreases b - i,
    {
        r.push(d[i]);
        i = i + 1;
        assert(r@ =~= d@.subrange(a as int, i as int));
    }
    r
}

/// The directory entries of directory data `data`.
pub fn parse_dir_entries(data: &Vec<u8>) -> (r: Vec<(Vec<u8>, u32, u8)>)
    ensures
        r@.len() == dir_list(data@, 0).len(),
        forall|k: int| 0 <= k < r@.len() ==> (#[trigger] r@[k]).0@ == dir_list(data@, 0)[k].0
            && r@[k].1 == dir_list(data@, 0)[k].1 && r@[k].2 == dir_list(data@, 0)[k].2,
{
    let size = data.len();
    let mut entries: Vec<(Vec<u8>, u32, u8)> = Vec::new();
    let mut pos: usize = 0;
    let ghost full = dir_list(data@, 0);
    while size - pos >= 8
        invariant_except_break
            entry_views(entries@) + dir_list(data@, pos as int) == full,
        invariant
            size == data@.len(),
            pos <= size,
            full == dir_list(data@, 0),
        ensures
            entry_views(entries@) == full,
        decreases size - pos,
    {
        let ino = read32(data.as_slice(), pos);
        let rec_len = read16(data.as_slice(), pos + 4) as usize;
        let name_len = data[pos + 6] as usize;
        let ft = data[pos + 7];
        if rec_len == 0 {
            proof {
                assert(dir_list(data@, pos as int) =~= Seq::<(Seq<u8>, u32, u8)>::empty());
                assert(entry_views(entries@) + dir_list(data@, pos as int) =~= entry_views(entries@));
            }
            break;
        }
        let ghost rest = if pos + rec_len <= size { dir_list(data@, pos + rec_len) } else { Seq::empty() };
        if ino != 0 && name_len > 0 && name_len <= size - pos - 8 {
            let name = copy_range(data, pos + 8, pos + 8 + name_len);
            let ghost before = entry_views(entries@);
            entries.push((name, ino, ft));
            proof {
                assert(entry_views(entries@) =~= before.push((data@.subrange(pos + 8, pos + 8 + name_len), ino, ft)));
                assert(dir_list(data@, pos as int) == seq![(data@.subrange(pos + 8, pos + 8 + name_len), ino, ft)] + rest);
                assert(entry_views(entries@) + rest =~= before + dir_list(data@, pos as int));
            }
        }
        assert(entry_views(entries@) + rest == full);
        if rec_len > size - pos {
            proof {
                assert(rest =~= Seq::<(Seq<u8>, u32, u8)>::empty());
                assert(entry_views(entries@) + rest =~= entry_views(entries@));
            }
            break;
        }
        pos = pos + rec_len;
        proof {
            if pos + 8 > size {
                assert(dir_list(data@, pos as int) =~= Seq::<(Seq<u8>, u32, u8)>::empty());
                assert(entry_views(entries@) + dir_list(data@, pos as int) =~= entry_views(entries@));
            }
        }
    }
    entries
}

/// The views of parsed entries.
pub open spec fn entry_views(v: Seq<(Vec<u8>, u32, u8)>) -> Seq<(Seq<u8>, u32, u8)> {
    Seq::new(v.len(), |k: int| (v[k].0@, v[k].1, v[k].2))
}

/// The first `n` bytes of a file.
pub open spec fn file_prefix(disk: Seq<u8>, bs: int, inode: DiskInode, n: int) -> Seq<u8> {
    Seq::new(n as nat, |i: int| file_byte(disk, bs, inode, i))
}

/// Index of the first entry matching `name`, if any.
pub open spec fn first_match(entries: Seq<(Seq<u8>, u32, u8)>, name: Seq<char>) -> Option<int>
    decreases entries.len(),
{
    if entries.len() == 0 {
        None
    } else {
        match first_match(entries.drop_last(), name) {
            Some(i) => Some(i),
            None => if entry_matches(entries.last().0, name) { Some(entries.len() - 1) } else { None },
        }
    }
}

impl<D: BlockDevice> Ext2Fs<D> {
    /// The directory entries of a directory inode, in on-disk order.
    pub fn read_dir_entries(&self, inode: &DiskInode) -> (r: Result<Vec<(Vec<u8>, u32, u8)>, Errno>)
        requires
            self.wf(),
            size64_spec(*inode) <= usize::MAX,
        ensures
            r matches Ok(v) ==> entry_views(v@) == dir_list(file_prefix(self.disk(), self.bs(), *inode, size64_spec(*inode)), 0),
            r matches Err(e) ==> e == Errno::EIO || e == Errno::EFBIG,
    {
        let size = inode.size64() as usize;
        let mut data = zeroed(size);
        let n = self.read_file_data(inode, 0, &mut data)?;
        proof {
            assert(n == size);
            assert(data@ =~= file_prefix(self.disk(), self.bs(), *inode, size as int));
        }
        let entries = parse_dir_entries(&data);
        proof {
            assert(entry_views(entries@) =~= dir_list(data@, 0));
        }
        Ok(entries)
    }

    /// Find `name` in directory `dir_ino`: the inode number of the first entry with
    /// that name.
    pub fn lookup(&self, dir_ino: u32, name: &str) -> (r: Result<u32, Errno>)
        requires
            self.wf(),
        ensures
            r matches Ok(ino) ==> exists|di: DiskInode| {
                &&& di.parsed_from(self.disk().subrange(self.inode_offset(dir_ino), self.inode_offset(dir_ino) + self.isz()))
                &&& di.mode & S_IFMT == S_IFDIR
                &&& #[trigger] first_match(dir_list(file_prefix(self.disk(), self.bs(), di, size64_spec(di)), 0), name@) matches Some(k)
                    && dir_list(file_prefix(self.disk(), self.bs(), di, size64_spec(di)), 0)[k].1 == ino
            },
            r matches Err(e) ==> e == Errno::EIO || e == Errno::EFBIG || e == Errno::ENOTDIR || e == Errno::ENOENT,
            // ENOTDIR: the inode read is no directory
            r == Err::<u32, Errno>(Errno::ENOTDIR) ==> exists|di: DiskInode| {
                &&& #[trigger] di.parsed_from(self.disk().subrange(self.inode_offset(dir_ino), self.inode_offset(dir_ino) + self.isz()))
                &&& di.mode & S_IFMT != S_IFDIR
            },
            // ENOENT: the directory read holds no entry of that name
            r == Err::<u32, Errno>(Errno::ENOENT) ==> exists|di: DiskInode| {
                &&& #[trigger] di.parsed_from(self.disk().subrange(self.inode_offset(dir_ino), self.inode_offset(dir_ino) + self.isz()))
                &&& di.mode & S_IFMT == S_IFDIR
                &&& first_match(dir_list(file_prefix(self.disk(), self.bs(), di, size64_spec(di)), 0), name@) is None
            },
            // and the other way round, unless a read fails
            (exists|di: DiskInode| #[trigger] di.parsed_from(self.disk().subrange(self.inode_offset(dir_ino), self.inode_offset(dir_ino) + self.isz()))
                && di.mode & S_IFMT != S_IFDIR) && self.isz() >= DISK_INODE_SIZE
                ==> r == Err::<u32, Errno>(Errno::ENOTDIR) || r == Err::<u32, Errno>(Errno::EIO),
            (exists|di: DiskInode| {
                &&& #[trigger] di.parsed_from(self.disk().subrange(self.inode_offset(dir_ino), self.inode_offset(dir_ino) + self.isz()))
                &&& di.mode & S_IFMT == S_IFDIR
                &&& size64_spec(di) <= usize::MAX
                &&& first_match(dir_list(file_prefix(self.disk(), self.bs(), di, size64_spec(di)), 0), name@) is None
            }) && self.isz() >= DISK_INODE_SIZE
                ==> r == Err::<u32, Errno>(Errno::ENOENT) || r == Err::<u32, Errno>(Errno::EIO) || r == Err::<u32, Errno>(Errno::EFBIG),
            (exists|di: DiskInode| {
                &&& #[trigger] di.parsed_from(self.disk().subrange(self.inode_offset(dir_ino), self.inode_offset(dir_ino) + self.isz()))
                &&& di.mode & S_IFMT == S_IFDIR
                &&& size64_spec(di) <= usize::MAX
                &&& first_match(dir_list(file_prefix(self.disk(), self.bs(), di, size64_spec(di)), 0), name@) is Some
            }) && self.isz() >= DISK_INODE_SIZE
                ==> r is Ok || r == Err::<u32, Errno>(Errno::EIO) || r == Err::<u32, Errno>(Errno::EFBIG),
    {
        let di = self.read_inode(dir_ino)?;
        proof {
            let bytes = self.disk().subrange(self.inode_offset(dir_ino), self.inode_offset(dir_ino) + self.isz());
            assert forall|w: DiskInode| #[trigger] w.parsed_from(bytes) implies w == di by {
                DiskInode::lemma_parse_unique(w, di, bytes);
            }
        }
        if !di.is_dir() {
            return Err(Errno::ENOTDIR);
        }
        if di.size64() > usize::MAX as u64 {
            return Err(Errno::EFBIG);
        }
        let entries = self.read_dir_entries(&di)?;
        let ghost ev = entry_views(entries@);
        let mut i: usize = 0;
        while i < entries.len()
            invariant
                i <= entries@.len(),
                ev == entry_views(entries@),
                ev == dir_list(file_prefix(self.disk(), self.bs(), di, size64_spec(di)), 0),
                di.parsed_from(self.disk().subrange(self.inode_offset(dir_ino), self.inode_offset(dir_ino) + self.isz())),
                di.mode & S_IFMT == S_IFDIR,
                first_match(ev.take(i as int), name@) is None,
                forall|w: DiskInode| #[trigger] w.parsed_from(self.disk().subrange(self.inode_offset(dir_ino), self.inode_offset(dir_ino) + self.isz()))
                    ==> w == di,
            decreases entries@.len() - i,
        {
            proof {
                assert(ev.take(i + 1).drop_last() =~= ev.take(i as int));
            }
            if name_matches(&entries[i].0, name) {
                proof {
                    assert(first_match(ev.take(i + 1), name@) == Some(i as int));
                    lemma_first_match_prefix(ev, i as int + 1, name@);
                    let dl = dir_list(file_prefix(self.disk(), self.bs(), di, size64_spec(di)), 0);
                    assert(dl == ev);
                    assert(first_match(dl, name@) == Some(i as int));
                    assert(dl[i as int].1 == entries@[i as int].1);
                }
                return Ok(entries[i].1);
            }
            i = i + 1;
        }
        proof {
            assert(ev.take(ev.len() as int) =~= ev);
        }
        Err(Errno::ENOENT)
    }

    /// The entries of directory `ino` for the VFS.
    pub fn readdir(&self, ino: u32) -> (r: Result<Vec<VfsDirEntry>, Errno>)
        requires
            self.wf(),
        ensures
            r matches Ok(v) ==> exists|di: DiskInode| {
                &&& di.parsed_from(self.disk().subrange(self.inode_offset(ino), self.inode_offset(ino) + self.isz()))
                &&& di.mode & S_IFMT == S_IFDIR
                &&& #[trigger] dir_list(file_prefix(self.disk(), self.bs(), di, size64_spec(di)), 0).len() == v@.len()
                &&& forall|k: int| 0 <= k < v@.len() ==> {
                    let e = dir_list(file_prefix(self.disk(), self.bs(), di, size64_spec(di)), 0)[k];
                    &&& entry_matches(e.0, (#[trigger] v@[k]).name@)
                    &&& v@[k].inode == e.1 as u64
                    &&& v@[k].inode_type == ft_spec(e.2)
                }
            },
            r matches Err(e) ==> e == Errno::EIO || e == Errno::EFBIG || e == Errno::ENOTDIR,
    {
        let di = self.read_inode(ino)?;
        if !di.is_dir() {
            return Err(Errno::ENOTDIR);
        }
        if di.size64() > usize::MAX as u64 {
            return Err(Errno::EFBIG);
        }
        let entries = self.read_dir_entries(&di)?;
        let ghost ev = entry_views(entries@);
        let mut out: Vec<VfsDirEntry> = Vec::new();
        let mut i: usize = 0;
        while i < entries.len()
            invariant
                i <= entries@.len(),
                ev == entry_views(entries@),
                out@.len() == i,
                forall|k: int| 0 <= k < i ==> {
                    &&& entry_matches(ev[k].0, (#[trigger] out@[k]).name@)
                    &&& out@[k].inode == ev[k].1 as u64
                    &&& out@[k].inode_type == ft_spec(ev[k].2)
                },
            decreases entries@.len() - i,
        {
            let name = name_to_string(&entries[i].0);
            out.push(VfsDirEntry { name, inode: entries[i].1 as u64, inode_type: ft_to_vfs(entries[i].2) });
            i = i + 1;
        }
        proof {
            let dl = dir_list(file_prefix(self.disk(), self.bs(), di, size64_spec(di)), 0);
            assert(dl == ev);
            assert(dl.len() == out@.len());
        }
        Ok(out)
    }

    /// Status of inode `ino`.
    pub fn stat(&self, ino: u32) -> (r: Result<Stat, Errno>)
        requires
            self.wf(),
        ensures
            r matches Ok(st) ==> exists|di: DiskInode| {
                &&& #[trigger] di.parsed_from(self.disk().subrange(self.inode_offset(ino), self.inode_offset(ino) + self.isz()))
                &&& st.inode == ino as u64
                &&& st.inode_type == disk_type_spec(di.mode & S_IFMT)
                &&& st.size == size64_spec(di)
                &&& st.nlink == di.links_count as u64
                &&& st.uid == di.uid as u32
                &&& st.gid == di.gid as u32
                &&& st.mode == di.mode as u32
                &&& st.dev == 0 && st.rdev == 0
                &&& st.blksize == self.block_size as u64
                &&& st.blocks == di.blocks as u64
            },
            r matches Err(e) ==> e == Errno::EIO,
    {
        let di = self.read_inode(ino)?;
        Ok(Stat {
            inode: ino as u64,
            inode_type: disk_type_to_vfs(di.file_type()),
            size: di.size64(),
            nlink: di.links_count as u64,
            uid: di.uid as u32,
            gid: di.gid as u32,
            mode: di.mode as u32,
            dev: 0,
            rdev: 0,
            blksize: self.block_size as u64,
            blocks: di.blocks as u64,
        })
    }

    /// Type of inode `ino`; a regular file when the inode cannot be read.
    pub fn inode_type(&self, ino: u32) -> (t: InodeType)
        requires
            self.wf(),
        ensures
            !self.inode_valid(ino) ==> t == InodeType::File,
            t != InodeType::File ==> exists|di: DiskInode| {
                &&& #[trigger] di.parsed_from(self.disk().subrange(self.inode_offset(ino), self.inode_offset(ino) + self.isz()))
                &&& t == disk_type_spec(di.mode & S_IFMT)
            },
    {
        match self.read_inode(ino) {
            Ok(di) => disk_type_to_vfs(di.file_type()),
            Err(_) => InodeType::File,
        }
    }

    /// Read from file `ino` at `offset` into `buf`.
    pub fn read(&self, ino: u32, offset: u64, buf: &mut Vec<u8>) -> (r: Result<usize, Errno>)
        requires
            self.wf(),
        ensures
            final(buf)@.len() == old(buf)@.len(),
            r matches Ok(n) ==> exists|di: DiskInode| {
                &&& #[trigger] di.parsed_from(self.disk().subrange(self.inode_offset(ino), self.inode_offset(ino) + self.isz()))
                &&& n == read_len(size64_spec(di), offset as int, old(buf)@.len() as int)
                &&& forall|i: int| 0 <= i < n ==> #[trigger] final(buf)@[i] == file_byte(self.disk(), self.bs(), di, offset + i)
            },
            r matches Err(e) ==> e == Errno::EIO || e == Errno::EFBIG,
    {
        let di = self.read_inode(ino)?;
        self.read_file_data(&di, offset, buf)
    }
}

/// Bit `t` of a bitmap is clear.
pub open spec fn bit_clear(bm: Seq<u8>, t: int) -> bool {
    bm[t / 8] & (1u8 << ((t % 8) as u8)) == 0
}

/// The first clear bit among the first `n` bits of a bitmap.
pub open spec fn first_clear(bm: Seq<u8>, n: int) -> Option<int>
    decreases n,
{
    if n <= 0 {
        None
    } else {
        match first_clear(bm, n - 1) {
            Some(t) => Some(t),
            None => if bit_clear(bm, n - 1) { Some(n - 1) } else { None },
        }
    }
}

/// Find and set the first clear bit among the first `n` bits of `bm`.
fn take_first_clear(bm: &mut Vec<u8>, n: u32) -> (r: Option<u32>)
    requires
        n as int <= old(bm)@.len() * 8,
    ensures
        final(bm)@.len() == old(bm)@.len(),
        r matches Some(t) ==> t < n,
        first_clear(old(bm)@, n as int) matches Some(t) ==> 0 <= t < n,
        match first_clear(old(bm)@, n as int) {
            Some(t) => r == Some(t as u32)
                && final(bm)@ == old(bm)@.update(t / 8, old(bm)@[t / 8] | (1u8 << ((t % 8) as u8))),
            None => r is None && final(bm)@ == old(bm)@,
        },
{
    proof {
        lemma_first_clear_bound(old(bm)@, n as int);
    }
    let mut bit: u32 = 0;
    while bit < n
        invariant
            bit <= n,
            n as int <= bm@.len() * 8,
            bm@ == old(bm)@,
            first_clear(old(bm)@, bit as int) is None,
        decreases n - bit,
    {
        let byte_idx = (bit / 8) as usize;
        let bit_idx = (bit % 8) as u8;
        if bm[byte_idx] & (1u8 << bit_idx) == 0 {
            let v = bm[byte_idx] | (1u8 << bit_idx);
            bm.set(byte_idx, v);
            proof {
                assert(first_clear(old(bm)@, bit + 1) == Some(bit as int));
                lemma_first_clear_extend(old(bm)@, bit as int + 1, n as int);
            }
            return Some(bit);
        }
        bit = bit + 1;
    }
    None
}

proof fn lemma_first_clear_bound(bm: Seq<u8>, n: int)
    ensures
        first_clear(bm, n) matches Some(t) ==> 0 <= t < n,
    decreases n,
{
    if n > 0 {
        lemma_first_clear_bound(bm, n - 1);
    }
}

proof fn lemma_first_clear_extend(bm: Seq<u8>, k: int, n: int)
    requires
        0 <= k <= n,
        first_clear(bm, k) is Some,
    ensures
        first_clear(bm, n) == first_clear(bm, k),
    decreases n - k,
{
    if k < n {
        lemma_first_clear_extend(bm, k + 1, n);
    }
}

impl<D: BlockDevice> Ext2Fs<D> {
    /// Write inode `ino` back to its inode table slot (the 128 bytes of the inode
    /// structure).
    pub fn write_inode(&mut self, ino: u32, inode: &DiskInode) -> (r: Result<(), Errno>)
        requires
            old(self).wf(),
        ensures
            same_geometry(old(self).sb, final(self).sb),
            same_layout(old(self).bgdt@, final(self).bgdt@),
            final(self).wf(),
            final(self).sb == old(self).sb,
            final(self).bgdt@ == old(self).bgdt@,
            final(self).block_size == old(self).block_size,
            final(self).disk().len() == old(self).disk().len(),
            r is Ok ==> old(self).inode_valid(ino)
                && old(self).inode_offset(ino) + DISK_INODE_SIZE <= old(self).disk().len()
                && inode.parsed_from(final(self).disk().subrange(old(self).inode_offset(ino), old(self).inode_offset(ino) + DISK_INODE_SIZE)),
            // nothing outside the record changes
            forall|k: int| 0 <= k < old(self).disk().len() && !(old(self).inode_offset(ino) <= k < old(self).inode_offset(ino) + DISK_INODE_SIZE)
                ==> #[trigger] final(self).disk()[k] == old(self).disk()[k],
            r matches Err(e) ==> e == Errno::EIO,
            !old(self).inode_valid(ino) ==> r is Err && final(self).disk() == old(self).disk(),
    {
        let ipg = self.sb.inodes_per_group;
        if ino == 0 {
            return Err(Errno::EIO);
        }
        let group = ((ino - 1) / ipg) as usize;
        let index = ((ino - 1) % ipg) as u64;
        if group >= self.bgdt.len() {
            return Err(Errno::EIO);
        }
        let inode_size = self.sb.inode_size();
        let table = self.bgdt[group].inode_table as u64;
        proof {
            assert(table * self.block_size <= 0xFFFF_FFFF * 65536) by (nonlinear_arith)
                requires
                    table <= 0xFFFF_FFFF,
                    self.block_size <= 65536,
            ;
            assert(index * inode_size <= 0xFFFF_FFFF * 0xFFFF) by (nonlinear_arith)
                requires
                    index <= 0xFFFF_FFFF,
                    inode_size <= 0xFFFF,
            ;
        }
        let offset = table * (self.block_size as u64) + index * (inode_size as u64);
        let bytes = inode.to_bytes();
        match write_block_bytes(&mut self.dev, offset, &bytes) {
            Ok(()) => Ok(()),
            Err(_) => Err(Errno::EIO),
        }
    }

    /// Write a whole data block.
    fn write_data_block(&mut self, block_num: u32, data: &Vec<u8>) -> (r: Result<(), Errno>)
        requires
            old(self).wf(),
            data@.len() == old(self).bs(),
        ensures
            final(self).wf(),
            final(self).sb == old(self).sb,
            final(self).bgdt@ == old(self).bgdt@,
            final(self).block_size == old(self).block_size,
            final(self).disk().len() == old(self).disk().len(),
            r is Ok ==> block_num * old(self).bs() + old(self).bs() <= old(self).disk().len()
                && final(self).disk() == crate::fs::ext2::dev::splice(old(self).disk(), block_num * old(self).bs(), data@),
            r is Err ==> final(self).disk() == old(self).disk(),
            r matches Err(e) ==> e == Errno::EIO,
            final(self).dev.dependable() == old(self).dev.dependable(),
            old(self).dev.dependable() && old(self).disk().len() % 512 == 0
                && block_num * old(self).bs() + old(self).bs() <= old(self).disk().len() ==> r is Ok,
    {
        proof {
            assert(block_num * self.block_size <= 0xFFFF_FFFF * 65536) by (nonlinear_arith)
                requires
                    block_num <= 0xFFFF_FFFF,
                    self.block_size <= 65536,
            ;
            vstd::arithmetic::div_mod::lemma_mod_multiples_basic(block_num as int * (self.block_size as int / 512), 512);
            assert(block_num * self.block_size == (block_num * (self.block_size as int / 512)) * 512) by (nonlinear_arith)
                requires
                    self.block_size % 512 == 0,
            ;
            vstd::arithmetic::div_mod::lemma_mod_multiples_basic(self.block_size as int / 512, 512);
        }
        let offset = block_num as u64 * self.block_size as u64;
        match write_block_bytes(&mut self.dev, offset, data) {
            Ok(()) => {
                proof {
                    assert((offset as int / 512) * 512 == offset);
                }
                Ok(())
            },
            Err(_) => Err(Errno::EIO),
        }
    }

    /// Number of blocks in group `g`.
    pub open spec fn blocks_in_group(&self, g: int) -> int {
        let bpg = self.sb.blocks_per_group as int;
        let rest = self.sb.blocks_count - g * bpg;
        if bpg < rest { bpg } else { rest }
    }

    /// How many bits of group `g`'s block bitmap name blocks: the group's blocks, at
    /// most one block of bits.
    pub open spec fn bit_limit(&self, g: int) -> int {
        let in_group = if self.blocks_in_group(g) < 0 { 0 } else { self.blocks_in_group(g) };
        if in_group < self.bs() * 8 { in_group } else { self.bs() * 8 }
    }

    /// The block bitmap of group `g` on the disk.
    pub open spec fn block_bitmap_of(&self, g: int) -> Seq<u8> {
        self.disk().subrange(self.bgdt@[g].block_bitmap * self.bs(), self.bgdt@[g].block_bitmap * self.bs() + self.bs())
    }

    /// Group `g` counts free blocks and its bitmap has a clear bit that names a block.
    pub open spec fn group_has_room(&self, g: int) -> bool {
        &&& self.bgdt@[g].free_blocks_count > 0
        &&& first_clear(self.block_bitmap_of(g), self.bit_limit(g)) is Some
    }

    /// The device answers, holds whole sectors, and holds every block bitmap.
    pub open spec fn bitmaps_reachable(&self) -> bool {
        &&& self.dev.dependable()
        &&& self.disk().len() % 512 == 0
        &&& forall|g: int| 0 <= g < self.bgdt@.len() ==> #[trigger] self.bgdt@[g].block_bitmap * self.bs() + self.bs() <= self.disk().len()
    }

    /// Allocate a free block, trying groups from `preferred_group` on: the first clear
    /// bit of the first group with free blocks whose bitmap can be read is set, and the
    /// free counts drop by one. ENOSPC when no group has one.
    pub fn alloc_block(&mut self, preferred_group: usize) -> (r: Result<u32, Errno>)
        requires
            old(self).wf(),
        ensures
            same_geometry(old(self).sb, final(self).sb),
            same_layout(old(self).bgdt@, final(self).bgdt@),
            final(self).wf(),
            final(self).block_size == old(self).block_size,
            final(self).disk().len() == old(self).disk().len(),
            final(self).bgdt@.len() == old(self).bgdt@.len(),
            r is Err ==> r == Err::<u32, Errno>(Errno::ENOSPC) && final(self).bgdt@ == old(self).bgdt@
                && final(self).sb == old(self).sb && final(self).disk() == old(self).disk(),
            r matches Ok(b) ==> exists|g: int, t: int| {
                &&& 0 <= g < old(self).bgdt@.len()
                // only the group's block bitmap is written
                &&& outside_block_same(old(self).disk(), final(self).disk(), old(self).bgdt@[g].block_bitmap as int, old(self).bs())
                &&& old(self).bgdt@[g].free_blocks_count > 0
                &&& #[trigger] first_clear(old(self).disk().subrange(
                        old(self).bgdt@[g].block_bitmap * old(self).bs(),
                        old(self).bgdt@[g].block_bitmap * old(self).bs() + old(self).bs()), t + 1) == Some(t)
                &&& b == (g as u32).wrapping_mul(old(self).sb.blocks_per_group).wrapping_add(t as u32).wrapping_add(old(self).sb.first_data_block)
                // the bit names a block of the group
                &&& t < old(self).blocks_in_group(g)
                &&& t < old(self).bs() * 8
                // the bitmap goes back with the bit set (a failed write leaves the disk as it was)
                &&& (final(self).disk() == old(self).disk()
                    || final(self).disk().subrange(old(self).bgdt@[g].block_bitmap * old(self).bs(),
                        old(self).bgdt@[g].block_bitmap * old(self).bs() + old(self).bs())
                        == with_bit(old(self).disk().subrange(old(self).bgdt@[g].block_bitmap * old(self).bs(),
                        old(self).bgdt@[g].block_bitmap * old(self).bs() + old(self).bs()), t))
                &&& final(self).bgdt@[g].free_blocks_count == old(self).bgdt@[g].free_blocks_count - 1
                &&& final(self).sb.free_blocks_count == old(self).sb.free_blocks_count.wrapping_sub(1)
            },
            final(self).dev.dependable() == old(self).dev.dependable(),
            // on a device that answers, the group is the first from the preferred one on
            // (wrapping around) with room, its bitmap goes back with the bit set, and
            // ENOSPC comes exactly when no group has room
            old(self).bitmaps_reachable() ==> (r is Ok <==> exists|o: int| 0 <= o < old(self).bgdt@.len()
                && #[trigger] old(self).group_has_room(group_at(preferred_group as int, old(self).bgdt@.len() as int, o))),
            old(self).bitmaps_reachable() && r is Ok ==> exists|o: int| #![trigger group_at(preferred_group as int, old(self).bgdt@.len() as int, o)] {
                let g = group_at(preferred_group as int, old(self).bgdt@.len() as int, o);
                &&& 0 <= o < old(self).bgdt@.len()
                &&& old(self).group_has_room(g)
                &&& forall|o2: int| 0 <= o2 < o ==> !#[trigger] old(self).group_has_room(group_at(preferred_group as int, old(self).bgdt@.len() as int, o2))
                &&& final(self).disk() == crate::fs::ext2::dev::splice(old(self).disk(), old(self).bgdt@[g].block_bitmap * old(self).bs(),
                    with_bit(old(self).block_bitmap_of(g), first_clear(old(self).block_bitmap_of(g), old(self).bit_limit(g))->0))
                &&& r == Ok::<u32, Errno>((g as u32).wrapping_mul(old(self).sb.blocks_per_group)
                    .wrapping_add(first_clear(old(self).block_bitmap_of(g), old(self).bit_limit(g))->0 as u32)
                    .wrapping_add(old(self).sb.first_data_block))
            },
    {
        let bg_count = self.bgdt.len();
        let bs = self.block_size;
        let mut offset: usize = 0;
        while offset < bg_count
            invariant
                self.wf(),
                bs == self.block_size,
                bg_count == self.bgdt@.len(),
                self.bgdt@ == old(self).bgdt@,
                self.sb == old(self).sb,
                self.block_size == old(self).block_size,
                self.disk().len() == old(self).disk().len(),
                self.disk() == old(self).disk(),
                old(self).bitmaps_reachable() ==> forall|o2: int| 0 <= o2 < offset
                    ==> !#[trigger] old(self).group_has_room(group_at(preferred_group as int, bg_count as int, o2)),
                self.dev == old(self).dev,
            decreases bg_count - offset,
        {
            let a = preferred_group % bg_count;
            let group = if a >= bg_count - offset { a - (bg_count - offset) } else { a + offset };
            proof {
                lemma_group_at(preferred_group as int, bg_count as int, offset as int, group as int);
            }
            let desc = self.bgdt[group];
            if desc.free_blocks_count == 0 {
                proof {
                    assert(!old(self).group_has_room(group_at(preferred_group as int, bg_count as int, offset as int)));
                }
                offset = offset + 1;
                continue;
            }
            let bitmap_off = desc.block_bitmap as u64 * bs as u64;
            let mut bitmap = zeroed(bs as usize);
            proof {
                assert(desc.block_bitmap * bs <= 0xFFFF_FFFF * 65536) by (nonlinear_arith)
                    requires
                        desc.block_bitmap <= 0xFFFF_FFFF,
                        bs <= 65536,
                ;
            }
            if read_block_bytes(&self.dev, bitmap_off, &mut bitmap).is_err() {
                proof {
                    if old(self).bitmaps_reachable() {
                        assert(old(self).bgdt@[group as int].block_bitmap * old(self).bs() + old(self).bs() <= old(self).disk().len());
                    }
                }
                offset = offset + 1;
                continue;
            }
            let bpg = self.sb.blocks_per_group;
            let g32 = group as u32;
            proof {
                assert((g32 as u64) * (bpg as u64) <= 0xFFFF_FFFF * 0xFFFF_FFFF) by (nonlinear_arith)
                    requires
                        g32 <= 0xFFFF_FFFF,
                        bpg <= 0xFFFF_FFFF,
                ;
            }
            let first = (g32 as u64) * (bpg as u64);
            let in_group: u64 = if (self.sb.blocks_count as u64) <= first {
                0
            } else if (bpg as u64) < (self.sb.blocks_count as u64) - first {
                bpg as u64
            } else {
                (self.sb.blocks_count as u64) - first
            };
            let limit: u32 = if in_group < (bs as u64) * 8 { in_group as u32 } else { bs * 8 };
            let ghost bm0 = bitmap@;
            proof {
                assert(first == group * bpg);
                assert(limit == old(self).bit_limit(group as int));
                assert(bm0 == old(self).block_bitmap_of(group as int));
            }
            match take_first_clear(&mut bitmap, limit) {
                Some(bit) => {
                    let ghost dk0 = self.disk();
                    let wr = write_block_bytes(&mut self.dev, bitmap_off, &bitmap);
                    proof {
                        if old(self).bitmaps_reachable() {
                            assert(old(self).bgdt@[group as int].block_bitmap * old(self).bs() + old(self).bs() <= old(self).disk().len());
                            assert(wr is Ok);
                            assert(old(self).group_has_room(group_at(preferred_group as int, bg_count as int, offset as int)));
                        }
                    }
                    proof {
                        assert(outside_block_same(dk0, self.disk(), desc.block_bitmap as int, bs as int));
                        assert(bitmap@ == with_bit(bm0, bit as int));
                    }
                    let mut d = self.bgdt[group];
                    d.free_blocks_count = d.free_blocks_count - 1;
                    self.bgdt.set(group, d);
                    self.sb.free_blocks_count = self.sb.free_blocks_count.wrapping_sub(1);
                    let block_num = g32.wrapping_mul(bpg).wrapping_add(bit).wrapping_add(self.sb.first_data_block);
                    proof {
                        let bc = old(self).sb.blocks_count as int;
                        let rest = bc - group * bpg;
                        assert(first == group * bpg);
                        assert(bit < old(self).blocks_in_group(group as int)) by {
                            if bc <= first {
                                assert(in_group == 0);
                            } else if bpg < rest {
                                assert(in_group == bpg);
                            } else {
                                assert(in_group == rest);
                            }
                        }
                        assert(first_clear(bm0, limit as int) == Some(bit as int));
                        lemma_first_clear_prefix(bm0, bit as int, limit as int);
                        assert(bm0 == old(self).disk().subrange(desc.block_bitmap * old(self).bs(), desc.block_bitmap * old(self).bs() + old(self).bs()));
                        assert(first_clear(old(self).disk().subrange(
                            old(self).bgdt@[group as int].block_bitmap * old(self).bs(),
                            old(self).bgdt@[group as int].block_bitmap * old(self).bs() + old(self).bs()), bit as int + 1) == Some(bit as int));
                    }
                    return Ok(block_num);
                },
                None => {},
            }
            offset = offset + 1;
        }
        proof {
            if old(self).bitmaps_reachable() {
                assert forall|o: int| 0 <= o < old(self).bgdt@.len()
                    implies !#[trigger] old(self).group_has_room(group_at(preferred_group as int, old(self).bgdt@.len() as int, o)) by {
                    assert(!old(self).group_has_room(group_at(preferred_group as int, bg_count as int, o)));
                }
            }
        }
        Err(Errno::ENOSPC)
    }
}

impl<D: BlockDevice> Ext2Fs<D> {
    /// Allocate a free inode, trying groups from `preferred_group` on: the first clear
    /// bit of the first group with free inodes whose bitmap can be read is set, and the
    /// free counts drop by one. ENOSPC when no group has one.
    pub fn alloc_inode(&mut self, preferred_group: usize) -> (r: Result<u32, Errno>)
        requires
            old(self).wf(),
        ensures
            same_geometry(old(self).sb, final(self).sb),
            same_layout(old(self).bgdt@, final(self).bgdt@),
            final(self).wf(),
            final(self).block_size == old(self).block_size,
            final(self).disk().len() == old(self).disk().len(),
            final(self).bgdt@.len() == old(self).bgdt@.len(),
            final(self).sb.inodes_per_group == old(self).sb.inodes_per_group,
            final(self).sb.rev_level == old(self).sb.rev_level,
            final(self).sb.inode_size == old(self).sb.inode_size,
            forall|i: int| 0 <= i < old(self).bgdt@.len() ==> #[trigger] final(self).bgdt@[i].inode_table == old(self).bgdt@[i].inode_table,
            r is Err ==> r == Err::<u32, Errno>(Errno::ENOSPC) && final(self).bgdt@ == old(self).bgdt@
                && final(self).sb == old(self).sb,
            r matches Ok(ino) ==> exists|g: int, t: int| {
                &&& 0 <= g < old(self).bgdt@.len()
                &&& old(self).bgdt@[g].free_inodes_count > 0
                &&& #[trigger] first_clear(old(self).disk().subrange(
                        old(self).bgdt@[g].inode_bitmap * old(self).bs(),
                        old(self).bgdt@[g].inode_bitmap * old(self).bs() + old(self).bs()), t + 1) == Some(t)
                &&& ino == (g as u32).wrapping_mul(old(self).sb.inodes_per_group).wrapping_add(t as u32).wrapping_add(1)
                // the bit names an inode of the group
                &&& t < old(self).sb.inodes_per_group
                &&& t < old(self).bs() * 8
                &&& final(self).bgdt@[g].free_inodes_count == old(self).bgdt@[g].free_inodes_count - 1
                &&& final(self).sb.free_inodes_count == old(self).sb.free_inodes_count.wrapping_sub(1)
            },
    {
        let bg_count = self.bgdt.len();
        let bs = self.block_size;
        let mut offset: usize = 0;
        while offset < bg_count
            invariant
                self.wf(),
                bs == self.block_size,
                bg_count == self.bgdt@.len(),
                self.bgdt@ == old(self).bgdt@,
                self.sb == old(self).sb,
                self.block_size == old(self).block_size,
                self.disk() == old(self).disk(),
            decreases bg_count - offset,
        {
            let a = preferred_group % bg_count;
            let group = if a >= bg_count - offset { a - (bg_count - offset) } else { a + offset };
            let desc = self.bgdt[group];
            if desc.free_inodes_count == 0 {
                offset = offset + 1;
                continue;
            }
            let bitmap_off = desc.inode_bitmap as u64 * bs as u64;
            let mut bitmap = zeroed(bs as usize);
            proof {
                assert(desc.inode_bitmap * bs <= 0xFFFF_FFFF * 65536) by (nonlinear_arith)
                    requires
                        desc.inode_bitmap <= 0xFFFF_FFFF,
                        bs <= 65536,
                ;
            }
            if read_block_bytes(&self.dev, bitmap_off, &mut bitmap).is_err() {
                offset = offset + 1;
                continue;
            }
            let ipg = self.sb.inodes_per_group;
            let g32 = group as u32;
            let limit: u32 = if (ipg as u64) < (bs as u64) * 8 { ipg } else { bs * 8 };
            let ghost bm0 = bitmap@;
            match take_first_clear(&mut bitmap, limit) {
                Some(bit) => {
                    let _ = write_block_bytes(&mut self.dev, bitmap_off, &bitmap);
                    let mut d = self.bgdt[group];
                    d.free_inodes_count = d.free_inodes_count - 1;
                    self.bgdt.set(group, d);
                    self.sb.free_inodes_count = self.sb.free_inodes_count.wrapping_sub(1);
                    let ino = g32.wrapping_mul(ipg).wrapping_add(bit).wrapping_add(1);
                    proof {
                        assert(first_clear(bm0, limit as int) == Some(bit as int));
                        lemma_first_clear_prefix(bm0, bit as int, limit as int);
                        assert(first_clear(old(self).disk().subrange(
                            old(self).bgdt@[group as int].inode_bitmap * old(self).bs(),
                            old(self).bgdt@[group as int].inode_bitmap * old(self).bs() + old(self).bs()), bit as int + 1) == Some(bit as int));
                    }
                    return Ok(ino);
                },
                None => {},
            }
            offset = offset + 1;
        }
        Err(Errno::ENOSPC)
    }

    /// Free block `block_num`: clear its bitmap bit and raise the free counts.
    pub fn free_block(&mut self, block_num: u32) -> (r: Result<(), Errno>)
        requires
            old(self).wf(),
        ensures
            same_geometry(old(self).sb, final(self).sb),
            same_layout(old(self).bgdt@, final(self).bgdt@),
            final(self).wf(),
            final(self).block_size == old(self).block_size,
            final(self).disk().len() == old(self).disk().len(),
            final(self).bgdt@.len() == old(self).bgdt@.len(),
            r matches Err(e) ==> (e == Errno::EIO || e == Errno::EINVAL),
            (block_num < old(self).sb.first_data_block
                || (block_num - old(self).sb.first_data_block) / (old(self).sb.blocks_per_group as int) >= old(self).bgdt@.len())
                ==> r == Err::<(), Errno>(Errno::EINVAL) && final(self).disk() == old(self).disk(),
            r is Ok ==> {
                let rel = block_num - old(self).sb.first_data_block;
                let g = rel / (old(self).sb.blocks_per_group as int);
                let bit = rel % (old(self).sb.blocks_per_group as int);
                let at = old(self).bgdt@[g].block_bitmap * old(self).bs();
                &&& bit / 8 < old(self).bs()
                &&& final(self).disk().subrange(at, at + old(self).bs()) == old(self).disk().subrange(at, at + old(self).bs())
                    .update(bit / 8, old(self).disk()[at + bit / 8] & !(1u8 << ((bit % 8) as u8)))
                &&& final(self).bgdt@[g].free_blocks_count == old(self).bgdt@[g].free_blocks_count.wrapping_add(1)
                &&& final(self).sb.free_blocks_count == old(self).sb.free_blocks_count.wrapping_add(1)
            },
    {
        if block_num < self.sb.first_data_block {
            return Err(Errno::EINVAL);
        }
        let rel = block_num - self.sb.first_data_block;
        let group = (rel / self.sb.blocks_per_group) as usize;
        let bit = (rel % self.sb.blocks_per_group) as usize;
        if group >= self.bgdt.len() {
            return Err(Errno::EINVAL);
        }
        let bs = self.block_size;
        if bit / 8 >= bs as usize {
            return Err(Errno::EINVAL);
        }
        let desc = self.bgdt[group];
        proof {
            assert(desc.block_bitmap * bs <= 0xFFFF_FFFF * 65536) by (nonlinear_arith)
                requires
                    desc.block_bitmap <= 0xFFFF_FFFF,
                    bs <= 65536,
            ;
        }
        let bitmap_off = desc.block_bitmap as u64 * bs as u64;
        let mut bitmap = zeroed(bs as usize);
        if read_block_bytes(&self.dev, bitmap_off, &mut bitmap).is_err() {
            return Err(Errno::EIO);
        }
        let ghost bm0 = bitmap@;
        let v = bitmap[bit / 8] & !(1u8 << ((bit % 8) as u8));
        bitmap.set(bit / 8, v);
        if write_block_bytes(&mut self.dev, bitmap_off, &bitmap).is_err() {
            return Err(Errno::EIO);
        }
        let mut d = self.bgdt[group];
        d.free_blocks_count = d.free_blocks_count.wrapping_add(1);
        self.bgdt.set(group, d);
        self.sb.free_blocks_count = self.sb.free_blocks_count.wrapping_add(1);
        Ok(())
    }
}

impl<D: BlockDevice> Ext2Fs<D> {
    /// The disk block that holds logical block `logical` of the file, allocating a
    /// direct block when there is none; with it, the group whose block bitmap the
    /// allocation wrote, if one did.
    fn block_for_write(&mut self, inode: &mut DiskInode, logical: u32, Ghost(bgdt): Ghost<Seq<BlockGroupDesc>>)
        -> (r: Result<(u32, Ghost<Option<int>>), Errno>)
        requires
            old(self).wf(),
            same_layout(bgdt, old(self).bgdt@),
        ensures
            final(self).wf(),
            final(self).block_size == old(self).block_size,
            final(self).bgdt@.len() == old(self).bgdt@.len(),
            same_geometry(old(self).sb, final(self).sb),
            same_layout(old(self).bgdt@, final(self).bgdt@),
            final(self).disk().len() == old(self).disk().len(),
            final(inode).mode == old(inode).mode,
            final(inode).links_count == old(inode).links_count,
            final(inode).size == old(inode).size,
            final(inode).dir_acl == old(inode).dir_acl,
            r matches Err(e) ==> e == Errno::EIO || e == Errno::EFBIG || e == Errno::ENOSPC,
            // a direct block that is there already is used as it is
            logical < 12 && old(inode).block@[logical as int] != 0 ==> final(inode).block@ == old(inode).block@,
            logical < 12 && old(inode).block@[logical as int] != 0 ==> *final(self) == *old(self)
                && (r matches Ok((b, g)) && b == old(inode).block@[logical as int]),
            final(self).dev.dependable() == old(self).dev.dependable(),
            forall|l: int| 0 <= l < 15 && old(inode).block@[l] != 0 ==> #[trigger] final(inode).block@[l] == old(inode).block@[l],
            r matches Ok((b, g)) ==> {
                &&& logical < 12 ==> final(inode).block@[logical as int] == b
                &&& forall|l: int| 0 <= l < 15 && l != logical ==> #[trigger] final(inode).block@[l] == old(inode).block@[l]
                &&& match g@ {
                    None => final(self).disk() == old(self).disk(),
                    Some(gg) => 0 <= gg < bgdt.len()
                        && outside_block_same(old(self).disk(), final(self).disk(), bgdt[gg].block_bitmap as int, old(self).bs()),
                }
            },
    {
        let ghost bsi = self.bs();
        let ghost mut galloc: Option<int> = None;
        let mut disk_block = match self.resolve_block(inode, logical) {
            Ok(b) => b,
            Err(_) => 0,
        };
        proof {
            if logical < 12 && disk_block != 0 {
                assert(disk_block == inode.block@[logical as int]);
            }
        }
        if disk_block == 0 {
            let ghost dbefore = self.disk();
            let ghost bgdt_before = self.bgdt@;
            let ghost sb_before = self.sb;
            disk_block = self.alloc_block(0)?;
            proof {
                let (gg, t) = choose|gg: int, t: int| {
                    &&& 0 <= gg < bgdt_before.len()
                    &&& outside_block_same(dbefore, self.disk(), bgdt_before[gg].block_bitmap as int, bsi)
                    &&& bgdt_before[gg].free_blocks_count > 0
                    &&& #[trigger] first_clear(dbefore.subrange(
                            bgdt_before[gg].block_bitmap * (bsi),
                            bgdt_before[gg].block_bitmap * (bsi) + (bsi)), t + 1) == Some(t)
                    &&& disk_block == (gg as u32).wrapping_mul(sb_before.blocks_per_group).wrapping_add(t as u32).wrapping_add(sb_before.first_data_block)
                    &&& self.bgdt@[gg].free_blocks_count == bgdt_before[gg].free_blocks_count - 1
                    &&& self.sb.free_blocks_count == sb_before.free_blocks_count.wrapping_sub(1)
                };
                assert(bgdt_before[gg].block_bitmap == bgdt[gg].block_bitmap);
                galloc = Some(gg);
                assert(galloc matches Some(g) && 0 <= g < bgdt.len());
            }
            if logical < DIRECT_BLOCKS {
                inode.block[logical as usize] = disk_block;
            } else {
                return Err(Errno::EFBIG);
            }
            inode.blocks = inode.blocks.wrapping_add(self.block_size / 512);
        }
        Ok((disk_block, Ghost(galloc)))
    }

    /// Write the part of `data` from `bytes_written` on that falls in one file block,
    /// allocating a direct block for a hole; returns how many bytes it wrote.
    #[verifier::rlimit(100)]
    #[verifier::spinoff_prover]
    fn write_chunk(&mut self, inode: &mut DiskInode, offset: u64, data: &Vec<u8>, bytes_written: usize,
        Ghost(bgdt): Ghost<Seq<BlockGroupDesc>>) -> (r: Result<usize, Errno>)
        requires
            old(self).wf(),
            bytes_written < data@.len(),
            offset + data@.len() <= u64::MAX,
            same_layout(bgdt, old(self).bgdt@),
            bytes_written > 0 ==> (offset + bytes_written) % old(self).bs() == 0,
            reads_back(old(self).disk(), old(self).bs(), *old(inode), bgdt, offset as int, bytes_written as int, data@),
        ensures
            final(self).wf(),
            final(self).block_size == old(self).block_size,
            final(self).bgdt@.len() == old(self).bgdt@.len(),
            same_geometry(old(self).sb, final(self).sb),
            same_layout(old(self).bgdt@, final(self).bgdt@),
            final(self).disk().len() == old(self).disk().len(),
            final(inode).mode == old(inode).mode,
            final(inode).links_count == old(inode).links_count,
            final(inode).size == old(inode).size,
            final(inode).dir_acl == old(inode).dir_acl,
            r matches Err(e) ==> e == Errno::EIO || e == Errno::EFBIG || e == Errno::ENOSPC,
            r matches Ok(c) ==> {
                &&& 0 < c
                &&& bytes_written + c <= data@.len()
                &&& bytes_written + c < data@.len() ==> (offset + bytes_written + c) % old(self).bs() == 0
                &&& reads_back(final(self).disk(), old(self).bs(), *final(inode), bgdt, offset as int, bytes_written + c, data@)
            },
            (offset + bytes_written) / old(self).bs() < 12 && old(inode).block@[(offset + bytes_written) / old(self).bs()] != 0
                ==> final(inode).block@ == old(inode).block@,
            forall|l: int| 0 <= l < 15 && old(inode).block@[l] != 0 ==> #[trigger] final(inode).block@[l] == old(inode).block@[l],
            // within the direct blocks, only block 0, a bitmap or a direct block changes
            r is Ok && (offset + bytes_written) / old(self).bs() < 12
                ==> changes_touched(old(self).disk(), final(self).disk(), old(self).bs(), *final(inode), bgdt),
            // an overwrite of a set direct block on a device that answers goes through
            final(self).dev.dependable() == old(self).dev.dependable(),
            old(self).dev.dependable() && old(self).disk().len() % 512 == 0
                && (offset + bytes_written) / old(self).bs() < 12
                && old(inode).block@[(offset + bytes_written) / old(self).bs()] != 0
                && old(inode).block@[(offset + bytes_written) / old(self).bs()] * old(self).bs() + old(self).bs() <= old(self).disk().len()
                ==> r is Ok,
    {
        let n = data.len();
        let bs = self.block_size as u64;
        let ghost i0 = *inode;
        let ghost d0 = self.disk();
        let file_offset = offset + bytes_written as u64;
        let ghost fo = file_offset as int;
        proof {
            lemma_pos_in_block(fo, old(self).bs());
        }
        let logical = (file_offset / bs) as u32;
        let block_offset = (file_offset % bs) as usize;
        let room = (bs as usize) - block_offset;
        let chunk = if room < n - bytes_written { room } else { n - bytes_written };
        let (disk_block, gh) = self.block_for_write(inode, logical, Ghost(bgdt))?;
        let ghost galloc: Option<int> = gh@;
        proof {
            if fo / old(self).bs() < 12 {
                assert(logical == fo / old(self).bs());
            }
        }
        let mut block_buf = zeroed(bs as usize);
        if block_offset > 0 || chunk < bs as usize {
            self.read_data_block(disk_block, &mut block_buf)?;
        }
        let mut k: usize = 0;
        while k < chunk
            invariant
                k <= chunk,
                block_offset + chunk <= bs,
                bs <= 65536,
                block_buf@.len() == bs,
                bytes_written + chunk <= n,
                n == data@.len(),
                forall|k2: int| 0 <= k2 < k ==> #[trigger] block_buf@[block_offset + k2] == data@[bytes_written + k2],
            decreases chunk - k,
        {
            block_buf.set(block_offset + k, data[bytes_written + k]);
            k = k + 1;
        }
        let ghost d1 = self.disk();
        self.write_data_block(disk_block, &block_buf)?;
        proof {
            lemma_chunk_reads_back(d0, d1, self.disk(), i0, *inode, bgdt, old(self).bs(), offset as int,
                bytes_written as int, chunk as int, data@, disk_block as int, block_buf@, galloc);
            if bytes_written + chunk < n {
                assert(chunk == room);
                vstd::arithmetic::div_mod::lemma_mod_multiples_basic(fo / (old(self).bs()) + 1, old(self).bs());
                let bsi = old(self).bs();
                assert(fo + chunk == (fo / bsi + 1) * bsi) by (nonlinear_arith)
                    requires
                        fo == (fo / bsi) * bsi + fo % bsi,
                        chunk == bsi - fo % bsi,
                ;
                assert((offset + bytes_written + chunk) % old(self).bs() == 0);
            }
            let ghost bw = bytes_written as int;
            let ghost ch = chunk as int;
            let ghost off = offset as int;
            assert(reads_back(self.disk(), old(self).bs(), *inode, bgdt, off, bw + ch, data@));
            if fo / old(self).bs() < 12 {
                let bsv = old(self).bs();
                let L = fo / bsv;
                assert(disk_block == inode.block@[L]);
                assert forall|k: int| 0 <= k < d0.len() && #[trigger] self.disk()[k] != d0[k]
                    implies touched(k, bsv, *inode, bgdt) by {
                    if d1[k] != d0[k] {
                        let gg = galloc->0;
                        assert(galloc is Some);
                        assert(bgdt[gg].block_bitmap * bsv <= k < bgdt[gg].block_bitmap * bsv + bsv);
                    } else {
                        assert(disk_block * bsv <= k < disk_block * bsv + bsv);
                        assert(inode.block@[L] * bsv <= k < inode.block@[L] * bsv + bsv);
                    }
                }
            }
        }
        Ok(chunk)
    }

    /// Write `data` into the file at `offset`, allocating direct blocks for holes;
    /// a hole beyond the direct blocks gives EFBIG. The size grows to cover the write.
    #[verifier::rlimit(100)]
    #[verifier::spinoff_prover]
    pub fn write_file_data(&mut self, inode: &mut DiskInode, offset: u64, data: &Vec<u8>) -> (r: Result<usize, Errno>)
        requires
            old(self).wf(),
            offset + data@.len() <= u64::MAX,
        ensures
            same_geometry(old(self).sb, final(self).sb),
            same_layout(old(self).bgdt@, final(self).bgdt@),
            final(self).wf(),
            final(self).block_size == old(self).block_size,
            final(self).bgdt@.len() == old(self).bgdt@.len(),
            final(self).sb.inodes_per_group == old(self).sb.inodes_per_group,
            final(self).sb.rev_level == old(self).sb.rev_level,
            final(self).sb.inode_size == old(self).sb.inode_size,
            forall|i: int| 0 <= i < old(self).bgdt@.len() ==> #[trigger] final(self).bgdt@[i].inode_table == old(self).bgdt@[i].inode_table,
            final(self).disk().len() == old(self).disk().len(),
            final(inode).mode == old(inode).mode,
            final(inode).links_count == old(inode).links_count,
            r matches Ok(n) ==> {
                &&& n == data@.len()
                &&& size64_spec(*final(inode)) == if offset + n > size64_spec(*old(inode)) {
                    if old(inode).mode & S_IFMT == S_IFREG { offset + n } else { (offset + n) % 0x1_0000_0000 }
                } else {
                    size64_spec(*old(inode))
                }
            },
            r matches Err(e) ==> e == Errno::EIO || e == Errno::EFBIG || e == Errno::ENOSPC,
            // read after write: within the direct blocks, when the blocks the bytes
            // land in are set, distinct, and not block bitmaps, the file reads back
            // the data
            r matches Ok(n) ==> (direct_write_ok(*final(inode), old(self).bgdt@, old(self).bs(), offset as int, n as int)
                ==> forall|p: int| offset <= p < offset + n ==> #[trigger] file_byte(final(self).disk(), old(self).bs(), *final(inode), p)
                    == data@[p - offset]),
            // an overwrite of set, distinct direct blocks that are no bitmaps keeps the
            // blocks, so it reads back
            direct_write_ok(*old(inode), old(self).bgdt@, old(self).bs(), offset as int, data@.len() as int)
                ==> final(inode).block@ == old(inode).block@,
            r matches Ok(n) ==> (direct_write_ok(*old(inode), old(self).bgdt@, old(self).bs(), offset as int, n as int)
                ==> forall|p: int| offset <= p < offset + n ==> #[trigger] file_byte(final(self).disk(), old(self).bs(), *final(inode), p)
                    == data@[p - offset]),
            r matches Ok(n) ==> (direct_write_ok(*final(inode), old(self).bgdt@, old(self).bs(), offset as int, n as int)
                ==> forall|p: int| offset <= p < offset + n
                    ==> #[trigger] direct_block(*final(inode), old(self).bs(), p) * old(self).bs() + old(self).bs() <= final(self).disk().len()),
            // set block pointers stay; a write within the direct blocks changes only
            // block 0, block bitmaps and the file's direct blocks
            forall|l: int| 0 <= l < 15 && old(inode).block@[l] != 0 ==> #[trigger] final(inode).block@[l] == old(inode).block@[l],
            r is Ok && offset + data@.len() <= 12 * old(self).bs()
                ==> changes_touched(old(self).disk(), final(self).disk(), old(self).bs(), *final(inode), old(self).bgdt@),
            // an overwrite of set direct blocks that lie on a device that answers goes
            // through
            final(self).dev.dependable() == old(self).dev.dependable(),
            old(self).dev.dependable() && old(self).disk().len() % 512 == 0
                && direct_write_ok(*old(inode), old(self).bgdt@, old(self).bs(), offset as int, data@.len() as int)
                && (forall|p: int| offset <= p < offset + data@.len()
                    ==> #[trigger] direct_block(*old(inode), old(self).bs(), p) * old(self).bs() + old(self).bs() <= old(self).disk().len())
                ==> r == Ok::<usize, Errno>(data@.len() as usize),
    {
        let n = data.len();
        let bs = self.block_size as u64;
        let mut bytes_written: usize = 0;
        let mut file_offset = offset;
        assert(reads_back(self.disk(), old(self).bs(), *inode, old(self).bgdt@, offset as int, 0, data@)) by {
            reveal(reads_back);
        }
        while bytes_written < n
            invariant
                self.wf(),
                bs == self.block_size,
                bytes_written <= n,
                n == data@.len(),
                file_offset == offset + bytes_written,
                offset + n <= u64::MAX,
                self.block_size == old(self).block_size,
                self.bgdt@.len() == old(self).bgdt@.len(),
                same_geometry(old(self).sb, self.sb),
                same_layout(old(self).bgdt@, self.bgdt@),
                self.disk().len() == old(self).disk().len(),
                inode.mode == old(inode).mode,
                inode.links_count == old(inode).links_count,
                inode.size == old(inode).size,
                inode.dir_acl == old(inode).dir_acl,
                bytes_written > 0 && bytes_written < n ==> (file_offset as int) % old(self).bs() == 0,
                reads_back(self.disk(), old(self).bs(), *inode, old(self).bgdt@, offset as int, bytes_written as int, data@),
                direct_write_ok(*old(inode), old(self).bgdt@, old(self).bs(), offset as int, n as int) ==> inode.block@ == old(inode).block@,
                forall|l: int| 0 <= l < 15 && old(inode).block@[l] != 0 ==> #[trigger] inode.block@[l] == old(inode).block@[l],
                offset + n <= 12 * old(self).bs() ==> changes_touched(old(self).disk(), self.disk(), old(self).bs(), *inode, old(self).bgdt@),
                self.dev.dependable() == old(self).dev.dependable(),
            decreases n - bytes_written,
        {
            proof {
                assert(self.bs() == old(self).bs());
            }
            let ghost before = *self;
            proof {
                let bsv = old(self).bs();
                if direct_write_ok(*old(inode), old(self).bgdt@, bsv, offset as int, n as int) {
                    let fo = offset + bytes_written;
                    assert(direct_block(*old(inode), bsv, fo) != 0);
                    assert(fo / bsv < 12) by (nonlinear_arith)
                        requires
                            fo < 12 * bsv,
                            bsv > 0,
                            fo >= 0,
                    ;
                    assert(before.bs() == bsv);
                }
            }
            let ghost ibefore = *inode;
            proof {
                if offset + n <= 12 * old(self).bs() {
                    let bsv = old(self).bs();
                    let fo = offset + bytes_written;
                    assert(fo / bsv < 12) by (nonlinear_arith)
                        requires
                            fo < 12 * bsv,
                            bsv > 0,
                            fo >= 0,
                    ;
                }
            }
            proof {
                let bsv = old(self).bs();
                let fo = offset + bytes_written;
                if old(self).dev.dependable() && old(self).disk().len() % 512 == 0
                    && direct_write_ok(*old(inode), old(self).bgdt@, bsv, offset as int, n as int)
                    && (forall|p: int| offset <= p < offset + n
                        ==> #[trigger] direct_block(*old(inode), bsv, p) * bsv + bsv <= old(self).disk().len()) {
                    assert(direct_block(*old(inode), bsv, fo) != 0);
                    assert(direct_block(*old(inode), bsv, fo) * bsv + bsv <= old(self).disk().len());
                    assert(inode.block@[fo / bsv] == direct_block(*old(inode), bsv, fo));
                }
            }
            let c = self.write_chunk(inode, offset, data, bytes_written, Ghost(old(self).bgdt@))?;
            proof {
                assert(before.bs() == old(self).bs());
                if offset + n <= 12 * old(self).bs() {
                    let bsv = old(self).bs();
                    let d0 = old(self).disk();
                    let dm = before.disk();
                    let bg = old(self).bgdt@;
                    lemma_touched_grows(d0, dm, bsv, ibefore, *inode, bg);
                    assert forall|k: int| 0 <= k < d0.len() && #[trigger] self.disk()[k] != d0[k] implies touched(k, bsv, *inode, bg) by {
                        if dm[k] != d0[k] {
                        } else {
                            assert(self.disk()[k] != dm[k]);
                        }
                    }
                }
            }
            bytes_written = bytes_written + c;
            file_offset = file_offset + c as u64;
        }
        let ghost i_end = *inode;
        let new_size = offset + bytes_written as u64;
        if new_size > inode.size64() {
            inode.size = new_size as u32;
            if inode.is_regular() {
                inode.dir_acl = (new_size >> 32) as u32;
            }
            proof {
                let lo = inode.size;
                let hi = inode.dir_acl;
                if inode.mode & S_IFMT == S_IFREG {
                    assert(hi as int * 0x1_0000_0000 + lo as int == new_size) by (bit_vector)
                        requires
                            lo == new_size as u32,
                            hi == (new_size >> 32u64) as u32,
                    ;
                } else {
                    assert(lo as int == new_size as int % 0x1_0000_0000) by (bit_vector)
                        requires
                            lo == new_size as u32,
                    ;
                }
            }
        }
        proof {
            assert(inode.block@ == i_end.block@);
            assert(direct_write_ok(i_end, old(self).bgdt@, old(self).bs(), offset as int, n as int)
                ==> forall|p: int| offset <= p < offset + n ==> #[trigger] file_byte(self.disk(), old(self).bs(), i_end, p) == data@[p - offset]
                    && direct_block(i_end, old(self).bs(), p) * old(self).bs() + old(self).bs() <= self.disk().len()) by {
                reveal(reads_back);
            }
            lemma_same_blocks(*inode, i_end, old(self).bgdt@, self.disk(), old(self).bs(), offset as int, n as int);
            if direct_write_ok(*old(inode), old(self).bgdt@, old(self).bs(), offset as int, n as int) {
                lemma_same_blocks(*old(inode), *inode, old(self).bgdt@, self.disk(), old(self).bs(), offset as int, n as int);
            }
            if direct_write_ok(*inode, old(self).bgdt@, old(self).bs(), offset as int, n as int) {
                assert forall|p: int| offset <= p < offset + n implies #[trigger] file_byte(self.disk(), old(self).bs(), *inode, p)
                    == data@[p - offset]
                    && direct_block(*inode, old(self).bs(), p) * old(self).bs() + old(self).bs() <= self.disk().len() by {
                    assert(file_byte(self.disk(), old(self).bs(), i_end, p) == data@[p - offset]);
                    assert(direct_block(i_end, old(self).bs(), p) == direct_block(*inode, old(self).bs(), p));
                }
            }
            if direct_write_ok(*inode, old(self).bgdt@, old(self).bs(), offset as int, n as int) {
                assert forall|p: int| offset <= p < offset + n
                    implies #[trigger] direct_block(*inode, old(self).bs(), p) * old(self).bs() + old(self).bs() <= self.disk().len() by {
                    assert(file_byte(self.disk(), old(self).bs(), *inode, p) == data@[p - offset]);
                }
            }
        }
        Ok(bytes_written)
    }

    /// Write to regular file `ino` at `offset`; EINVAL for other inode types.
    pub fn write(&mut self, ino: u32, offset: u64, data: &Vec<u8>) -> (r: Result<usize, Errno>)
        requires
            old(self).wf(),
            offset + data@.len() <= u64::MAX,
        ensures
            final(self).wf(),
            r matches Ok(n) ==> n == data@.len(),
            r matches Err(e) ==> e == Errno::EIO || e == Errno::EFBIG || e == Errno::ENOSPC || e == Errno::EINVAL,
            !old(self).inode_valid(ino) ==> r == Err::<usize, Errno>(Errno::EIO),
            // read after write: the inode written back at `ino` reads the data back
            // from its direct blocks, when these are set, distinct, no block bitmaps,
            // and clear of the inode's own record
            r matches Ok(n) ==> exists|di: DiskInode| {
                &&& #[trigger] di.parsed_from(final(self).disk().subrange(old(self).inode_offset(ino), old(self).inode_offset(ino) + DISK_INODE_SIZE))
                &&& di.mode & S_IFMT == S_IFREG
                &&& (direct_write_ok(di, old(self).bgdt@, old(self).bs(), offset as int, n as int)
                    && blocks_apart(di, old(self).bs(), offset as int, n as int, old(self).inode_offset(ino), DISK_INODE_SIZE as int)
                    ==> forall|p: int| offset <= p < offset + n ==> #[trigger] file_byte(final(self).disk(), old(self).bs(), di, p) == data@[p - offset])
            },
            // the same stated over the inode as it was before the write: an overwrite of
            // its set, distinct direct blocks reads back
            r matches Ok(n) ==> exists|od: DiskInode| {
                &&& #[trigger] od.parsed_from(old(self).disk().subrange(old(self).inode_offset(ino), old(self).inode_offset(ino) + old(self).isz()))
                &&& (direct_write_ok(od, old(self).bgdt@, old(self).bs(), offset as int, n as int)
                    && blocks_apart(od, old(self).bs(), offset as int, n as int, old(self).inode_offset(ino), DISK_INODE_SIZE as int)
                    ==> forall|p: int| offset <= p < offset + n ==> #[trigger] file_byte(final(self).disk(), old(self).bs(), od, p) == data@[p - offset])
            },
    {
        let mut di = self.read_inode(ino)?;
        if !di.is_regular() {
            return Err(Errno::EINVAL);
        }
        let ghost od = di;
        let written = self.write_file_data(&mut di, offset, data)?;
        let ghost d1 = self.disk();
        let ghost mid = *self;
        self.write_inode(ino, &di)?;
        proof {
            assert(mid.inode_offset(ino) == old(self).inode_offset(ino));
            if direct_write_ok(di, old(self).bgdt@, old(self).bs(), offset as int, written as int)
                && blocks_apart(di, old(self).bs(), offset as int, written as int, old(self).inode_offset(ino), DISK_INODE_SIZE as int) {
                lemma_read_back_kept(d1, self.disk(), di, old(self).bs(), offset as int, written as int, data@,
                    old(self).inode_offset(ino), DISK_INODE_SIZE as int);
            }
            if direct_write_ok(od, old(self).bgdt@, old(self).bs(), offset as int, written as int)
                && blocks_apart(od, old(self).bs(), offset as int, written as int, old(self).inode_offset(ino), DISK_INODE_SIZE as int) {
                assert(di.block@ == od.block@);
                lemma_same_blocks(od, di, old(self).bgdt@, self.disk(), old(self).bs(), offset as int, written as int);
                assert forall|p: int| #![trigger direct_block(od, old(self).bs(), p)] #![trigger direct_block(di, old(self).bs(), p)]
                    direct_block(od, old(self).bs(), p) == direct_block(di, old(self).bs(), p) by {}
                assert(blocks_apart(di, old(self).bs(), offset as int, written as int, old(self).inode_offset(ino), DISK_INODE_SIZE as int));
                lemma_read_back_kept(d1, self.disk(), di, old(self).bs(), offset as int, written as int, data@,
                    old(self).inode_offset(ino), DISK_INODE_SIZE as int);
            }
        }
        Ok(written)
    }
}

/// A fresh inode of the given mode: one link, no blocks, all else zero.
fn new_disk_inode(mode: u16) -> (di: DiskInode)
    ensures
        di.mode == mode,
        di.links_count == 1,
        di.size == 0,
        di.dir_acl == 0,
        di.blocks == 0,
        forall|i: int| 0 <= i < 15 ==> #[trigger] di.block@[i] == 0,
{
    DiskInode {
        mode,
        uid: 0,
        size: 0,
        atime: 0,
        ctime: 0,
        mtime: 0,
        dtime: 0,
        gid: 0,
        links_count: 1,
        blocks: 0,
        flags: 0,
        osd1: 0,
        block: [0u32; 15],
        generation: 0,
        file_acl: 0,
        dir_acl: 0,
        faddr: 0,
        osd2: [0u8; 12],
    }
}

/// Write a directory entry header at `pos`.
fn put_dir_entry(d: &mut Vec<u8>, pos: usize, ino: u32, rec_len: u16, name_len: u8, file_type: u8)
    requires
        pos + 8 <= old(d)@.len(),
    ensures
        final(d)@.len() == old(d)@.len(),
        le32(final(d)@, pos as int) == ino,
        le16(final(d)@, pos + 4) == rec_len,
        final(d)@[pos + 6] == name_len,
        final(d)@[pos + 7] == file_type,
        forall|k: int| 0 <= k < old(d)@.len() && !(pos <= k < pos + 8) ==> #[trigger] final(d)@[k] == old(d)@[k],
{
    let _n = d.len();
    write32(d, pos, ino);
    let ghost s1 = d@;
    write16(d, pos + 4, rec_len);
    let ghost mid = d@;
    d.set(pos + 6, name_len);
    d.set(pos + 7, file_type);
    proof {
        crate::bytes::lemma_le16_frame(mid, d@, pos + 4);
        crate::bytes::lemma_le32_frame(s1, d@, pos as int);
    }
}

/// Copy `src` into `d` at `at`.
fn put_bytes(d: &mut Vec<u8>, at: usize, src: &[u8])
    requires
        at + src@.len() <= old(d)@.len(),
    ensures
        final(d)@.len() == old(d)@.len(),
        forall|k: int| 0 <= k < src@.len() ==> #[trigger] final(d)@[at + k] == src@[k],
        forall|k: int| 0 <= k < old(d)@.len() && !(at <= k < at + src@.len()) ==> #[trigger] final(d)@[k] == old(d)@[k],
{
    let _n = d.len();
    let mut i: usize = 0;
    while i < src.len()
        invariant
            i <= src@.len(),
            _n == d@.len(),
            at + src@.len() <= d@.len(),
            d@.len() == old(d)@.len(),
            forall|k: int| 0 <= k < i ==> #[trigger] d@[at + k] == src@[k],
            forall|k: int| 0 <= k < old(d)@.len() && !(at <= k < at + i) ==> #[trigger] d@[k] == old(d)@[k],
        decreases src@.len() - i,
    {
        d.set(at + i, src[i]);
        i = i + 1;
    }
}

/// Round up to a multiple of 4.
fn align4(n: usize) -> (r: usize)
    requires
        n + 3 <= usize::MAX,
    ensures
        r % 4 == 0,
        n <= r < n + 4,
{
    (n + 3) / 4 * 4
}

impl<D: BlockDevice> Ext2Fs<D> {
    /// Add an entry for `child_ino` named `name` to directory `dir_ino`: into the slack
    /// of the first entry with room for it, else in a new block appended to the
    /// directory. Names longer than 255 bytes give EINVAL.
    pub fn add_dir_entry(&mut self, dir_ino: u32, dir_inode: &mut DiskInode, name: &str, child_ino: u32, file_type: u8) -> (r: Result<(), Errno>)
        requires
            old(self).wf(),
        ensures
            final(self).wf(),
            same_geometry(old(self).sb, final(self).sb),
            same_layout(old(self).bgdt@, final(self).bgdt@),
            final(self).block_size == old(self).block_size,
            final(self).disk().len() == old(self).disk().len(),
            final(dir_inode).mode == old(dir_inode).mode,
            final(dir_inode).links_count == old(dir_inode).links_count,
            name.spec_bytes().len() > 255 <==> r == Err::<(), Errno>(Errno::EINVAL),
            r matches Err(e) ==> e == Errno::EIO || e == Errno::EFBIG || e == Errno::ENOSPC || e == Errno::EINVAL,
            // the directory's inode goes back to its record last
            r is Ok ==> final(dir_inode).parsed_from(final(self).disk().subrange(final(self).inode_offset(dir_ino),
                final(self).inode_offset(dir_ino) + DISK_INODE_SIZE)),
            // the entry for `child_ino` is written into the directory's data: it reads back
            // where the directory's direct blocks are set, distinct, no bitmaps and clear
            // of its record
            r is Ok ==> exists|w: Seq<u8>, off: int, j: int| #[trigger] entry_written(final(self).disk(), old(self).bs(), *final(dir_inode),
                old(self).bgdt@, final(self).inode_offset(dir_ino), w, off, j, child_ino, name.spec_bytes(), file_type),
            // a directory that stays within its direct blocks changes only block 0,
            // block bitmaps, its direct blocks and its record
            r is Ok && size64_spec(*old(dir_inode)) + old(self).bs() <= 12 * old(self).bs() ==> forall|k: int|
                0 <= k < old(self).disk().len() && #[trigger] final(self).disk()[k] != old(self).disk()[k]
                ==> touched(k, old(self).bs(), *final(dir_inode), old(self).bgdt@)
                    || final(self).inode_offset(dir_ino) <= k < final(self).inode_offset(dir_ino) + DISK_INODE_SIZE,
    {
        let name_bytes = name.as_bytes();
        let nlen = name_bytes.len();
        if nlen > 255 {
            return Err(Errno::EINVAL);
        }
        let needed_aligned = align4(8 + nlen);
        let size64 = dir_inode.size64();
        let bs = self.block_size as usize;
        if size64 > (usize::MAX as u64) - 2 * 65536 {
            return Err(Errno::EFBIG);
        }
        let size = size64 as usize;
        let mut data = zeroed(size);
        if size > 0 {
            self.read_file_data(dir_inode, 0, &mut data)?;
        }
        let mut pos: usize = 0;
        while size - pos >= 8
            invariant
                self.wf(),
                pos <= size,
                data@.len() == size,
                size + 2 * 65536 <= usize::MAX,
                bs == self.block_size,
                needed_aligned <= 8 + 255 + 4,
                needed_aligned >= 8 + nlen,
                nlen <= 255,
                nlen == name_bytes@.len(),
                name_bytes@ == name.spec_bytes(),
                old(self).wf(),
                same_geometry(old(self).sb, self.sb),
                same_layout(old(self).bgdt@, self.bgdt@),
                self.block_size == old(self).block_size,
                self.disk().len() == old(self).disk().len(),
                dir_inode.mode == old(dir_inode).mode,
                dir_inode.links_count == old(dir_inode).links_count,
                *self == *old(self),
                *dir_inode == *old(dir_inode),
                size == size64_spec(*old(dir_inode)),
            decreases size - pos,
        {
            let de_ino = read32(data.as_slice(), pos);
            let rec_len = read16(data.as_slice(), pos + 4) as usize;
            let de_name_len = data[pos + 6] as usize;
            if rec_len == 0 {
                break;
            }
            let actual_len = if de_ino != 0 { align4(8 + de_name_len) } else { 0 };
            if rec_len >= actual_len && rec_len - actual_len >= needed_aligned && pos + rec_len <= size {
                let new_pos = pos + actual_len;
                put_dir_entry_rec_len(&mut data, pos, actual_len as u16);
                put_dir_entry(&mut data, new_pos, child_ino, (rec_len - actual_len) as u16, nlen as u8, file_type);
                let ghost h = data@;
                put_bytes(&mut data, new_pos + 8, name_bytes);
                proof {
                    crate::bytes::lemma_le32_frame(h, data@, new_pos as int);
                    assert forall|i: int| 0 <= i < nlen implies #[trigger] data@.subrange(new_pos + 8, new_pos + 8 + nlen)[i] == name_bytes@[i] by {
                        assert(data@[(new_pos + 8) + i] == name_bytes@[i]);
                    }
                    assert(data@.subrange(new_pos + 8, new_pos + 8 + nlen) =~= name_bytes@);
                    assert(entry_record(data@, new_pos as int, child_ino, name.spec_bytes(), file_type));
                }
                self.write_file_data(dir_inode, 0, &data)?;
                let ghost mid = *self;
                self.write_inode(dir_ino, dir_inode)?;
                proof {
                    let rec = self.inode_offset(dir_ino);
                    assert(rec == mid.inode_offset(dir_ino));
                    lemma_entry_kept(mid.disk(), self.disk(), *dir_inode, old(self).bgdt@, old(self).bs(), 0, data@, rec);
                    assert(entry_written(self.disk(), old(self).bs(), *dir_inode, old(self).bgdt@, rec, data@, 0, new_pos as int,
                        child_ino, name.spec_bytes(), file_type));
                    if size64_spec(*old(dir_inode)) + old(self).bs() <= 12 * old(self).bs() {
                        assert forall|k: int| 0 <= k < old(self).disk().len() && #[trigger] self.disk()[k] != old(self).disk()[k]
                            implies touched(k, old(self).bs(), *dir_inode, old(self).bgdt@) || rec <= k < rec + DISK_INODE_SIZE by {
                            if mid.disk()[k] != old(self).disk()[k] {
                            } else {
                                assert(self.disk()[k] != mid.disk()[k]);
                            }
                        }
                    }
                }
                return Ok(());
            }
            if rec_len > size - pos {
                break;
            }
            pos = pos + rec_len;
        }
        let mut new_entry = zeroed(bs);
        put_dir_entry(&mut new_entry, 0, child_ino, bs as u16, nlen as u8, file_type);
        let ghost h = new_entry@;
        put_bytes(&mut new_entry, 8, name_bytes);
        proof {
            crate::bytes::lemma_le32_frame(h, new_entry@, 0);
            assert forall|i: int| 0 <= i < nlen implies #[trigger] new_entry@.subrange(8, 8 + nlen)[i] == name_bytes@[i] by {
                assert(new_entry@[8 + i] == name_bytes@[i]);
            }
            assert(new_entry@.subrange(8, 8 + nlen) =~= name_bytes@);
            assert(entry_record(new_entry@, 0, child_ino, name.spec_bytes(), file_type));
        }
        self.write_file_data(dir_inode, size as u64, &new_entry)?;
        let ghost mid = *self;
        self.write_inode(dir_ino, dir_inode)?;
        proof {
            let rec = self.inode_offset(dir_ino);
            assert(rec == mid.inode_offset(dir_ino));
            lemma_entry_kept(mid.disk(), self.disk(), *dir_inode, old(self).bgdt@, old(self).bs(), size as int, new_entry@, rec);
            assert(entry_written(self.disk(), old(self).bs(), *dir_inode, old(self).bgdt@, rec, new_entry@, size as int, 0,
                child_ino, name.spec_bytes(), file_type));
            if size64_spec(*old(dir_inode)) + old(self).bs() <= 12 * old(self).bs() {
                assert forall|k: int| 0 <= k < old(self).disk().len() && #[trigger] self.disk()[k] != old(self).disk()[k]
                    implies touched(k, old(self).bs(), *dir_inode, old(self).bgdt@) || rec <= k < rec + DISK_INODE_SIZE by {
                    if mid.disk()[k] != old(self).disk()[k] {
                    } else {
                        assert(self.disk()[k] != mid.disk()[k]);
                    }
                }
            }
        }
        Ok(())
    }
}

/// Type bits of the inode made for `inode_type`.
pub open spec fn type_bits(inode_type: InodeType) -> u16 {
    if inode_type == InodeType::Directory { S_IFDIR } else { S_IFREG }
}

/// Entry file type of the inode made for `inode_type`.
pub open spec fn ft_of(inode_type: InodeType) -> u8 {
    if inode_type == InodeType::Directory { FT_DIR } else { FT_REG_FILE }
}

/// The inode made for a new file or directory: the type bits with the permission bits
/// of `mode`, one link, no size and no blocks; a directory has two links and the one
/// block `blk` of `bs` bytes.
pub open spec fn fresh_inode(ni: DiskInode, inode_type: InodeType, mode: u32, blk: u32, bs: u32) -> bool {
    let dir = inode_type == InodeType::Directory;
    &&& ni.mode == type_bits(inode_type) | ((mode & 0o777) as u16)
    &&& ni.links_count == (if dir { 2u16 } else { 1u16 })
    &&& ni.size == (if dir { bs } else { 0u32 })
    &&& ni.dir_acl == 0
    &&& ni.blocks == (if dir { bs / 512 } else { 0u32 })
    &&& ni.block@[0] == (if dir { blk } else { 0u32 })
    &&& forall|l: int| 1 <= l < 15 ==> #[trigger] ni.block@[l] == 0
}

/// A new directory's block: "." naming `ino` in a record of 12 bytes, then ".."
/// naming `parent` in a record over the rest of the block.
pub open spec fn dot_entries(blk: Seq<u8>, ino: u32, parent: u32, bs: u32) -> bool {
    &&& blk.len() == bs
    &&& le32(blk, 0) == ino
    &&& le16(blk, 4) == 12
    &&& blk[6] == 1 && blk[7] == FT_DIR && blk[8] == 46
    &&& le32(blk, 12) == parent
    &&& le16(blk, 16) == (bs as u16).wrapping_sub(12)
    &&& blk[18] == 2 && blk[19] == FT_DIR && blk[20] == 46 && blk[21] == 46
}

/// The `len` bytes at `at` are none that a write of a directory with inode `pd`, kept
/// within its direct blocks, may change: not `touched`, not in its record at `rec`.
pub open spec fn clear_of_dir_write(at: int, len: int, bs: int, pd: DiskInode, bgdt: Seq<BlockGroupDesc>, rec: int) -> bool {
    forall|k: int| at <= k < at + len ==> !#[trigger] touched(k, bs, pd, bgdt) && !(rec <= k < rec + DISK_INODE_SIZE)
}

/// Descriptor tables with the same layout touch the same bytes.
proof fn lemma_touched_layout(k: int, bs: int, inode: DiskInode, a: Seq<BlockGroupDesc>, b: Seq<BlockGroupDesc>)
    requires
        same_layout(a, b),
    ensures
        touched(k, bs, inode, a) == touched(k, bs, inode, b),
{
    if exists|g: int| 0 <= g < a.len() && (#[trigger] a[g]).block_bitmap * bs <= k < a[g].block_bitmap * bs + bs {
        let g = choose|g: int| 0 <= g < a.len() && (#[trigger] a[g]).block_bitmap * bs <= k < a[g].block_bitmap * bs + bs;
        assert(b[g].block_bitmap == a[g].block_bitmap);
    }
    if exists|g: int| 0 <= g < b.len() && (#[trigger] b[g]).block_bitmap * bs <= k < b[g].block_bitmap * bs + bs {
        let g = choose|g: int| 0 <= g < b.len() && (#[trigger] b[g]).block_bitmap * bs <= k < b[g].block_bitmap * bs + bs;
        assert(b[g].block_bitmap == a[g].block_bitmap);
    }
}

/// Descriptor tables with the same layout allow the same direct writes.
proof fn lemma_direct_write_ok_layout(inode: DiskInode, a: Seq<BlockGroupDesc>, b: Seq<BlockGroupDesc>, bs: int, off: int, n: int)
    requires
        same_layout(a, b),
    ensures
        direct_write_ok(inode, a, bs, off, n) == direct_write_ok(inode, b, bs, off, n),
{
    assert forall|p: int| #![trigger direct_block(inode, bs, p)] off <= p < off + n implies (forall|g: int| 0 <= g < a.len() ==> direct_block(inode, bs, p) != #[trigger] a[g].block_bitmap)
        == (forall|g: int| 0 <= g < b.len() ==> direct_block(inode, bs, p) != #[trigger] b[g].block_bitmap) by {
        if forall|g: int| 0 <= g < a.len() ==> direct_block(inode, bs, p) != #[trigger] a[g].block_bitmap {
            assert forall|g: int| 0 <= g < b.len() implies direct_block(inode, bs, p) != #[trigger] b[g].block_bitmap by {
                assert(b[g].block_bitmap == a[g].block_bitmap);
            }
        }
        if forall|g: int| 0 <= g < b.len() ==> direct_block(inode, bs, p) != #[trigger] b[g].block_bitmap {
            assert forall|g: int| 0 <= g < a.len() implies direct_block(inode, bs, p) != #[trigger] a[g].block_bitmap by {
                assert(b[g].block_bitmap == a[g].block_bitmap);
            }
        }
    }
}

/// Layout agreement chains.
proof fn lemma_same_layout_trans(a: Seq<BlockGroupDesc>, b: Seq<BlockGroupDesc>, c: Seq<BlockGroupDesc>)
    requires
        same_layout(a, b),
        same_layout(b, c),
    ensures
        same_layout(a, c),
{
    assert forall|i: int| 0 <= i < a.len() implies (#[trigger] c[i]).block_bitmap == a[i].block_bitmap
        && c[i].inode_bitmap == a[i].inode_bitmap && c[i].inode_table == a[i].inode_table by {
        assert(b[i].block_bitmap == a[i].block_bitmap);
        assert(c[i].block_bitmap == b[i].block_bitmap);
    }
}

/// What `create` leaves on the disk once the new inode is written (from `s3` to `s4`)
/// and the directory entry added (from `s4` to `s5`).
proof fn lemma_create_written<D: BlockDevice>(bg0: Seq<BlockGroupDesc>, s3: Ext2Fs<D>, s4: Ext2Fs<D>, s5: Ext2Fs<D>,
    ino: u32, dir_ino: u32, d0: DiskInode, pre_dir: DiskInode, pd: DiskInode, ni: DiskInode,
    inode_type: InodeType, blk: u32, name: Seq<u8>, ft: u8)
    requires
        s3.wf(),
        same_layout(bg0, s3.bgdt@),
        ft == ft_of(inode_type),
        size64_spec(pre_dir) == size64_spec(d0),
        // the new inode's record is written
        s3.inode_valid(ino),
        s3.inode_offset(ino) + DISK_INODE_SIZE <= s3.disk().len(),
        ni.parsed_from(s4.disk().subrange(s3.inode_offset(ino), s3.inode_offset(ino) + DISK_INODE_SIZE)),
        forall|k: int| 0 <= k < s3.disk().len() && !(s3.inode_offset(ino) <= k < s3.inode_offset(ino) + DISK_INODE_SIZE)
            ==> #[trigger] s4.disk()[k] == s3.disk()[k],
        s4.sb == s3.sb,
        s4.bgdt@ == s3.bgdt@,
        s4.block_size == s3.block_size,
        s4.disk().len() == s3.disk().len(),
        // then the directory entry
        same_geometry(s4.sb, s5.sb),
        same_layout(s4.bgdt@, s5.bgdt@),
        s5.block_size == s4.block_size,
        s5.disk().len() == s4.disk().len(),
        pd.parsed_from(s5.disk().subrange(s5.inode_offset(dir_ino), s5.inode_offset(dir_ino) + DISK_INODE_SIZE)),
        exists|w: Seq<u8>, off: int, j: int| #[trigger] entry_written(s5.disk(), s4.bs(), pd,
            s4.bgdt@, s5.inode_offset(dir_ino), w, off, j, ino, name, ft),
        size64_spec(pre_dir) + s4.bs() <= 12 * s4.bs() ==> forall|k: int|
            0 <= k < s4.disk().len() && #[trigger] s5.disk()[k] != s4.disk()[k]
            ==> touched(k, s4.bs(), pd, s4.bgdt@)
                || s5.inode_offset(dir_ino) <= k < s5.inode_offset(dir_ino) + DISK_INODE_SIZE,
        // a new directory's block was filled before
        inode_type == InodeType::Directory ==> blk * s3.bs() + s3.bs() <= s3.disk().len()
            && dot_entries(s3.disk().subrange(blk * s3.bs(), blk * s3.bs() + s3.bs()), ino, dir_ino, s3.block_size),
    ensures
        s5.inode_offset(ino) == s3.inode_offset(ino),
        exists|w: Seq<u8>, off: int, j: int| #[trigger] entry_written(s5.disk(), s3.bs(), pd, bg0,
            s5.inode_offset(dir_ino), w, off, j, ino, name, ft_of(inode_type)),
        size64_spec(d0) + s3.bs() <= 12 * s3.bs()
            && clear_of_dir_write(s5.inode_offset(ino), DISK_INODE_SIZE as int, s3.bs(), pd, bg0, s5.inode_offset(dir_ino))
            ==> ni.parsed_from(s5.disk().subrange(s5.inode_offset(ino), s5.inode_offset(ino) + DISK_INODE_SIZE)),
        inode_type == InodeType::Directory && size64_spec(d0) + s3.bs() <= 12 * s3.bs()
            && clear_of_dir_write(blk * s3.bs(), s3.bs(), s3.bs(), pd, bg0, s5.inode_offset(dir_ino))
            && (blk * s3.bs() + s3.bs() <= s5.inode_offset(ino) || s5.inode_offset(ino) + DISK_INODE_SIZE <= blk * s3.bs())
            ==> dot_entries(s5.disk().subrange(blk * s3.bs(), blk * s3.bs() + s3.bs()), ino, dir_ino, s3.block_size),
{
    let bs = s3.bs();
    let rec = s3.inode_offset(ino);
    let drec = s5.inode_offset(dir_ino);
    let g = (ino - 1) / (s3.sb.inodes_per_group as int);
    assert(s5.bgdt@[g].inode_table == s4.bgdt@[g].inode_table);
    assert(s5.inode_offset(ino) == rec);
    lemma_same_layout_trans(bg0, s4.bgdt@, s5.bgdt@);
    let (w, off, j) = choose|w: Seq<u8>, off: int, j: int| #[trigger] entry_written(s5.disk(), s4.bs(), pd,
        s4.bgdt@, drec, w, off, j, ino, name, ft);
    lemma_direct_write_ok_layout(pd, bg0, s4.bgdt@, bs, off, w.len() as int);
    assert(entry_written(s5.disk(), bs, pd, bg0, drec, w, off, j, ino, name, ft_of(inode_type)));
    if size64_spec(d0) + bs <= 12 * bs && clear_of_dir_write(rec, DISK_INODE_SIZE as int, bs, pd, bg0, drec) {
        assert forall|k: int| rec <= k < rec + DISK_INODE_SIZE implies #[trigger] s5.disk()[k] == s4.disk()[k] by {
            assert(!touched(k, bs, pd, bg0));
            lemma_touched_layout(k, bs, pd, bg0, s4.bgdt@);
        }
        assert(s5.disk().subrange(rec, rec + DISK_INODE_SIZE) =~= s4.disk().subrange(rec, rec + DISK_INODE_SIZE));
    }
    if inode_type == InodeType::Directory && size64_spec(d0) + bs <= 12 * bs
        && clear_of_dir_write(blk * bs, bs, bs, pd, bg0, drec)
        && (blk * bs + bs <= rec || rec + DISK_INODE_SIZE <= blk * bs) {
        assert forall|k: int| blk * bs <= k < blk * bs + bs implies #[trigger] s5.disk()[k] == s3.disk()[k] by {
            assert(!touched(k, bs, pd, bg0));
            lemma_touched_layout(k, bs, pd, bg0, s4.bgdt@);
            assert(s4.disk()[k] == s3.disk()[k]);
            assert(s5.disk()[k] == s4.disk()[k]);
        }
        assert(s5.disk().subrange(blk * bs, blk * bs + bs) =~= s3.disk().subrange(blk * bs, blk * bs + bs));
    }
}

/// The entries of a directory as its create step checks them: whether any entry has
/// the name.
pub open spec fn has_entry(entries: Seq<(Seq<u8>, u32, u8)>, name: Seq<char>) -> bool {
    exists|k: int| 0 <= k < entries.len() && #[trigger] entry_matches(entries[k].0, name)
}

impl<D: BlockDevice> Ext2Fs<D> {
    /// Create `name` in directory `dir_ino` as a regular file or a directory with the
    /// permission bits of `mode`; gives the new inode number. A directory gets a block
    /// holding "." and "..", and the parent one more link.
    pub fn create(&mut self, dir_ino: u32, name: &str, inode_type: InodeType, mode: u32) -> (r: Result<u32, Errno>)
        requires
            old(self).wf(),
        ensures
            final(self).wf(),
            r matches Err(e) ==> e == Errno::EIO || e == Errno::EFBIG || e == Errno::ENOSPC
                || e == Errno::EINVAL || e == Errno::ENOTDIR || e == Errno::EEXIST,
            !old(self).inode_valid(dir_ino) ==> r == Err::<u32, Errno>(Errno::EIO),
            // an existing name is refused before anything is allocated
            r == Err::<u32, Errno>(Errno::EEXIST) ==> final(self).disk() == old(self).disk()
                && exists|di: DiskInode| {
                    &&& #[trigger] di.parsed_from(old(self).disk().subrange(old(self).inode_offset(dir_ino), old(self).inode_offset(dir_ino) + old(self).isz()))
                    &&& di.mode & S_IFMT == S_IFDIR
                    &&& has_entry(dir_list(file_prefix(old(self).disk(), old(self).bs(), di, size64_spec(di)), 0), name@)
                },
            r == Err::<u32, Errno>(Errno::ENOTDIR) ==> final(self).disk() == old(self).disk(),
            // a directory inode that is not a directory is refused (unless its read fails)
            (exists|di: DiskInode| #[trigger] di.parsed_from(old(self).disk().subrange(old(self).inode_offset(dir_ino), old(self).inode_offset(dir_ino) + old(self).isz()))
                && di.mode & S_IFMT != S_IFDIR) && old(self).isz() >= DISK_INODE_SIZE
                ==> r == Err::<u32, Errno>(Errno::ENOTDIR) || r == Err::<u32, Errno>(Errno::EIO),
            // a name the directory holds already is refused (unless a read fails)
            (exists|di: DiskInode| {
                &&& #[trigger] di.parsed_from(old(self).disk().subrange(old(self).inode_offset(dir_ino), old(self).inode_offset(dir_ino) + old(self).isz()))
                &&& di.mode & S_IFMT == S_IFDIR
                &&& size64_spec(di) <= usize::MAX
                &&& has_entry(dir_list(file_prefix(old(self).disk(), old(self).bs(), di, size64_spec(di)), 0), name@)
            }) && old(self).isz() >= DISK_INODE_SIZE
                ==> r == Err::<u32, Errno>(Errno::EEXIST) || r == Err::<u32, Errno>(Errno::EIO) || r == Err::<u32, Errno>(Errno::EFBIG),
            // a creation happens only in a directory without the name, for a file or a
            // directory
            r is Ok ==> (inode_type == InodeType::File || inode_type == InodeType::Directory) && exists|di: DiskInode| {
                &&& #[trigger] di.parsed_from(old(self).disk().subrange(old(self).inode_offset(dir_ino), old(self).inode_offset(dir_ino) + old(self).isz()))
                &&& di.mode & S_IFMT == S_IFDIR
                &&& !has_entry(dir_list(file_prefix(old(self).disk(), old(self).bs(), di, size64_spec(di)), 0), name@)
            },
            // the parent directory's record ends up with its mode, and one more link
            // when a directory was made
            r is Ok ==> exists|od: DiskInode, pd: DiskInode| {
                &&& #[trigger] od.parsed_from(old(self).disk().subrange(old(self).inode_offset(dir_ino), old(self).inode_offset(dir_ino) + old(self).isz()))
                &&& #[trigger] pd.parsed_from(final(self).disk().subrange(final(self).inode_offset(dir_ino), final(self).inode_offset(dir_ino) + DISK_INODE_SIZE))
                &&& pd.mode == od.mode
                &&& pd.links_count == if inode_type == InodeType::Directory { od.links_count.wrapping_add(1) } else { od.links_count }
            },
            // EINVAL for a type other than a file or a directory, or a name too long
            r == Err::<u32, Errno>(Errno::EINVAL) ==> !(inode_type == InodeType::File || inode_type == InodeType::Directory)
                || name.spec_bytes().len() > 255,
            name.spec_bytes().len() > 255 ==> r is Err,
            // the new inode is written and the directory's data gets an entry naming it;
            // where the directory's write stays within its direct blocks and clear of
            // them, the new inode's record and a new directory's block read back
            r matches Ok(ino) ==> exists|od: DiskInode, pd: DiskInode, ni: DiskInode, blk: u32| {
                &&& #[trigger] od.parsed_from(old(self).disk().subrange(old(self).inode_offset(dir_ino), old(self).inode_offset(dir_ino) + old(self).isz()))
                &&& #[trigger] pd.parsed_from(final(self).disk().subrange(final(self).inode_offset(dir_ino), final(self).inode_offset(dir_ino) + DISK_INODE_SIZE))
                &&& #[trigger] fresh_inode(ni, inode_type, mode, blk, old(self).block_size)
                &&& (exists|w: Seq<u8>, off: int, j: int| #[trigger] entry_written(final(self).disk(), old(self).bs(), pd, old(self).bgdt@,
                    final(self).inode_offset(dir_ino), w, off, j, ino, name.spec_bytes(), ft_of(inode_type)))
                &&& (size64_spec(od) + old(self).bs() <= 12 * old(self).bs()
                    && clear_of_dir_write(final(self).inode_offset(ino), DISK_INODE_SIZE as int, old(self).bs(), pd, old(self).bgdt@, final(self).inode_offset(dir_ino))
                    ==> ni.parsed_from(final(self).disk().subrange(final(self).inode_offset(ino), final(self).inode_offset(ino) + DISK_INODE_SIZE)))
                &&& (inode_type == InodeType::Directory && size64_spec(od) + old(self).bs() <= 12 * old(self).bs()
                    && clear_of_dir_write(blk * old(self).bs(), old(self).bs(), old(self).bs(), pd, old(self).bgdt@, final(self).inode_offset(dir_ino))
                    && (blk * old(self).bs() + old(self).bs() <= final(self).inode_offset(ino) || final(self).inode_offset(ino) + DISK_INODE_SIZE <= blk * old(self).bs())
                    ==> dot_entries(final(self).disk().subrange(blk * old(self).bs(), blk * old(self).bs() + old(self).bs()), ino, dir_ino, old(self).block_size))
            },
            // the new inode is the first free one of a group's inode bitmap as it was
            r matches Ok(ino) ==> exists|g: int, t: int| {
                &&& 0 <= g < old(self).bgdt@.len()
                &&& old(self).bgdt@[g].free_inodes_count > 0
                &&& #[trigger] first_clear(old(self).disk().subrange(
                        old(self).bgdt@[g].inode_bitmap * old(self).bs(),
                        old(self).bgdt@[g].inode_bitmap * old(self).bs() + old(self).bs()), t + 1) == Some(t)
                &&& ino == (g as u32).wrapping_mul(old(self).sb.inodes_per_group).wrapping_add(t as u32).wrapping_add(1)
            },
    {
        let mut dir_inode = self.read_inode(dir_ino)?;
        let ghost d0 = dir_inode;
        let ghost bytes = old(self).disk().subrange(old(self).inode_offset(dir_ino), old(self).inode_offset(dir_ino) + old(self).isz());
        proof {
            if exists|di: DiskInode| #[trigger] di.parsed_from(bytes) && di.mode & S_IFMT != S_IFDIR {
                let w = choose|di: DiskInode| #[trigger] di.parsed_from(bytes) && di.mode & S_IFMT != S_IFDIR;
                DiskInode::lemma_parse_unique(w, d0, bytes);
            }
            if exists|di: DiskInode| {
                &&& #[trigger] di.parsed_from(bytes)
                &&& di.mode & S_IFMT == S_IFDIR
                &&& size64_spec(di) <= usize::MAX
                &&& has_entry(dir_list(file_prefix(old(self).disk(), old(self).bs(), di, size64_spec(di)), 0), name@)
            } {
                let w = choose|di: DiskInode| {
                    &&& #[trigger] di.parsed_from(bytes)
                    &&& di.mode & S_IFMT == S_IFDIR
                    &&& size64_spec(di) <= usize::MAX
                    &&& has_entry(dir_list(file_prefix(old(self).disk(), old(self).bs(), di, size64_spec(di)), 0), name@)
                };
                DiskInode::lemma_parse_unique(w, d0, bytes);
            }
        }
        if !dir_inode.is_dir() {
            return Err(Errno::ENOTDIR);
        }
        if dir_inode.size64() > usize::MAX as u64 {
            return Err(Errno::EFBIG);
        }
        let entries = self.read_dir_entries(&dir_inode)?;
        let ghost ev = entry_views(entries@);
        let mut i: usize = 0;
        while i < entries.len()
            invariant
                i <= entries@.len(),
                ev == entry_views(entries@),
                ev == dir_list(file_prefix(self.disk(), self.bs(), dir_inode, size64_spec(dir_inode)), 0),
                dir_inode.parsed_from(self.disk().subrange(self.inode_offset(dir_ino), self.inode_offset(dir_ino) + self.isz())),
                dir_inode.mode & S_IFMT == S_IFDIR,
                *self == *old(self),
                old(self).wf(),
                old(self).inode_valid(dir_ino),
                forall|j: int| 0 <= j < i ==> !#[trigger] entry_matches(ev[j].0, name@),
            decreases entries@.len() - i,
        {
            if name_matches(&entries[i].0, name) {
                proof {
                    assert(entry_matches(ev[i as int].0, name@));
                    assert(has_entry(ev, name@));
                }
                return Err(Errno::EEXIST);
            }
            i = i + 1;
        }
        proof {
            assert(!has_entry(ev, name@));
            assert(d0.parsed_from(bytes));
        }
        let group = ((dir_ino - 1) / self.sb.inodes_per_group) as usize;
        let new_ino = self.alloc_inode(group)?;
        let ghost s1 = *self;
        let perm = (mode & 0o777) as u16;
        let (file_mode, ft) = match inode_type {
            InodeType::File => (S_IFREG | perm, FT_REG_FILE),
            InodeType::Directory => (S_IFDIR | perm, FT_DIR),
            _ => return Err(Errno::EINVAL),
        };
        let mut new_inode = new_disk_inode(file_mode);
        let ghost mut blk: u32 = 0;
        if inode_type == InodeType::Directory {
            new_inode.links_count = 2;
            dir_inode.links_count = dir_inode.links_count.wrapping_add(1);
            let block = self.alloc_block(group)?;
            new_inode.block[0] = block;
            new_inode.blocks = self.block_size / 512;
            new_inode.size = self.block_size;
            let bs = self.block_size as usize;
            let mut dir_data = zeroed(bs);
            put_dir_entry(&mut dir_data, 0, new_ino, 12, 1, FT_DIR);
            let ghost a1 = dir_data@;
            dir_data.set(8, 46);
            put_dir_entry(&mut dir_data, 12, dir_ino, (self.block_size as u16).wrapping_sub(12), 2, FT_DIR);
            let ghost a3 = dir_data@;
            dir_data.set(20, 46);
            dir_data.set(21, 46);
            proof {
                crate::bytes::lemma_le32_frame(a1, dir_data@, 0);
                crate::bytes::lemma_le16_frame(a1, dir_data@, 4);
                crate::bytes::lemma_le32_frame(a3, dir_data@, 12);
                crate::bytes::lemma_le16_frame(a3, dir_data@, 16);
                assert(dot_entries(dir_data@, new_ino, dir_ino, self.block_size));
                blk = block;
            }
            self.write_data_block(block, &dir_data)?;
            proof {
                assert(self.disk().subrange(blk * self.bs(), blk * self.bs() + self.bs()) =~= dir_data@);
                lemma_same_layout_trans(old(self).bgdt@, s1.bgdt@, self.bgdt@);
            }
        }
        proof {
            assert(fresh_inode(new_inode, inode_type, mode, blk, old(self).block_size));
            assert(same_layout(old(self).bgdt@, self.bgdt@));
        }
        let ghost s3 = *self;
        self.write_inode(new_ino, &new_inode)?;
        let ghost s4 = *self;
        let ghost pre_dir = dir_inode;
        self.add_dir_entry(dir_ino, &mut dir_inode, name, new_ino, ft)?;
        proof {
            assert(dir_inode.mode == d0.mode);
            assert(dir_inode.links_count == if inode_type == InodeType::Directory { d0.links_count.wrapping_add(1) } else { d0.links_count });
            assert(d0.parsed_from(bytes));
            lemma_create_written(old(self).bgdt@, s3, s4, *self, new_ino, dir_ino, d0, pre_dir, dir_inode, new_inode,
                inode_type, blk, name.spec_bytes(), ft);
            assert(fresh_inode(new_inode, inode_type, mode, blk, old(self).block_size));
        }
        Ok(new_ino)
    }

    /// Remove the entry `name` from directory `dir_ino`: the entry's inode field is
    /// cleared, its record is merged into the previous one, the directory is written
    /// back and the removed inode loses one link.
    pub fn unlink(&mut self, dir_ino: u32, name: &str) -> (r: Result<(), Errno>)
        requires
            old(self).wf(),
        ensures
            final(self).wf(),
            r matches Err(e) ==> e == Errno::EIO || e == Errno::EFBIG || e == Errno::ENOSPC
                || e == Errno::ENOTDIR || e == Errno::ENOENT,
            !old(self).inode_valid(dir_ino) ==> r == Err::<(), Errno>(Errno::EIO),
            r == Err::<(), Errno>(Errno::ENOTDIR) ==> final(self).disk() == old(self).disk(),
            r == Err::<(), Errno>(Errno::ENOENT) ==> final(self).disk() == old(self).disk(),
            // a directory inode that is not a directory is refused (unless its read fails)
            (exists|di: DiskInode| #[trigger] di.parsed_from(old(self).disk().subrange(old(self).inode_offset(dir_ino), old(self).inode_offset(dir_ino) + old(self).isz()))
                && di.mode & S_IFMT != S_IFDIR) && old(self).isz() >= DISK_INODE_SIZE
                ==> r == Err::<(), Errno>(Errno::ENOTDIR) || r == Err::<(), Errno>(Errno::EIO),
            // a name the directory does not hold is refused (unless a read fails)
            (exists|di: DiskInode| {
                &&& #[trigger] di.parsed_from(old(self).disk().subrange(old(self).inode_offset(dir_ino), old(self).inode_offset(dir_ino) + old(self).isz()))
                &&& di.mode & S_IFMT == S_IFDIR
                &&& size64_spec(di) <= usize::MAX
                &&& forall|k: int| 0 <= k < dir_list(file_prefix(old(self).disk(), old(self).bs(), di, size64_spec(di)), 0).len()
                    ==> !entry_matches_or_empty(#[trigger] dir_list(file_prefix(old(self).disk(), old(self).bs(), di, size64_spec(di)), 0)[k].0, name@)
            }) && old(self).isz() >= DISK_INODE_SIZE
                ==> r == Err::<(), Errno>(Errno::ENOENT) || r == Err::<(), Errno>(Errno::EIO) || r == Err::<(), Errno>(Errno::EFBIG),
    {
        let mut dir_inode = self.read_inode(dir_ino)?;
        let ghost bytes = old(self).disk().subrange(old(self).inode_offset(dir_ino), old(self).inode_offset(dir_ino) + old(self).isz());
        proof {
            if exists|di: DiskInode| #[trigger] di.parsed_from(bytes) && di.mode & S_IFMT != S_IFDIR {
                let w = choose|di: DiskInode| #[trigger] di.parsed_from(bytes) && di.mode & S_IFMT != S_IFDIR;
                DiskInode::lemma_parse_unique(w, dir_inode, bytes);
            }
        }
        if !dir_inode.is_dir() {
            return Err(Errno::ENOTDIR);
        }
        if dir_inode.size64() > usize::MAX as u64 {
            return Err(Errno::EFBIG);
        }
        let size = dir_inode.size64() as usize;
        let mut data = zeroed(size);
        self.read_file_data(&dir_inode, 0, &mut data)?;
        let ghost data0 = data@;
        proof {
            assert(data0 =~= file_prefix(old(self).disk(), old(self).bs(), dir_inode, size64_spec(dir_inode)));
        }
        let mut pos: usize = 0;
        let mut prev_pos: Option<usize> = None;
        let mut found_ino: u32 = 0;
        let ghost mut seen: Seq<(Seq<u8>, u32, u8)> = Seq::empty();
        while size - pos >= 8
            invariant_except_break
                found_ino == 0,
                data@ == data0,
                dir_list(data0, 0) == seen + dir_list(data0, pos as int),
            invariant
                pos <= size,
                data@.len() == size,
                data0.len() == size,
                prev_pos matches Some(pp) ==> pp + 8 <= size,
                *self == *old(self),
            ensures
                found_ino != 0 ==> exists|k: int| 0 <= k < dir_list(data0, 0).len()
                    && entry_matches_or_empty(#[trigger] dir_list(data0, 0)[k].0, name@),
            decreases size - pos,
        {
            let de_ino = read32(data.as_slice(), pos);
            let rec_len = read16(data.as_slice(), pos + 4);
            let name_len = data[pos + 6] as usize;
            let ghost entry = (data0.subrange(pos + 8, pos + 8 + name_len), de_ino, data0[pos + 7]);
            let ghost here: Seq<(Seq<u8>, u32, u8)> = if de_ino != 0 && name_len > 0 && pos + 8 + name_len <= size {
                seq![entry]
            } else {
                Seq::empty()
            };
            let ghost rest: Seq<(Seq<u8>, u32, u8)> = if pos + rec_len <= size { dir_list(data0, pos + rec_len) } else { Seq::empty() };
            proof {
                assert(rec_len != 0 ==> dir_list(data0, pos as int) == here + rest);
            }
            if rec_len == 0 {
                break;
            }
            if de_ino != 0 && name_len > 0 && name_len <= size - pos - 8 {
                let entry_name = copy_range(&data, pos + 8, pos + 8 + name_len);
                proof {
                    assert(here == seq![entry]);
                    assert(dir_list(data0, 0) == seen + (seq![entry] + rest));
                    assert((seen + (seq![entry] + rest))[seen.len() as int] == entry);
                    assert(entry_name@ == entry.0);
                }
                if name_matches_or_empty(&entry_name, name) {
                    proof {
                        assert(entry_matches_or_empty(dir_list(data0, 0)[seen.len() as int].0, name@));
                    }
                    found_ino = de_ino;
                    put_inode_field(&mut data, pos, 0);
                    if let Some(pp) = prev_pos {
                        let prev_len = read16(data.as_slice(), pp + 4);
                        put_dir_entry_rec_len(&mut data, pp, prev_len.wrapping_add(rec_len));
                    }
                    break;
                }
            }
            prev_pos = Some(pos);
            proof {
                assert(seen + (here + rest) =~= seen + here + rest);
                seen = seen + here;
            }
            if rec_len as usize > size - pos {
                break;
            }
            pos = pos + rec_len as usize;
        }
        proof {
            if exists|di: DiskInode| {
                &&& #[trigger] di.parsed_from(bytes)
                &&& di.mode & S_IFMT == S_IFDIR
                &&& size64_spec(di) <= usize::MAX
                &&& forall|k: int| 0 <= k < dir_list(file_prefix(old(self).disk(), old(self).bs(), di, size64_spec(di)), 0).len()
                    ==> !entry_matches_or_empty(#[trigger] dir_list(file_prefix(old(self).disk(), old(self).bs(), di, size64_spec(di)), 0)[k].0, name@)
            } {
                let w = choose|di: DiskInode| {
                    &&& #[trigger] di.parsed_from(bytes)
                    &&& di.mode & S_IFMT == S_IFDIR
                    &&& size64_spec(di) <= usize::MAX
                    &&& forall|k: int| 0 <= k < dir_list(file_prefix(old(self).disk(), old(self).bs(), di, size64_spec(di)), 0).len()
                        ==> !entry_matches_or_empty(#[trigger] dir_list(file_prefix(old(self).disk(), old(self).bs(), di, size64_spec(di)), 0)[k].0, name@)
                };
                DiskInode::lemma_parse_unique(w, dir_inode, bytes);
            }
        }
        if found_ino == 0 {
            return Err(Errno::ENOENT);
        }
        self.write_file_data(&mut dir_inode, 0, &data)?;
        self.write_inode(dir_ino, &dir_inode)?;
        let mut child = self.read_inode(found_ino)?;
        if child.links_count > 0 {
            child.links_count = child.links_count - 1;
        }
        self.write_inode(found_ino, &child)?;
        Ok(())
    }

    /// Target of symlink `ino`: held in the block pointers when at most 60 bytes long,
    /// else in the file data. EINVAL for other inodes, EIO for a target that is not
    /// UTF-8.
    pub fn readlink(&self, ino: u32) -> (r: Result<String, Errno>)
        requires
            self.wf(),
        ensures
            r matches Err(e) ==> e == Errno::EIO || e == Errno::EFBIG || e == Errno::EINVAL,
            r matches Ok(t) ==> exists|di: DiskInode| {
                &&& #[trigger] di.parsed_from(self.disk().subrange(self.inode_offset(ino), self.inode_offset(ino) + self.isz()))
                &&& di.mode & S_IFMT == S_IFLNK
                &&& vstd::utf8::encode_utf8(t@) == if size64_spec(di) <= 60 {
                    Seq::new(size64_spec(di) as nat, |i: int| byte32(di.block@[i / 4], i % 4))
                } else {
                    file_prefix(self.disk(), self.bs(), di, size64_spec(di))
                }
            },
    {
        let di = self.read_inode(ino)?;
        if !di.is_symlink() {
            return Err(Errno::EINVAL);
        }
        let size64 = di.size64();
        if size64 <= 60 {
            let size = size64 as usize;
            let mut bytes: Vec<u8> = Vec::new();
            let mut i: usize = 0;
            while i < size
                invariant
                    i <= size <= 60,
                    bytes@.len() == i,
                    forall|k: int| 0 <= k < i ==> #[trigger] bytes@[k] == byte32(di.block@[k / 4], k % 4),
                decreases size - i,
            {
                bytes.push(byte32_exec(di.block[i / 4], i % 4));
                i = i + 1;
            }
            match str_from_utf8(bytes.as_slice()) {
                Some(t) => {
                    let st = String::from_str(t);
                    proof {
                        assert(t.spec_bytes() == vstd::utf8::encode_utf8(t@));
                        assert(bytes@ =~= Seq::new(size64_spec(di) as nat, |i: int| byte32(di.block@[i / 4], i % 4)));
                    }
                    Ok(st)
                },
                None => Err(Errno::EIO),
            }
        } else {
            if size64 > usize::MAX as u64 {
                return Err(Errno::EFBIG);
            }
            let size = size64 as usize;
            let mut buf = zeroed(size);
            self.read_file_data(&di, 0, &mut buf)?;
            match str_from_utf8(buf.as_slice()) {
                Some(t) => {
                    let st = String::from_str(t);
                    proof {
                        assert(t.spec_bytes() == vstd::utf8::encode_utf8(t@));
                        assert(buf@ =~= file_prefix(self.disk(), self.bs(), di, size64_spec(di)));
                    }
                    Ok(st)
                },
                None => Err(Errno::EIO),
            }
        }
    }
}

/// Clear-or-set the inode field of the entry at `pos`.
fn put_inode_field(d: &mut Vec<u8>, pos: usize, ino: u32)
    requires
        pos + 8 <= old(d)@.len(),
    ensures
        final(d)@.len() == old(d)@.len(),
        le32(final(d)@, pos as int) == ino,
{
    let _n = d.len();
    write32(d, pos, ino);
}

/// The entry named by `bytes` matches `name` as removal compares names: by the bytes
/// when they are UTF-8, else as the empty name.
pub open spec fn entry_matches_or_empty(bytes: Seq<u8>, name: Seq<char>) -> bool {
    if valid_utf8(bytes) {
        vstd::utf8::encode_utf8(name) == bytes
    } else {
        name.len() == 0
    }
}

/// Whether entry bytes name `name`, an entry that is not UTF-8 counting as the
/// empty name.
fn name_matches_or_empty(bytes: &Vec<u8>, name: &str) -> (r: bool)
    ensures
        r == entry_matches_or_empty(bytes@, name@),
{
    match str_from_utf8(bytes.as_slice()) {
        Some(_) => {
            let e = name_matches(bytes, name);
            e
        },
        None => name.unicode_len() == 0,
    }
}

/// Set the record length of the entry at `pos`.
fn put_dir_entry_rec_len(d: &mut Vec<u8>, pos: usize, rec_len: u16)
    requires
        pos + 8 <= old(d)@.len(),
    ensures
        final(d)@.len() == old(d)@.len(),
        le16(final(d)@, pos + 4) == rec_len,
{
    let _n = d.len();
    write16(d, pos + 4, rec_len);
}

proof fn lemma_first_clear_prefix(bm: Seq<u8>, t: int, n: int)
    requires
        0 <= t < n,
        first_clear(bm, n) == Some(t),
    ensures
        first_clear(bm, t + 1) == Some(t),
    decreases n - t,
{
    if n > t + 1 {
        if first_clear(bm, n - 1) is None {
            assert(bit_clear(bm, n - 1) && n - 1 == t);
        } else {
            lemma_first_clear_prefix(bm, t, n - 1);
        }
    }
}

proof fn lemma_first_match_prefix(ev: Seq<(Seq<u8>, u32, u8)>, n: int, name: Seq<char>)
    requires
        0 <= n <= ev.len(),
        first_match(ev.take(n), name) is Some,
    ensures
        first_match(ev, name) == first_match(ev.take(n), name),
    decreases ev.len() - n,
{
    if n < ev.len() {
        assert(ev.take(n + 1).drop_last() =~= ev.take(n));
        lemma_first_match_prefix(ev, n + 1, name);
    } else {
        assert(ev.take(n) =~= ev);
    }
}

/// Positions within one chunk of a block share the block and differ in their offset.
proof fn lemma_same_block(p0: int, p: int, bs: int, off: int, chunk: int)
    requires
        bs > 0,
        p0 >= 0,
        off == p0 % bs,
        off + chunk <= bs,
        p0 <= p < p0 + chunk,
    ensures
        p / bs == p0 / bs,
        p % bs == off + (p - p0),
{
    vstd::arithmetic::div_mod::lemma_fundamental_div_mod(p0, bs);
    let q = p0 / bs;
    assert(p == q * bs + (off + (p - p0))) by (nonlinear_arith)
        requires
            p0 == bs * q + off,
    ;
    vstd::arithmetic::div_mod::lemma_fundamental_div_mod_converse(p, bs, q, off + (p - p0));
}

/// A descriptor parsed from a window of the disk is the descriptor at the matching
/// disk offset.
proof fn lemma_parsed_shift(w: Seq<u8>, disk: Seq<u8>, base: int, off: int, g: BlockGroupDesc)
    requires
        0 <= base,
        0 <= off,
        off + BGD_SIZE <= w.len(),
        base + w.len() <= disk.len(),
        w == disk.subrange(base, base + w.len()),
        g.parsed_from(w, off),
    ensures
        g.parsed_from(disk, base + off),
{
    reveal(le32);
    reveal(le16);
    assert forall|k: int| 0 <= k < BGD_SIZE implies #[trigger] w[off + k] == disk[base + off + k] by {}
    assert(w.subrange(off + 20, off + 32) =~= disk.subrange(base + off + 20, base + off + 32));
}

} // verus!
