//! Sector devices and byte-granular access to them.
use vstd::prelude::*;

verus! {

/// Size of a device sector in bytes.
pub const SECTOR_SIZE: u64 = 512;

/// A device of 512-byte sectors, as the file system reaches its disk.
pub trait BlockDevice {
    /// The bytes of the device.
    spec fn sectors(&self) -> Seq<u8>;

    /// The device answers every access that lies within it.
    spec fn dependable(&self) -> bool;

    /// Fill `buf` with the bytes from sector `start_sector` on. On success the buffer
    /// holds exactly those bytes; a failed read leaves its contents open.
    fn read_sectors(&self, start_sector: u64, buf: &mut Vec<u8>) -> (r: Result<(), &'static str>)
        ensures
            final(buf)@.len() == old(buf)@.len(),
            r is Ok ==> start_sector * SECTOR_SIZE + old(buf)@.len() <= self.sectors().len()
                && final(buf)@ == self.sectors().subrange(
                    start_sector * SECTOR_SIZE,
                    start_sector * SECTOR_SIZE + old(buf)@.len(),
                ),
            self.dependable() && start_sector * SECTOR_SIZE + old(buf)@.len() <= self.sectors().len() ==> r is Ok,
    ;

    /// Write `buf` to the device from sector `start_sector` on. A failed write leaves
    /// the device unchanged.
    fn write_sectors(&mut self, start_sector: u64, buf: &Vec<u8>) -> (r: Result<(), &'static str>)
        ensures
            r is Ok ==> start_sector * SECTOR_SIZE + buf@.len() <= old(self).sectors().len()
                && final(self).sectors() == splice(old(self).sectors(), start_sector * SECTOR_SIZE, buf@),
            r is Err ==> final(self).sectors() == old(self).sectors(),
            old(self).dependable() && start_sector * SECTOR_SIZE + buf@.len() <= old(self).sectors().len() ==> r is Ok,
            final(self).dependable() == old(self).dependable(),
    ;
}

/// `d` with `b` written over it from `at` on.
pub open spec fn splice(d: Seq<u8>, at: int, b: Seq<u8>) -> Seq<u8> {
    d.subrange(0, at) + b + d.subrange(at + b.len(), d.len() as int)
}

/// A device held in memory.
pub struct RamDisk {
    pub bytes: Vec<u8>,
}

impl RamDisk {
    /// A zeroed disk of `sectors` sectors.
    pub fn new(sectors: usize) -> (d: RamDisk)
        requires
            sectors * 512 <= usize::MAX,
        ensures
            d.bytes@.len() == sectors * 512,
            forall|i: int| 0 <= i < d.bytes@.len() ==> #[trigger] d.bytes@[i] == 0,
    {
        let n = sectors * 512;
        let mut bytes: Vec<u8> = Vec::new();
        while bytes.len() < n
            invariant
                bytes@.len() <= n,
                forall|i: int| 0 <= i < bytes@.len() ==> #[trigger] bytes@[i] == 0,
            decreases n - bytes@.len(),
        {
            bytes.push(0);
        }
        RamDisk { bytes }
    }
}

impl BlockDevice for RamDisk {
    open spec fn sectors(&self) -> Seq<u8> {
        self.bytes@
    }

    open spec fn dependable(&self) -> bool {
        true
    }

    fn read_sectors(&self, start_sector: u64, buf: &mut Vec<u8>) -> (r: Result<(), &'static str>)
        ensures
            r is Ok <==> start_sector * SECTOR_SIZE + old(buf)@.len() <= self.bytes@.len(),
            r is Err ==> final(buf)@ == old(buf)@,
    {
        let len = self.bytes.len();
        let n = buf.len();
        proof {
            lemma_sector_in_range(start_sector, len as u64);
        }
        if start_sector > (len as u64) / SECTOR_SIZE {
            return Err("ramdisk: read beyond end");
        }
        let start = (start_sector * SECTOR_SIZE) as usize;
        if n > len - start {
            return Err("ramdisk: read beyond end");
        }
        let mut i: usize = 0;
        while i < n
            invariant
                i <= n,
                n == old(buf)@.len(),
                buf@.len() == n,
                len == self.bytes@.len(),
                start + n <= len,
                start == start_sector * SECTOR_SIZE,
                forall|k: int| 0 <= k < i ==> #[trigger] buf@[k] == self.bytes@[start + k],
            decreases n - i,
        {
            buf.set(i, self.bytes[start + i]);
            i = i + 1;
        }
        assert(buf@ =~= self.bytes@.subrange(start as int, start + n));
        Ok(())
    }

    fn write_sectors(&mut self, start_sector: u64, buf: &Vec<u8>) -> (r: Result<(), &'static str>)
        ensures
            r is Ok <==> start_sector * SECTOR_SIZE + buf@.len() <= old(self).bytes@.len(),
    {
        let len = self.bytes.len();
        let n = buf.len();
        proof {
            lemma_sector_in_range(start_sector, len as u64);
        }
        if start_sector > (len as u64) / SECTOR_SIZE {
            return Err("ramdisk: write beyond end");
        }
        let start = (start_sector * SECTOR_SIZE) as usize;
        if n > len - start {
            return Err("ramdisk: write beyond end");
        }
        let mut i: usize = 0;
        while i < n
            invariant
                i <= n,
                n == buf@.len(),
                self.bytes@.len() == len,
                len == old(self).bytes@.len(),
                start + n <= len,
                start == start_sector * SECTOR_SIZE,
                forall|k: int| 0 <= k < i ==> #[trigger] self.bytes@[start + k] == buf@[k],
                forall|k: int| 0 <= k < len && !(start <= k < start + i) ==> #[trigger] self.bytes@[k] == old(self).bytes@[k],
            decreases n - i,
        {
            self.bytes.set(start + i, buf[i]);
            i = i + 1;
        }
        assert forall|k: int| 0 <= k < len implies #[trigger] self.bytes@[k] == splice(old(self).bytes@, start as int, buf@)[k] by {
            if k < start {
            } else if k < start + n {
                assert(self.bytes@[start + (k - start)] == buf@[k - start]);
            } else {
            }
        }
        assert(self.bytes@ =~= splice(old(self).bytes@, start as int, buf@));
        Ok(())
    }
}

/// The whole sectors that cover bytes within a device of whole sectors lie within it.
proof fn lemma_cover_fits(start: int, ois: int, n: int, needed: int, len: int)
    requires
        0 <= start,
        0 <= ois < 512,
        0 <= n,
        needed == (ois + n + 511) / 512,
        len % 512 == 0,
        start * 512 + ois + n <= len,
    ensures
        start * 512 + needed * 512 <= len,
{
    assert(start * 512 + needed * 512 <= len) by (nonlinear_arith)
        requires
            0 <= start,
            0 <= ois < 512,
            0 <= n,
            needed == (ois + n + 511) / 512,
            len % 512 == 0,
            start * 512 + ois + n <= len,
    ;
}

proof fn lemma_sector_in_range(s: u64, len: u64)
    ensures
        (s > len / SECTOR_SIZE) <==> (s * SECTOR_SIZE > len),
        s <= len / SECTOR_SIZE ==> s * SECTOR_SIZE <= len,
{
    assert((s > len / 512) <==> (s * 512 > len)) by (nonlinear_arith);
}

/// Read `buf.len()` bytes from byte offset `byte_offset` of the device: the sectors
/// that cover them are read and the bytes taken out.
pub fn read_block_bytes<D: BlockDevice>(dev: &D, byte_offset: u64, buf: &mut Vec<u8>) -> (r: Result<(), &'static str>)
    requires
        byte_offset as int + old(buf)@.len() + SECTOR_SIZE <= u64::MAX,
        old(buf)@.len() + 2 * SECTOR_SIZE <= usize::MAX,
    ensures
        final(buf)@.len() == old(buf)@.len(),
        r is Ok ==> byte_offset + old(buf)@.len() <= dev.sectors().len()
            && final(buf)@ == dev.sectors().subrange(byte_offset as int, byte_offset + old(buf)@.len()),
        r is Err ==> final(buf)@ == old(buf)@,
        dev.dependable() && dev.sectors().len() % 512 == 0 && byte_offset + old(buf)@.len() <= dev.sectors().len() ==> r is Ok,
{
    let start_sector = byte_offset / SECTOR_SIZE;
    let offset_in_sector = (byte_offset % SECTOR_SIZE) as usize;
    let n = buf.len();
    let total_bytes = offset_in_sector + n;
    let sectors_needed = (total_bytes as u64 + SECTOR_SIZE - 1) / SECTOR_SIZE;
    proof {
        assert(sectors_needed * SECTOR_SIZE >= total_bytes) by (nonlinear_arith)
            requires
                sectors_needed == (total_bytes + 511) / 512,
        ;
        assert(sectors_needed * SECTOR_SIZE <= total_bytes + 511) by (nonlinear_arith)
            requires
                sectors_needed == (total_bytes + 511) / 512,
        ;
        assert(start_sector * SECTOR_SIZE + offset_in_sector == byte_offset) by (nonlinear_arith)
            requires
                start_sector == byte_offset / 512,
                offset_in_sector == byte_offset % 512,
        ;
    }
    let size = (sectors_needed * SECTOR_SIZE) as usize;
    let mut sector_buf: Vec<u8> = Vec::new();
    while sector_buf.len() < size
        invariant
            sector_buf@.len() <= size,
        decreases size - sector_buf@.len(),
    {
        sector_buf.push(0);
    }
    proof {
        if dev.sectors().len() % 512 == 0 && byte_offset + n <= dev.sectors().len() {
            lemma_cover_fits(start_sector as int, offset_in_sector as int, n as int, sectors_needed as int, dev.sectors().len() as int);
        }
    }
    let res = dev.read_sectors(start_sector, &mut sector_buf);
    if res.is_err() {
        return res;
    }
    assert(sector_buf@.len() == size);
    let mut i: usize = 0;
    while i < n
        invariant
            i <= n,
            n == old(buf)@.len(),
            buf@.len() == n,
            offset_in_sector + n <= sector_buf@.len(),
            sector_buf@.len() == size,
            start_sector * SECTOR_SIZE + size <= dev.sectors().len(),
            sector_buf@ == dev.sectors().subrange(start_sector * SECTOR_SIZE, start_sector * SECTOR_SIZE + size),
            start_sector * SECTOR_SIZE + offset_in_sector == byte_offset,
            forall|k: int| 0 <= k < i ==> #[trigger] buf@[k] == dev.sectors()[byte_offset + k],
        decreases n - i,
    {
        buf.set(i, sector_buf[offset_in_sector + i]);
        assert(sector_buf@[offset_in_sector + i] == dev.sectors()[start_sector * SECTOR_SIZE + offset_in_sector + i]);
        i = i + 1;
    }
    assert(buf@ =~= dev.sectors().subrange(byte_offset as int, byte_offset + n));
    Ok(())
}

/// Write `buf` at byte offset `byte_offset` of the device. An aligned write of whole
/// sectors goes to the device as it is; otherwise the covering sectors are read, `buf`
/// is put in place in them, and they are written back, so the bytes around `buf`
/// keep their contents. A failed read or write leaves the device unchanged.
pub fn write_block_bytes<D: BlockDevice>(dev: &mut D, byte_offset: u64, buf: &Vec<u8>) -> (r: Result<(), &'static str>)
    requires
        byte_offset as int + buf@.len() + SECTOR_SIZE <= u64::MAX,
        buf@.len() + 2 * SECTOR_SIZE <= usize::MAX,
    ensures
        final(dev).sectors().len() == old(dev).sectors().len(),
        r is Ok ==> byte_offset + buf@.len() <= old(dev).sectors().len()
            && final(dev).sectors() == splice(old(dev).sectors(), byte_offset as int, buf@)
            && final(dev).sectors().subrange(byte_offset as int, byte_offset + buf@.len()) == buf@,
        r is Err ==> final(dev).sectors() == old(dev).sectors(),
        final(dev).dependable() == old(dev).dependable(),
        old(dev).dependable() && old(dev).sectors().len() % 512 == 0 && byte_offset + buf@.len() <= old(dev).sectors().len() ==> r is Ok,
{
    let start_sector = byte_offset / SECTOR_SIZE;
    let offset_in_sector = (byte_offset % SECTOR_SIZE) as usize;
    let n = buf.len();
    proof {
        assert(start_sector * SECTOR_SIZE + offset_in_sector == byte_offset) by (nonlinear_arith)
            requires
                start_sector == byte_offset / 512,
                offset_in_sector == byte_offset % 512,
        ;
    }
    if offset_in_sector == 0 && n % (SECTOR_SIZE as usize) == 0 {
        let r = dev.write_sectors(start_sector, buf);
        proof {
            if r is Ok {
                assert(dev.sectors().subrange(byte_offset as int, byte_offset + n) =~= buf@);
            }
        }
        return r;
    }
    let total_bytes = offset_in_sector + n;
    let sectors_needed = (total_bytes as u64 + SECTOR_SIZE - 1) / SECTOR_SIZE;
    proof {
        assert(sectors_needed * SECTOR_SIZE >= total_bytes) by (nonlinear_arith)
            requires
                sectors_needed == (total_bytes + 511) / 512,
        ;
        assert(sectors_needed * SECTOR_SIZE <= total_bytes + 511) by (nonlinear_arith)
            requires
                sectors_needed == (total_bytes + 511) / 512,
        ;
    }
    let size = (sectors_needed * SECTOR_SIZE) as usize;
    let mut sector_buf: Vec<u8> = Vec::new();
    while sector_buf.len() < size
        invariant
            sector_buf@.len() <= size,
        decreases size - sector_buf@.len(),
    {
        sector_buf.push(0);
    }
    proof {
        if dev.sectors().len() % 512 == 0 && byte_offset + n <= dev.sectors().len() {
            lemma_cover_fits(start_sector as int, offset_in_sector as int, n as int, sectors_needed as int, dev.sectors().len() as int);
        }
    }
    let rd = dev.read_sectors(start_sector, &mut sector_buf);
    if rd.is_err() {
        return rd;
    }
    let ghost start = (start_sector * SECTOR_SIZE) as int;
    let ghost old_secs = sector_buf@;
    assert(old_secs == old(dev).sectors().subrange(start, start + size));
    let mut i: usize = 0;
    while i < n
        invariant
            i <= n,
            n == buf@.len(),
            sector_buf@.len() == size,
            old_secs.len() == size,
            offset_in_sector + n <= size,
            forall|k: int| 0 <= k < size ==> #[trigger] sector_buf@[k] == if offset_in_sector <= k < offset_in_sector + i {
                buf@[k - offset_in_sector]
            } else {
                old_secs[k]
            },
        decreases n - i,
    {
        sector_buf.set(offset_in_sector + i, buf[i]);
        i = i + 1;
    }
    let r = dev.write_sectors(start_sector, &sector_buf);
    proof {
        if r is Ok {
            let d0 = old(dev).sectors();
            assert(dev.sectors() =~= splice(d0, byte_offset as int, buf@)) by {
                assert forall|k: int| 0 <= k < d0.len() implies #[trigger] dev.sectors()[k] == splice(d0, byte_offset as int, buf@)[k] by {
                    if start <= k < start + size {
                        assert(dev.sectors()[k] == sector_buf@[k - start]);
                        assert(old_secs[k - start] == d0[k]);
                    }
                }
            }
            assert(dev.sectors().subrange(byte_offset as int, byte_offset + n) =~= buf@);
        }
    }
    r
}

} // verus!
