use std::collections::HashMap;

use kernel::memory::addr::VirtAddr;
use kernel::memory::heap::{LinkedListHeap, KERNEL_HEAP_START};
use kernel::memory::vmm::Vmm;

use kernel::drivers::pci::{enumerate, ConfigSpace};
use kernel::errno::Errno;
use kernel::fs::devfs::DevFs;
use kernel::fs::ext2::dev::{read_block_bytes, write_block_bytes, RamDisk};
use kernel::fs::ext2::Ext2Fs;
use kernel::fs::namespace::{Mounted, Namespace};
use kernel::fs::tmpfs::TmpFs;
use kernel::fs::vfs::InodeType;
use kernel::memory::oom::is_low;
use kernel::memory::paging::PhysMem;
use kernel::memory::pmm::{MemoryRegion, MemoryRegionKind, Pmm, Zone};

fn put32(d: &mut [u8], at: usize, v: u32) {
    d[at..at + 4].copy_from_slice(&v.to_le_bytes());
}

fn put16(d: &mut [u8], at: usize, v: u16) {
    d[at..at + 2].copy_from_slice(&v.to_le_bytes());
}

/// A one-group ext2 image with 1 KiB blocks: bitmaps in blocks 3 and 4, the inode
/// table in blocks 5 and 6, blocks 1 to 7 in use, and inode 12 an empty regular file.
fn small_image() -> RamDisk {
    let mut disk = RamDisk::new(128);
    let d = &mut disk.bytes;
    let sb = 1024;
    put32(d, sb, 16); // inodes
    put32(d, sb + 4, 64); // blocks
    put32(d, sb + 12, 57); // free blocks
    put32(d, sb + 16, 4); // free inodes
    put32(d, sb + 20, 1); // first data block
    put32(d, sb + 24, 0); // 1 KiB blocks
    put32(d, sb + 32, 8192); // blocks per group
    put32(d, sb + 40, 16); // inodes per group
    put16(d, sb + 56, 0xEF53);
    let gd = 2048;
    put32(d, gd, 3);
    put32(d, gd + 4, 4);
    put32(d, gd + 8, 5);
    put16(d, gd + 12, 57);
    put16(d, gd + 14, 4);
    d[3 * 1024] = 0x7F; // blocks 1..=7
    let ino12 = 5 * 1024 + 11 * 128;
    put16(d, ino12, 0x81A4);
    put16(d, ino12 + 26, 1);
    // inodes 1..=12 in use
    d[4 * 1024] = 0xFF;
    d[4 * 1024 + 1] = 0x0F;
    // inode 2: the root directory, "." and ".." in block 7
    let ino2 = 5 * 1024 + 128;
    put16(d, ino2, 0x41ED);
    put32(d, ino2 + 4, 1024);
    put16(d, ino2 + 26, 2);
    put32(d, ino2 + 40, 7);
    let b7 = 7 * 1024;
    put32(d, b7, 2);
    put16(d, b7 + 4, 12);
    d[b7 + 6] = 1;
    d[b7 + 7] = 2;
    d[b7 + 8] = b'.';
    put32(d, b7 + 12, 2);
    put16(d, b7 + 16, 1012);
    d[b7 + 18] = 2;
    d[b7 + 19] = 2;
    d[b7 + 20] = b'.';
    d[b7 + 21] = b'.';
    disk
}

#[test]
fn ext2_create_and_unlink_in_the_root() {
    let mut fs = Ext2Fs::mount(small_image()).unwrap();
    assert_eq!(fs.lookup(2, ".."), Ok(2));
    let f = fs.create(2, "notes", InodeType::File, 0o644).unwrap();
    assert_eq!(f, 13);
    assert_eq!(fs.lookup(2, "notes"), Ok(13));
    assert_eq!(fs.read_inode(13).unwrap().mode, 0x81A4);
    assert_eq!(fs.create(2, "notes", InodeType::File, 0o644), Err(Errno::EEXIST));
    assert_eq!(fs.create(12, "x", InodeType::File, 0o644), Err(Errno::ENOTDIR));
    let d = fs.create(2, "sub", InodeType::Directory, 0o755).unwrap();
    assert_eq!(d, 14);
    assert_eq!(fs.read_inode(2).unwrap().links_count, 3);
    let sub = fs.read_inode(14).unwrap();
    assert_eq!((sub.mode, sub.links_count), (0x41ED, 2));
    assert_eq!(fs.lookup(14, ".."), Ok(2));
    assert_eq!(fs.unlink(2, "notes"), Ok(()));
    assert_eq!(fs.lookup(2, "notes"), Err(Errno::ENOENT));
    assert_eq!(fs.read_inode(13).unwrap().links_count, 0);
    assert_eq!(fs.unlink(2, "notes"), Err(Errno::ENOENT));
}

#[test]
fn ext2_write_reads_back() {
    let mut fs = Ext2Fs::mount(small_image()).unwrap();
    let data: Vec<u8> = (0..3000u32).map(|i| (i % 251) as u8).collect();
    assert_eq!(fs.write(12, 0, &data), Ok(3000));
    let mut buf = vec![0u8; 3000];
    assert_eq!(fs.read(12, 0, &mut buf), Ok(3000));
    assert_eq!(buf, data);
    // an unaligned overwrite keeps the bytes around it
    let patch = vec![0xAAu8; 100];
    assert_eq!(fs.write(12, 1000, &patch), Ok(100));
    let mut buf2 = vec![0u8; 3000];
    assert_eq!(fs.read(12, 0, &mut buf2), Ok(3000));
    assert_eq!(&buf2[..1000], &data[..1000]);
    assert_eq!(&buf2[1000..1100], &patch[..]);
    assert_eq!(&buf2[1100..], &data[1100..]);
    // the first allocation took the first clear bit: block 8, then 9 and 10
    let di = fs.read_inode(12).unwrap();
    assert_eq!((di.block[0], di.block[1], di.block[2]), (8, 9, 10));
    assert_eq!((fs.dev.bytes[3 * 1024], fs.dev.bytes[3 * 1024 + 1]), (0xFF, 0x03));
    assert_eq!(fs.bgdt[0].free_blocks_count, 54);
}

#[test]
fn ext2_unlink_in_a_file_is_refused() {
    let mut fs = Ext2Fs::mount(small_image()).unwrap();
    assert_eq!(fs.unlink(12, "x"), Err(Errno::ENOTDIR));
    assert_eq!(fs.unlink(99, "x"), Err(Errno::EIO));
}

#[test]
fn ext2_write_to_directory_or_unknown_inode() {
    let mut fs = Ext2Fs::mount(small_image()).unwrap();
    assert_eq!(fs.write(99, 0, &vec![1u8]), Err(Errno::EIO));
    assert_eq!(fs.write(3, 0, &vec![1u8]), Err(Errno::EINVAL));
}

#[test]
fn unaligned_device_write_keeps_neighbours() {
    let mut dev = RamDisk::new(4);
    for (i, b) in dev.bytes.iter_mut().enumerate() {
        *b = (i % 7) as u8 + 1;
    }
    assert_eq!(write_block_bytes(&mut dev, 1, &vec![0xEE]), Ok(()));
    assert_eq!(dev.bytes[0], 1);
    assert_eq!(dev.bytes[1], 0xEE);
    assert_eq!(dev.bytes[2], 3);
    assert_eq!(dev.bytes[511], (511 % 7) as u8 + 1);
    let mut back = vec![0u8; 3];
    assert_eq!(read_block_bytes(&dev, 0, &mut back), Ok(()));
    assert_eq!(back, vec![1, 0xEE, 3]);
    assert!(write_block_bytes(&mut dev, 2047, &vec![1, 2]).is_err());
    assert_eq!(dev.bytes[2047], (2047 % 7) as u8 + 1);
}

#[test]
fn low_memory_below_five_percent() {
    let map = vec![MemoryRegion { base: 256 * 4096, length: 39 * 4096, kind: MemoryRegionKind::Usable }];
    let mut pmm = Pmm::init(0, &map);
    let mut mem = PhysMem::new(512);
    for _ in 0..37 {
        assert!(pmm.alloc_frame(Zone::Dma16, &mut mem).is_some());
    }
    // 2 of 39 free: 5.1%
    assert!(!is_low(&pmm));
    assert!(pmm.alloc_frame(Zone::Dma16, &mut mem).is_some());
    // 1 of 39 free: 2.6%
    assert!(is_low(&pmm));
}

#[test]
fn root_mount_serves_paths_under_it() {
    let mut ns = Namespace::new();
    ns.mount("/", Mounted::Tmp(TmpFs::new()));
    ns.mount("/dev", Mounted::Dev(DevFs::new()));
    let root = ns.resolve("/").unwrap();
    let etc = ns.create(root, "etc", InodeType::Directory, 0o755).unwrap();
    assert_eq!(ns.resolve("/etc"), Ok(etc));
    assert_eq!(ns.resolve("/nonexistent/path"), Err(Errno::ENOENT));
    assert_eq!(ns.resolve("/dev/null").unwrap().mount, 1);
}

struct FakeConfig {
    regs: HashMap<u32, u32>,
}

impl ConfigSpace for FakeConfig {
    fn read32(&mut self, address: u32) -> u32 {
        *self.regs.get(&address).unwrap_or(&0xFFFF_FFFF)
    }
    fn write32(&mut self, address: u32, value: u32) {
        self.regs.insert(address, value);
    }
}

fn addr(device: u32, function: u32, offset: u32) -> u32 {
    0x8000_0000 | (device << 11) | (function << 8) | offset
}

#[test]
fn pci_lists_every_function_of_a_multifunction_device() {
    let mut regs = HashMap::new();
    // slot 3: a multi-function device with functions 0 and 2
    regs.insert(addr(3, 0, 0), 0x1234_8086);
    regs.insert(addr(3, 0, 0x0C), 0x0080_0000);
    regs.insert(addr(3, 2, 0), 0x5678_10EC);
    regs.insert(addr(3, 2, 0x0C), 0);
    // slot 5: a single-function device; its function 1 answers but is not listed
    regs.insert(addr(5, 0, 0), 0x1001_1AF4);
    regs.insert(addr(5, 0, 0x0C), 0);
    regs.insert(addr(5, 1, 0), 0x1001_1AF4);
    let mut c = FakeConfig { regs };
    let devs = enumerate(&mut c);
    let found: Vec<(u8, u8, u16, u8)> = devs.iter().map(|d| (d.device, d.function, d.vendor_id, d.header_type)).collect();
    assert_eq!(found, vec![(3, 0, 0x8086, 0), (3, 2, 0x10EC, 0), (5, 0, 0x1AF4, 0)]);
}

struct NoHardwareRandom;

impl kernel::entropy::chacha20::EntropySource for NoHardwareRandom {
    fn random_u64(&mut self) -> Option<u64> {
        None
    }
}

#[test]
fn chacha_two_fills_continue_one_stream() {
    let seed = [7u8; 32];
    let mut r1 = kernel::entropy::chacha20::ChaCha20Rng::new(&seed);
    let mut r2 = kernel::entropy::chacha20::ChaCha20Rng::new(&seed);
    let mut src = NoHardwareRandom;
    let mut a = vec![0u8; 50];
    let mut b = vec![0u8; 100];
    let mut c = vec![0u8; 150];
    r1.fill(&mut a, &mut src);
    r1.fill(&mut b, &mut src);
    r2.fill(&mut c, &mut src);
    let mut ab = a.clone();
    ab.extend_from_slice(&b);
    assert_eq!(ab, c);
    assert_ne!(a, vec![0u8; 50]);
}

#[test]
fn tmpfs_inode_numbers_are_fresh() {
    let mut fs = TmpFs::new();
    let a = fs.create(0, "a", InodeType::File, 0o644).unwrap();
    let b = fs.create(0, "b", InodeType::Directory, 0o755).unwrap();
    let c = fs.create(b, "c", InodeType::File, 0o600).unwrap();
    let inos: Vec<u64> = [0, a, b, c].iter().map(|&n| fs.stat(n).unwrap().inode).collect();
    assert_eq!(inos, vec![1, 2, 3, 4]);
    assert_eq!(fs.unlink(0, "a"), Ok(()));
    let d = fs.create(0, "d", InodeType::File, 0o644).unwrap();
    assert_eq!(fs.stat(d).unwrap().inode, 5);
}

#[test]
fn block_cache_writes_back_a_dirty_victim() {
    let mut dev = RamDisk::new(16);
    let mut cache = kernel::fs::block_cache::BlockCache::init(512, 3); // room for two blocks
    assert_eq!(cache.write(3, b"abc", &mut dev), Ok(()));
    assert_eq!(&dev.bytes[3 * 512..3 * 512 + 3], &[0, 0, 0]);
    let _ = cache.read(4, &mut dev).unwrap();
    let _ = cache.read(5, &mut dev).unwrap();
    // block 3 was the least recently used entry: evicted and written back
    assert_eq!(&dev.bytes[3 * 512..3 * 512 + 3], b"abc");
    assert_eq!(cache.stats(), (2, 0, 1024));
}

#[test]
fn pci_devices_from_header_dwords() {
    let mut cfg = vec![0xFFFF_FFFFu32; 256 * 16];
    // slot 1, function 0: multi-function, class 01/06/01, BAR5 set, IRQ 11
    let f = 8;
    cfg[f * 16] = 0x2922_8086;
    cfg[f * 16 + 2] = 0x0106_0102;
    cfg[f * 16 + 3] = 0x0080_0000;
    for j in 0..6 {
        cfg[f * 16 + 4 + j] = 0;
    }
    cfg[f * 16 + 9] = 0xFEBF_1000;
    cfg[f * 16 + 15] = 0x0000_010B;
    // slot 1, function 3
    cfg[11 * 16] = 0x2930_8086;
    // slot 2, function 1 without a function 0: not listed
    cfg[17 * 16] = 0x1111_1234;
    let devs = kernel::drivers::pci::devices_from_config(&cfg);
    assert_eq!(devs.len(), 2);
    let d = &devs[0];
    assert_eq!((d.device, d.function, d.vendor_id, d.device_id), (1, 0, 0x8086, 0x2922));
    assert_eq!((d.class, d.subclass, d.prog_if, d.header_type, d.interrupt_line), (0x01, 0x06, 0x01, 0, 11));
    assert_eq!(d.bar[5], 0xFEBF_1000);
    assert_eq!((devs[1].device, devs[1].function, devs[1].device_id), (1, 3, 0x2930));
}

#[test]
fn ext2_lookup_errors() {
    let fs = Ext2Fs::mount(small_image()).unwrap();
    assert_eq!(fs.lookup(2, "missing"), Err(Errno::ENOENT));
    assert_eq!(fs.lookup(12, "x"), Err(Errno::ENOTDIR));
    assert_eq!(fs.lookup(99, "x"), Err(Errno::EIO));
    assert_eq!(fs.lookup(2, "."), Ok(2));
}

#[test]
fn block_cache_sync_counts_dirty_blocks() {
    let mut dev = RamDisk::new(16);
    let mut cache = kernel::fs::block_cache::BlockCache::init(512, 1024);
    assert_eq!(cache.write(2, b"xy", &mut dev), Ok(()));
    let _ = cache.read(5, &mut dev).unwrap();
    assert_eq!(cache.write(7, b"z", &mut dev), Ok(()));
    assert_eq!(cache.sync(&mut dev), Ok(2));
    assert_eq!(&dev.bytes[2 * 512..2 * 512 + 2], b"xy");
    assert_eq!(dev.bytes[7 * 512], b'z');
    assert_eq!(cache.sync(&mut dev), Ok(0));
}

#[test]
fn allocated_frames_are_zeroed() {
    let map = vec![MemoryRegion { base: 256 * 4096, length: 4 * 4096, kind: MemoryRegionKind::Usable }];
    let mut pmm = Pmm::init(0, &map);
    let mut mem = PhysMem::new(300);
    for w in mem.words.iter_mut() {
        *w = 0xDEAD_BEEF;
    }
    let f = pmm.alloc_frame(Zone::Normal, &mut mem).unwrap();
    let base = (f.0 as usize) * 512;
    assert!(mem.words[base..base + 512].iter().all(|&w| w == 0));
    assert_eq!(mem.words[if base == 0 { 512 } else { 0 }], 0xDEAD_BEEF);
}

#[test]
fn normalizing_twice_changes_nothing() {
    for p in ["/a/../../b/./c/", "a//b/../..", "../x/..", "", "/", ".", "x/./y", "../../a"] {
        let once = kernel::fs::path::normalize(p);
        assert_eq!(kernel::fs::path::normalize(&once), once);
    }
    assert_eq!(kernel::fs::path::normalize("/a/../../b/./c/"), "/b/c");
    assert_eq!(kernel::fs::path::normalize("../../a"), "../../a");
}

#[test]
fn heap_pages_are_mapped_writable_and_not_executable() {
    let map = vec![MemoryRegion { base: 1024 * 4096, length: 1024 * 4096, kind: MemoryRegionKind::Usable }];
    let mut pmm = Pmm::init(0, &map);
    let mut mem = PhysMem::new(2048);
    let mut vmm = Vmm::init(0, 1 << 12);
    let mut heap = LinkedListHeap::new();
    assert!(heap.init(&mut vmm, &mut mem, &mut pmm));
    let phys = vmm.translate(&mem, VirtAddr(KERNEL_HEAP_START)).unwrap();
    assert!(phys.0 >= 1024 * 4096);
    assert!(vmm.translate(&mem, VirtAddr(KERNEL_HEAP_START + 2 * 1024 * 1024 - 4096)).is_some());
    assert!(vmm.translate(&mem, VirtAddr(KERNEL_HEAP_START + 2 * 1024 * 1024)).is_none());
    let p = heap.allocate(64, 8, &mut vmm, &mut mem, &mut pmm);
    assert_eq!(p, KERNEL_HEAP_START + 8);
}

#[test]
fn ext2_new_directory_gets_dot_entries_and_an_entry_in_its_parent() {
    let mut fs = Ext2Fs::mount(small_image()).unwrap();
    let d = fs.create(2, "docs", InodeType::Directory, 0o1777).unwrap();
    assert_eq!(d, 13);
    let di = fs.read_inode(13).unwrap();
    // the permission bits are those of mode & 0o777
    assert_eq!(di.mode, 0x4000 | 0o777);
    assert_eq!((di.links_count, di.size, di.blocks), (2, 1024, 2));
    let blk = di.block[0] as usize;
    assert_eq!(blk, 8);
    let b = &fs.dev.bytes[blk * 1024..blk * 1024 + 1024];
    assert_eq!(u32::from_le_bytes([b[0], b[1], b[2], b[3]]), 13);
    assert_eq!(u16::from_le_bytes([b[4], b[5]]), 12);
    assert_eq!((b[6], b[7], b[8]), (1, 2, b'.'));
    assert_eq!(u32::from_le_bytes([b[12], b[13], b[14], b[15]]), 2);
    assert_eq!(u16::from_le_bytes([b[16], b[17]]), 1012);
    assert_eq!((b[18], b[19], b[20], b[21]), (2, 2, b'.', b'.'));
    assert_eq!(fs.lookup(2, "docs"), Ok(13));
    assert_eq!(fs.lookup(13, "."), Ok(13));
}

#[test]
fn ext2_create_refuses_other_types_and_long_names() {
    let mut fs = Ext2Fs::mount(small_image()).unwrap();
    assert_eq!(fs.create(2, "link", InodeType::Symlink, 0o777), Err(Errno::EINVAL));
    let long = "n".repeat(256);
    assert_eq!(fs.create(2, &long, InodeType::File, 0o644), Err(Errno::EINVAL));
    let ok = "n".repeat(255);
    assert!(fs.create(2, &ok, InodeType::File, 0o644).is_ok());
}
