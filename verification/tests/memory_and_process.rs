use kernel::errno::Errno;
use kernel::fault::{FaultInjector, InjectionPoint};
use kernel::memory::addr::{PhysFrame, VirtAddr};
use kernel::memory::cow;
use kernel::memory::oom::is_low;
use kernel::memory::paging::{PageFlags, PageMapper, PhysMem, FLAG_WRITABLE};
use kernel::memory::pmm::{MemoryRegion, MemoryRegionKind, Pmm};
use kernel::memory::slab::{AllocStep, KernelAllocator, SlabCache};
use kernel::process::address_space::{AddressSpace, USER_HEAP_START};
use kernel::process::elf;
use kernel::process::signal::{with_signal_state, Signal, SignalState};
use kernel::fs::fd::{FdTable, OpenFlags};
use kernel::ipc::pipe::Pipe;
use kernel::log::KernelLog;

fn pmm_frames(first_frame: u64, frames: u64) -> Pmm {
    let map = vec![MemoryRegion { base: first_frame * 4096, length: frames * 4096, kind: MemoryRegionKind::Usable }];
    Pmm::init(0, &map)
}

#[test]
fn cow_reference_counting() {
    let mut c = cow::init();
    let frame = PhysFrame(0x1234);
    assert_eq!(cow::ref_count(&c, frame), 0);
    assert_eq!(cow::inc_ref(&mut c, frame), 1);
    assert_eq!(cow::inc_ref(&mut c, frame), 2);
    assert!(cow::is_shared(&c, frame));
    assert_eq!(cow::dec_ref(&mut c, frame), 1);
    assert!(!cow::is_shared(&c, frame));
    assert_eq!(cow::dec_ref(&mut c, frame), 0);
    assert_eq!(cow::ref_count(&c, frame), 0);
}

#[test]
fn oom_low_memory_threshold() {
    let pmm = pmm_frames(256, 100);
    assert!(!is_low(&pmm));
}

#[test]
fn fault_injection_every_third_call() {
    let mut f = FaultInjector::new();
    assert!(!f.should_fail(InjectionPoint::DiskRead));
    f.set_every_n(InjectionPoint::DiskRead, 3);
    let got: Vec<bool> = (0..6).map(|_| f.should_fail(InjectionPoint::DiskRead)).collect();
    assert_eq!(got, vec![true, false, false, true, false, false]);
    assert!(!f.should_fail(InjectionPoint::PmmAlloc));
    assert!(!kernel::fault::should_fail(InjectionPoint::PtAlloc));
}

#[test]
fn slab_cache_hands_out_lowest_first_and_reuses() {
    let mut c = SlabCache::new(64, 0x1000_0000);
    assert!(c.allocate() == AllocStep::NeedGrow);
    let (vaddr, pages) = c.grow_region();
    assert_eq!((vaddr, pages), (0x1000_0000, 1));
    c.add_slab();
    let a = c.allocate();
    let b = c.allocate();
    assert!(a == AllocStep::Object(0x1000_0000 + 64));
    assert!(b == AllocStep::Object(0x1000_0000 + 128));
    assert_eq!(c.dealloc(0, 0x1000_0000 + 64), None);
    assert!(c.allocate() == AllocStep::Object(0x1000_0000 + 64));
    assert_eq!(KernelAllocator::cache_index(33), Some(1));
    assert_eq!(KernelAllocator::cache_index(4097), None);
    assert!(KernelAllocator::is_in_slab_region(0xFFFF_D000_0000_0000));
    assert!(!KernelAllocator::is_in_slab_region(0xFFFF_D008_0000_0000));
    let mut k = KernelAllocator::new();
    assert_eq!(k.alloc_route(8, 8), None);
    k.activate();
    assert_eq!(k.alloc_route(8, 64), Some(1));
}

#[test]
fn address_space_map_and_translate() {
    let mut mem = PhysMem::new(512);
    let mut pmm = pmm_frames(256, 256);
    let cr3 = 1u64 << 12;
    let asp = AddressSpace::new(0, cr3, &mut mem, &mut pmm).unwrap();
    assert_eq!(asp.brk, USER_HEAP_START);
    let frame = PhysFrame(5);
    let virt = VirtAddr(0x40_0000);
    asp.map_page(&mut mem, &mut pmm, virt, frame, PageFlags::from_bits_truncate(FLAG_WRITABLE)).unwrap();
    let mapper = PageMapper::new(asp.pml4_frame, 0);
    assert_eq!(mapper.translate(&mem, VirtAddr(0x40_0123)).map(|p| p.0), Some(5 * 4096 + 0x123));
    assert!(asp.map_user_stack(&mut mem, &mut pmm).is_ok());
    assert_eq!(asp.cr3(), asp.pml4_frame.0 << 12);
}

#[test]
fn fork_shares_leaves_read_only() {
    let mut mem = PhysMem::new(512);
    let mut pmm = pmm_frames(256, 256);
    let asp = AddressSpace::new(0, 1 << 12, &mut mem, &mut pmm).unwrap();
    let virt = VirtAddr(0x40_0000);
    asp.map_page(&mut mem, &mut pmm, virt, PhysFrame(7), PageFlags::from_bits_truncate(FLAG_WRITABLE)).unwrap();
    let mut c = cow::init();
    let child = asp.fork(&mut mem, &mut pmm, &mut c).unwrap();
    assert_eq!(child.brk, asp.brk);
    assert_eq!(cow::ref_count(&c, PhysFrame(7)), 1);
    let m_child = PageMapper::new(child.pml4_frame, 0);
    let m_parent = PageMapper::new(asp.pml4_frame, 0);
    assert_eq!(m_child.translate(&mem, virt).map(|p| p.0), Some(7 * 4096));
    assert_eq!(m_parent.translate(&mem, virt).map(|p| p.0), Some(7 * 4096));
}

#[test]
fn elf_rejects_bad_input() {
    assert!(elf::parse(&[]).is_err());
    let mut bad_magic = vec![0u8; 64];
    bad_magic[0] = 0x7E;
    assert_eq!(elf::parse(&bad_magic).err(), Some(Errno::ENOEXEC));
    let mut elf32 = vec![0u8; 64];
    elf32[0..4].copy_from_slice(&[0x7F, b'E', b'L', b'F']);
    elf32[4] = 1;
    assert!(elf::parse(&elf32).is_err());
}

#[test]
fn signals_pending_and_blocked() {
    let mut st = SignalState::new();
    assert!(!st.has_pending());
    st.send(Signal::SIGINT);
    assert!(st.has_pending());
    assert_eq!(st.dequeue(), Some(Signal::SIGINT));
    assert!(!st.has_pending());
    st.blocked = 1u64 << Signal::SIGTERM.number();
    st.send(Signal::SIGTERM);
    assert!(!st.has_pending());
    st.blocked = 0;
    assert!(st.has_pending());
}

#[test]
fn with_signal_state_runs_on_the_process_state() {
    let mut store = kernel::process::signal::init();
    let r = with_signal_state(&mut store, 1, |mut s: SignalState| {
        s.send(Signal::SIGINT);
        let p = s.has_pending();
        (s, p)
    });
    assert_eq!(r, Some(true));
    assert_eq!(with_signal_state(&mut store, 99, |s: SignalState| (s, ())), None);
}

#[test]
fn fd_dup2_and_lowest_free() {
    let mut t = FdTable::new();
    assert_eq!(t.alloc_fd(10, OpenFlags::rdonly()), Ok(0));
    assert_eq!(t.alloc_fd(11, OpenFlags::wronly()), Ok(1));
    assert_eq!(t.dup2(0, 10), Ok(10));
    assert_eq!(t.close(0), Ok(()));
    assert_eq!(t.alloc_fd(12, OpenFlags::rdwr()), Ok(0));
    assert_eq!(t.close(5), Err(Errno::EBADF));
}

#[test]
fn pipe_read_write_eof() {
    let (mut p, r, w) = Pipe::create();
    assert_eq!(w.write(&mut p, b"pipe works"), Ok(10));
    let mut buf = [0u8; 32];
    assert_eq!(r.read(&mut p, &mut buf), Some(10));
    assert_eq!(&buf[..10], b"pipe works");
    assert_eq!(r.read(&mut p, &mut buf), None);
    w.close(&mut p);
    assert_eq!(r.read(&mut p, &mut buf), Some(0));
}

#[test]
fn pipe_without_reader_fails() {
    let (mut p, r, w) = Pipe::create();
    r.close(&mut p);
    assert_eq!(w.write(&mut p, b"x"), Err(Errno::EPIPE));
}

#[test]
fn log_keeps_latest_bytes() {
    let mut log = KernelLog::new();
    log.append(b"boot ");
    log.append(b"ok");
    let mut buf = vec![0u8; 16];
    let n = log.read(&mut buf);
    assert_eq!(&buf[..n], b"boot ok");
}

#[test]
fn frame_given_back_restores_the_free_count() {
    let mut pmm = pmm_frames(256, 8);
    let mut mem = PhysMem::new(300);
    let before = pmm.free_frames();
    let zone_before = pmm.zone_free_frames(kernel::memory::pmm::Zone::Dma16);
    let f = pmm.alloc_frame(kernel::memory::pmm::Zone::Dma16, &mut mem).unwrap();
    assert_eq!(pmm.free_frames(), before - 1);
    pmm.dealloc(f);
    assert_eq!(pmm.free_frames(), before);
    assert_eq!(pmm.zone_free_frames(kernel::memory::pmm::Zone::Dma16), zone_before);
    assert_eq!(pmm.alloc_frame(kernel::memory::pmm::Zone::Dma16, &mut mem), Some(f));
}

#[test]
fn map_range_maps_each_page_to_its_frame() {
    let mut mem = PhysMem::new(512);
    let mut pmm = pmm_frames(256, 256);
    let asp = AddressSpace::new(0, 1 << 12, &mut mem, &mut pmm).unwrap();
    let mut mapper = PageMapper::new(asp.pml4_frame, 0);
    let flags = PageFlags::from_bits_truncate(FLAG_WRITABLE);
    assert!(mapper.map_range(&mut mem, &mut pmm, VirtAddr(0x80_0000), PhysFrame(20), 3, flags).is_ok());
    for i in 0..3u64 {
        let got = mapper.translate(&mem, VirtAddr(0x80_0000 + i * 4096 + 5)).map(|p| p.0);
        assert_eq!(got, Some((20 + i) * 4096 + 5));
    }
    assert!(mapper.translate(&mem, VirtAddr(0x80_0000 + 3 * 4096)).is_none());
    // a range that runs into a mapped page fails and takes back what it mapped
    let r = mapper.map_range(&mut mem, &mut pmm, VirtAddr(0x7F_E000), PhysFrame(40), 3, flags);
    assert!(r.is_err());
    assert!(mapper.translate(&mem, VirtAddr(0x7F_E000)).is_none());
    assert!(mapper.translate(&mem, VirtAddr(0x7F_F000)).is_none());
    assert_eq!(mapper.translate(&mem, VirtAddr(0x80_0000)).map(|p| p.0), Some(20 * 4096));
}

#[test]
fn fork_copies_user_tables_and_keeps_kernel_half() {
    let mut mem = PhysMem::new(512);
    let mut pmm = pmm_frames(256, 256);
    let asp = AddressSpace::new(0, 1 << 12, &mut mem, &mut pmm).unwrap();
    asp.map_page(&mut mem, &mut pmm, VirtAddr(0x40_0000), PhysFrame(7), PageFlags::from_bits_truncate(FLAG_WRITABLE)).unwrap();
    let p = asp.pml4_frame.0;
    mem.write_entry(p, 300, (9u64 << 12) | 3);
    let mut c = cow::init();
    let child = asp.fork(&mut mem, &mut pmm, &mut c).unwrap();
    let ch = child.pml4_frame.0;
    assert_ne!(ch, p);
    for k in 256..512 {
        assert_eq!(mem.read_entry(ch, k), mem.read_entry(p, k));
    }
    let pe = mem.read_entry(p, 0).unwrap();
    let ce = mem.read_entry(ch, 0).unwrap();
    assert!(pe & 1 != 0 && ce & 1 != 0);
    assert_ne!(pe & 0x000F_FFFF_FFFF_F000, ce & 0x000F_FFFF_FFFF_F000);
    assert_eq!(mem.read_entry(ch, 1), Some(0));
}
