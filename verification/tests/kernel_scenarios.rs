use kernel::arch::pic;
use kernel::arch::syscall::{check_pending_signals, sigreturn_trampoline, syscall_msr_writes, IA32_EFER, IA32_LSTAR, IA32_SFMASK, IA32_STAR, SFMASK};
use kernel::drivers::framebuffer::FbConsole;
use kernel::entropy::seed_from_tsc_jitter;
use kernel::errno::Errno;
use kernel::fs::ext2::dev::{BlockDevice, RamDisk};
use kernel::fs::path::normalize;
use kernel::fs::tmpfs::TmpFs;
use kernel::fs::vfs::InodeType;
use kernel::ipc::pipe::Pipe;
use kernel::memory::addr::{PhysFrame, VirtAddr};
use kernel::memory::paging::{MapError, PageFlags, PhysMem, FLAG_NO_EXECUTE, FLAG_WRITABLE};
use kernel::memory::pmm::{MemoryRegion, MemoryRegionKind, Pmm};
use kernel::memory::vmm::Vmm;
use kernel::process::address_space::USER_STACK_TOP;
use kernel::process::elf;
use kernel::process::exec::{load_program, segment_flags, ExecError};
use kernel::process::pid::{self, ProcessDesc, ProcessState};
use kernel::process::signal::{self, SigHandler, Signal, SignalAction, SignalState};

fn pmm_frames(first_frame: u64, frames: u64) -> Pmm {
    let map = vec![MemoryRegion { base: first_frame * 4096, length: frames * 4096, kind: MemoryRegionKind::Usable }];
    Pmm::init(0, &map)
}

fn running(pid: u64, ppid: u64) -> ProcessDesc {
    ProcessDesc { pid, ppid, pgid: 1, sid: 1, state: ProcessState::Running, exit_code: 0, uid: 0, gid: 0 }
}

/// A minimal x86_64 executable: one loadable read/execute segment covering the file.
fn tiny_elf() -> Vec<u8> {
    let mut d = vec![0u8; 120];
    d[0..4].copy_from_slice(&[0x7F, b'E', b'L', b'F']);
    d[4] = 2;
    d[5] = 1;
    d[6] = 1;
    d[16..18].copy_from_slice(&2u16.to_le_bytes());
    d[18..20].copy_from_slice(&62u16.to_le_bytes());
    d[24..32].copy_from_slice(&0x40_0078u64.to_le_bytes());
    d[32..40].copy_from_slice(&64u64.to_le_bytes());
    d[54..56].copy_from_slice(&56u16.to_le_bytes());
    d[56..58].copy_from_slice(&1u16.to_le_bytes());
    d[64..68].copy_from_slice(&1u32.to_le_bytes());
    d[68..72].copy_from_slice(&5u32.to_le_bytes());
    d[72..80].copy_from_slice(&0u64.to_le_bytes());
    d[80..88].copy_from_slice(&0x40_0000u64.to_le_bytes());
    d[96..104].copy_from_slice(&120u64.to_le_bytes());
    d[104..112].copy_from_slice(&0x2000u64.to_le_bytes());
    d
}

#[test]
fn tmpfs_sequential_pattern_roundtrip() {
    let mut fs = TmpFs::new();
    let f = fs.create(0, "data_test_01", InodeType::File, 0o644).unwrap();
    let pattern: Vec<u8> = (0..256).map(|i| i as u8).collect();
    assert_eq!(fs.write(f, 0, &pattern), Ok(256));
    let mut readback = vec![0u8; 256];
    assert_eq!(fs.read(f, 0, &mut readback), Ok(256));
    assert_eq!(readback, pattern);
    assert_eq!(fs.unlink(0, "data_test_01"), Ok(()));
}

#[test]
fn pipe_pattern_integrity() {
    let (mut p, r, w) = Pipe::create();
    let pattern: Vec<u8> = (0..128).map(|i| (i * 3 + 7) as u8).collect();
    assert_eq!(w.write(&mut p, &pattern), Ok(128));
    let mut readback = [0u8; 128];
    assert_eq!(r.read(&mut p, &mut readback), Some(128));
    assert_eq!(readback.to_vec(), pattern);
}

#[test]
fn tmpfs_files_do_not_mix() {
    let mut fs = TmpFs::new();
    let mut ids = Vec::new();
    for i in 0u8..10 {
        let name = format!("data_multi_{}", i);
        let f = fs.create(0, &name, InodeType::File, 0o644).unwrap();
        assert_eq!(fs.write(f, 0, &[i; 64]), Ok(64));
        ids.push(f);
    }
    for i in 0u8..10 {
        let name = format!("data_multi_{}", i);
        let f = fs.lookup(0, &name).unwrap();
        assert_eq!(f, ids[i as usize]);
        let mut buf = vec![0u8; 64];
        assert_eq!(fs.read(f, 0, &mut buf), Ok(64));
        assert!(buf.iter().all(|&b| b == i));
        assert_eq!(fs.unlink(0, &name), Ok(()));
    }
}

#[test]
fn tmpfs_truncate_keeps_prefix() {
    let mut fs = TmpFs::new();
    let f = fs.create(0, "data_trunc", InodeType::File, 0o644).unwrap();
    assert_eq!(fs.write(f, 0, &[0xAB; 1024]), Ok(1024));
    assert_eq!(fs.truncate(f, 512), Ok(()));
    assert_eq!(fs.stat(f).unwrap().size, 512);
    let mut buf = vec![0u8; 512];
    assert_eq!(fs.read(f, 0, &mut buf), Ok(512));
    assert!(buf.iter().all(|&b| b == 0xAB));
}

#[test]
fn tmpfs_overwrite_replaces_bytes() {
    let mut fs = TmpFs::new();
    let f = fs.create(0, "over", InodeType::File, 0o644).unwrap();
    assert_eq!(fs.write(f, 0, b"hello world"), Ok(11));
    assert_eq!(fs.write(f, 0, b"HELLO"), Ok(5));
    let mut buf = vec![0u8; 11];
    assert_eq!(fs.read(f, 0, &mut buf), Ok(11));
    assert_eq!(&buf, b"HELLO world");
}

#[test]
fn process_exit_zombie_reap() {
    let mut t = pid::init();
    let p = pid::alloc_pid(&mut t);
    pid::register(&mut t, running(p, 1));
    pid::set_zombie(&mut t, p, 99);
    assert_eq!(pid::reap(&mut t, p), Some(99));
    assert_eq!(pid::reap(&mut t, p), None);
    assert_eq!(pid::reap(&mut t, 99999), None);
}

#[test]
fn reparent_children_to_init() {
    let mut t = pid::init();
    let parent = pid::alloc_pid(&mut t);
    let c1 = pid::alloc_pid(&mut t);
    let c2 = pid::alloc_pid(&mut t);
    pid::register(&mut t, running(parent, 1));
    pid::register(&mut t, running(c1, parent));
    pid::register(&mut t, running(c2, parent));
    pid::reparent_children(&mut t, parent);
    for (p, ppid, _) in pid::list(&t) {
        if p == c1 || p == c2 {
            assert_eq!(ppid, 1);
        }
    }
    assert_eq!(pid::get_ppid(&t, c1), Some(1));
}

#[test]
fn signal_default_actions() {
    assert_eq!(Signal::SIGKILL.default_action(), SignalAction::Terminate);
    assert_eq!(Signal::SIGCHLD.default_action(), SignalAction::Ignore);
    assert_eq!(Signal::SIGSTOP.default_action(), SignalAction::Stop);
    assert_eq!(Signal::SIGCONT.default_action(), SignalAction::Continue);
}

#[test]
fn signals_leave_lowest_number_first() {
    let mut s = SignalState::new();
    s.send(Signal::SIGTERM);
    s.send(Signal::SIGHUP);
    s.send(Signal::SIGINT);
    assert_eq!(s.dequeue(), Some(Signal::SIGHUP));
    assert_eq!(s.dequeue(), Some(Signal::SIGINT));
    assert_eq!(s.dequeue(), Some(Signal::SIGTERM));
    assert_eq!(s.dequeue(), None);
}

#[test]
fn elf_rejects_other_machines_and_truncation() {
    let mut arm = vec![0u8; 64];
    arm[0..4].copy_from_slice(&[0x7F, b'E', b'L', b'F']);
    arm[4] = 2;
    arm[5] = 1;
    arm[16..18].copy_from_slice(&2u16.to_le_bytes());
    arm[18..20].copy_from_slice(&183u16.to_le_bytes());
    assert!(elf::parse(&arm).is_err());
    assert!(elf::parse(&[0x7F, b'E', b'L', b'F', 2, 1, 0, 0]).is_err());
    let good = tiny_elf();
    let info = elf::parse(&good).unwrap();
    assert_eq!(info.entry_point, 0x40_0078);
    assert_eq!(info.segments.len(), 1);
}

#[test]
fn signal_delivery_builds_frame_and_redirects() {
    let mut store = signal::init();
    let handler = 0x40_1000u64;
    let r = signal::with_signal_state(&mut store, 1, |mut s: SignalState| {
        s.set_handler(Signal::SIGUSR1, SigHandler::Handler(handler));
        s.send(Signal::SIGUSR1);
        (s, ())
    });
    assert_eq!(r, Some(()));
    let user_rsp = 0x7FFF_FFFF_E123u64;
    let mut ctx = vec![0u64, 0, 0, 0, 0, 0, user_rsp, 0x202, 0x40_0500];
    let (ret, delivery) = check_pending_signals(&mut store, 1, &mut ctx, -4);
    assert_eq!(ret, -4);
    let d = delivery.unwrap();
    let frame_addr = (user_rsp - 56) & !0xF;
    assert_eq!(d.frame_addr, frame_addr);
    assert_eq!(d.return_slot, frame_addr - 8);
    assert_eq!(d.frame.signo, Signal::SIGUSR1.number() as u64);
    assert_eq!(d.frame.saved_rip, 0x40_0500);
    assert_eq!(d.frame.saved_rsp, user_rsp);
    assert_eq!(d.frame.saved_rflags, 0x202);
    assert_eq!(d.frame.saved_rax, (-4i64) as u64);
    assert_eq!(d.frame.trampoline, sigreturn_trampoline());
    assert_eq!(ctx[8], handler);
    assert_eq!(ctx[6], frame_addr - 8);
    let mut ctx2 = ctx.clone();
    let (ret2, none) = check_pending_signals(&mut store, 1, &mut ctx2, 7);
    assert_eq!(ret2, 7);
    assert!(none.is_none());
    assert_eq!(ctx2, ctx);
}

#[test]
fn ignored_signal_is_taken_without_delivery() {
    let mut store = signal::init();
    signal::with_signal_state(&mut store, 1, |mut s: SignalState| {
        s.set_handler(Signal::SIGUSR2, SigHandler::Ignore);
        s.send(Signal::SIGUSR2);
        (s, ())
    });
    let mut ctx = vec![0u64; 9];
    let (_, d) = check_pending_signals(&mut store, 1, &mut ctx, 0);
    assert!(d.is_none());
    let pending = signal::with_signal_state(&mut store, 1, |s: SignalState| {
        let p = s.has_pending();
        (s, p)
    });
    assert_eq!(pending, Some(false));
    let (_, none) = check_pending_signals(&mut store, 42, &mut ctx, 0);
    assert!(none.is_none());
}

#[test]
fn trampoline_bytes() {
    assert_eq!(
        sigreturn_trampoline(),
        vec![0x48, 0xC7, 0xC0, 15, 0, 0, 0, 0x0F, 0x05, 0x90, 0x90, 0x90, 0x90, 0x90, 0x90, 0x90]
    );
}

#[test]
fn syscall_msrs() {
    let w = syscall_msr_writes(0xD00, 0xFFFF_FFFF_8000_1234);
    assert_eq!(
        w,
        vec![
            (IA32_EFER, 0xD01),
            (IA32_STAR, 0x0010_0008_0000_0000),
            (IA32_LSTAR, 0xFFFF_FFFF_8000_1234),
            (IA32_SFMASK, SFMASK),
        ]
    );
}

#[test]
fn pic_masking_sequence() {
    let w = pic::disable();
    assert_eq!(w.len(), 10);
    assert_eq!(w[0], (0x20, 0x11));
    assert_eq!(w[2], (0x21, 0x20));
    assert_eq!(w[3], (0xA1, 0x28));
    assert_eq!(w[8], (0x21, 0xFF));
    assert_eq!(w[9], (0xA1, 0xFF));
}

#[test]
fn memory_map_type_codes() {
    assert_eq!(MemoryRegionKind::from_limine(0), MemoryRegionKind::Usable);
    assert_eq!(MemoryRegionKind::from_limine(1), MemoryRegionKind::Reserved);
    assert_eq!(MemoryRegionKind::from_limine(5), MemoryRegionKind::BootloaderReclaimable);
    assert_eq!(MemoryRegionKind::from_limine(6), MemoryRegionKind::KernelAndModules);
    assert_eq!(MemoryRegionKind::from_limine(7), MemoryRegionKind::Framebuffer);
    assert_eq!(MemoryRegionKind::from_limine(42), MemoryRegionKind::Reserved);
}

#[test]
fn jitter_seed_takes_low_bits() {
    let mut deltas = vec![0u64; 256];
    for b in 0..8 {
        deltas[b] = if b % 2 == 0 { 101 } else { 100 };
    }
    deltas[8 + 7] = 3;
    let mut seed = vec![0u8; 32];
    seed_from_tsc_jitter(&mut seed, &deltas);
    assert_eq!(seed[0], 0b0101_0101);
    assert_eq!(seed[1], 0x80);
    assert!(seed[2..].iter().all(|&b| b == 0));
}

#[test]
fn framebuffer_clear_keeps_padding() {
    let font = vec![0u8; 95 * 16];
    let mut fb = FbConsole::init(16, 16, 24 * 4, 32, font).unwrap();
    for p in fb.pixels.iter_mut() {
        *p = 7;
    }
    fb.bg = 1;
    fb.clear_screen();
    assert_eq!((fb.col, fb.row), (0, 0));
    for y in 0..16usize {
        for x in 0..24usize {
            let want = if x < 16 { 1 } else { 7 };
            assert_eq!(fb.pixels[y * 24 + x], want);
        }
    }
}

#[test]
fn load_program_maps_segments_and_stack() {
    let mut mem = PhysMem::new(512);
    let mut pmm = pmm_frames(256, 256);
    let data = tiny_elf();
    let p = load_program(&data, 0, 1 << 12, &mut mem, &mut pmm).unwrap();
    assert_eq!(p.entry, 0x40_0078);
    assert_eq!(p.user_rsp, USER_STACK_TOP);
    assert_eq!(p.segments.len(), 1);
    assert_eq!(segment_flags(&p.segments[0]).bits(), 4);
    let vmm = Vmm { mapper: kernel::memory::paging::PageMapper::new(p.space.pml4_frame, 0) };
    assert!(vmm.translate(&mem, VirtAddr(0x40_0000)).is_some());
    assert!(vmm.translate(&mem, VirtAddr(0x40_1000)).is_some());
    assert!(vmm.translate(&mem, VirtAddr(0x40_2000)).is_none());
    assert!(vmm.translate(&mem, VirtAddr(USER_STACK_TOP - 0x1000)).is_some());
    assert_eq!(
        load_program(&data[..60], 0, 1 << 12, &mut mem, &mut pmm).err(),
        Some(ExecError::InvalidElf(Errno::ENOEXEC))
    );
}

#[test]
fn load_program_without_frames_fails_at_address_space() {
    let mut mem = PhysMem::new(512);
    let mut pmm = pmm_frames(256, 0);
    let data = tiny_elf();
    assert_eq!(
        load_program(&data, 0, 1 << 12, &mut mem, &mut pmm).err(),
        Some(ExecError::AddressSpace(Errno::ENOMEM))
    );
}

#[test]
fn vmm_maps_many_pages_and_frees_them() {
    let mut mem = PhysMem::new(512);
    let mut pmm = pmm_frames(256, 256);
    let mut vmm = Vmm::init(0, 1 << 12);
    let start = VirtAddr(0xFFFF_E000_0000_0000);
    let free_before = pmm.free_frames();
    let flags = PageFlags::from_bits_truncate(FLAG_WRITABLE | FLAG_NO_EXECUTE);
    assert_eq!(vmm.alloc_and_map(&mut mem, &mut pmm, start, 100, flags), Ok(()));
    for i in 0..100u64 {
        assert!(vmm.translate(&mem, VirtAddr(start.0 + i * 4096)).is_some());
    }
    assert_eq!(pmm.free_frames(), free_before - 103);
    vmm.unmap_and_free(&mut mem, &mut pmm, start, 100);
    for i in 0..100u64 {
        assert!(vmm.translate(&mem, VirtAddr(start.0 + i * 4096)).is_none());
    }
    assert_eq!(pmm.free_frames(), free_before - 3);
}

#[test]
fn vmm_double_map_and_unmapped_unmap_fail() {
    let mut mem = PhysMem::new(512);
    let mut pmm = pmm_frames(256, 256);
    let mut vmm = Vmm::init(0, 1 << 12);
    let v = VirtAddr::new_canonicalize(0xFFFF_E000_2000_0000);
    let flags = PageFlags::from_bits_truncate(FLAG_WRITABLE | FLAG_NO_EXECUTE);
    assert_eq!(vmm.map_page(&mut mem, &mut pmm, v, PhysFrame(300), flags), Ok(()));
    assert_eq!(vmm.map_page(&mut mem, &mut pmm, v, PhysFrame(301), flags), Err(MapError::AlreadyMapped));
    assert_eq!(vmm.unmap_page(&mut mem, v), Ok(PhysFrame(300)));
    let other = VirtAddr::new_canonicalize(0xFFFF_E000_3000_0000);
    assert_eq!(vmm.unmap_page(&mut mem, other), Err(MapError::NotMapped));
    assert_eq!(vmm.p4_frame(), PhysFrame(1));
}

#[test]
fn sent_unblocked_signal_is_dequeued_next() {
    let mut s = SignalState::new();
    s.blocked = 1u64 << Signal::SIGINT.number();
    s.send(Signal::SIGINT);
    assert!(!s.has_pending());
    s.send(Signal::SIGUSR1);
    assert_eq!(s.dequeue(), Some(Signal::SIGUSR1));
    assert!(!s.has_pending());
}

#[test]
fn absolute_paths_stay_under_root() {
    assert_eq!(normalize("/../../etc/./passwd"), "/etc/passwd");
    assert_eq!(normalize("/a/../../.."), "/");
    assert_eq!(normalize("/.."), "/");
}

#[test]
fn framebuffer_scroll_moves_rows_up() {
    let font = vec![0u8; 95 * 16];
    let mut fb = FbConsole::init(8, 32, 10 * 4, 32, font).unwrap();
    for (k, p) in fb.pixels.iter_mut().enumerate() {
        *p = k as u32;
    }
    fb.bg = 9;
    fb.scroll_up();
    for y in 0..32usize {
        for x in 0..10usize {
            let k = y * 10 + x;
            let want = if x >= 8 { k as u32 } else if y < 16 { (k + 160) as u32 } else { 9 };
            assert_eq!(fb.pixels[k], want);
        }
    }
}

#[test]
fn framebuffer_init_refuses_bad_geometry() {
    assert!(FbConsole::init(8, 16, 32, 24, vec![0u8; 95 * 16]).is_none());
    assert!(FbConsole::init(4, 16, 32, 32, vec![0u8; 95 * 16]).is_none());
    assert!(FbConsole::init(16, 16, 32, 32, vec![0u8; 95 * 16]).is_none());
    assert!(FbConsole::init(8, 16, 32, 32, vec![0u8; 10]).is_none());
    let fb = FbConsole::init(8, 16, 32, 32, vec![0u8; 95 * 16]).unwrap();
    assert!(fb.pixels.iter().all(|&p| p == 0));
}

#[test]
fn ramdisk_bounds() {
    let mut d = RamDisk::new(4);
    let mut buf = vec![7u8; 512];
    assert!(d.read_sectors(4, &mut buf).is_err());
    assert_eq!(buf, vec![7u8; 512]);
    assert!(d.write_sectors(3, &vec![1u8; 1024]).is_err());
    assert!(d.write_sectors(3, &vec![1u8; 512]).is_ok());
    assert!(d.read_sectors(3, &mut buf).is_ok());
    assert_eq!(buf, vec![1u8; 512]);
}

#[test]
fn pids_count_up_from_two() {
    let mut t = pid::init();
    let got: Vec<u64> = (0..5).map(|_| pid::alloc_pid(&mut t) as u64).collect();
    assert_eq!(got, vec![2, 3, 4, 5, 6]);
    assert_eq!(pid::count(&t), 1);
}
