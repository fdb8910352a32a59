use kernel::arch::apic::Apic;
use kernel::arch::smp::Smp;
use kernel::arch::percpu::{kernel_gs_base_write, PerCpuData, IA32_KERNEL_GS_BASE};
use kernel::drivers::ahci::{build_fis, command_step, find_sata_port, header_flags, hba_base_from_bar, prdt_entry, AhciState, CommandStep, ATA_CMD_READ_DMA_EXT};
use kernel::drivers::ahci::{ata_start, ata_step, AtaAction, AtaError, AtaEvent};
use kernel::drivers::keyboard::{scancode_to_ascii, Keyboard};
use kernel::drivers::serial::{Serial, COM1};
use kernel::drivers::virtio::{capacity_from, io_base_from_bar, request_result, PollStep, VirtioBlock, VIRTIO_BLK_T_IN};
use kernel::drivers::virtio::{init_device, init_start, init_step, InitAction, InitError, InitEvent};
use kernel::entropy::chacha20::{ChaCha20Rng, EntropySource};
use kernel::entropy::fill_bytes;
use kernel::errno::Errno;

struct NoRdrand;

impl EntropySource for NoRdrand {
    fn random_u64(&mut self) -> Option<u64> {
        None
    }
}

#[test]
fn chacha20_zero_key_keystream() {
    let mut rng = ChaCha20Rng::new(&[0u8; 32]);
    let mut buf = vec![0u8; 32];
    fill_bytes(&mut rng, &mut buf, &mut NoRdrand);
    let expected: [u8; 32] = [
        0x76, 0xb8, 0xe0, 0xad, 0xa0, 0xf1, 0x3d, 0x90, 0x40, 0x5d, 0x6a, 0xe5, 0x53, 0x86, 0xbd, 0x28,
        0xbd, 0xd2, 0x19, 0xb8, 0xa0, 0x8d, 0xed, 0x1a, 0xa8, 0x36, 0xef, 0xcc, 0x8b, 0x77, 0x0d, 0xc7,
    ];
    assert_eq!(buf, expected.to_vec());
}

#[test]
fn chacha20_different_seeds_differ() {
    let mut a = ChaCha20Rng::new(&[1u8; 32]);
    let mut b = ChaCha20Rng::new(&[2u8; 32]);
    let mut x = vec![0u8; 16];
    let mut y = vec![0u8; 16];
    fill_bytes(&mut a, &mut x, &mut NoRdrand);
    fill_bytes(&mut b, &mut y, &mut NoRdrand);
    assert_ne!(x, y);
}

#[test]
fn keyboard_scancodes_and_fifo() {
    assert_eq!(scancode_to_ascii(0x1E, false, false), Some('a'));
    assert_eq!(scancode_to_ascii(0x1E, true, false), Some('A'));
    assert_eq!(scancode_to_ascii(0x1E, false, true), Some('A'));
    assert_eq!(scancode_to_ascii(0x02, true, false), Some('!'));
    let mut k = Keyboard::new();
    k.buf_push(b'x');
    k.buf_push(b'y');
    assert_eq!(k.buf_pop(), Some(b'x'));
    assert_eq!(k.buf_pop(), Some(b'y'));
    assert_eq!(k.buf_pop(), None);
}

#[test]
fn serial_line_setup_and_crlf() {
    let s = Serial::new(COM1);
    let w = s.init();
    assert_eq!(w.len(), 10);
    assert_eq!(w[0], (COM1 + 1, 0x00));
    assert_eq!(w[9], (COM1 + 4, 0x0F));
    assert_eq!(s.write_str_serial(b"a\nb"), b"a\r\nb".to_vec());
    assert_eq!(s.write_byte(0x20, b'z'), Some((COM1, b'z')));
    assert_eq!(s.write_byte(0x00, b'z'), None);
}

#[test]
fn virtio_request_bookkeeping() {
    assert!(io_base_from_bar(0xC000).is_err());
    assert_eq!(io_base_from_bar(0xC041), Ok(0xC040));
    assert_eq!(capacity_from(0x10, 0x1), 0x1_0000_0010);
    assert!(VirtioBlock::new(0xC040, 1024, 0, 0).is_err());
    let mut d = VirtioBlock::new(0xC040, 1024, 128, 0).unwrap();
    assert_eq!(d.capacity_sectors(), 1024);
    assert!(d.check_request(0, 1000, false).is_err());
    assert!(d.check_request(1023, 1024, false).is_err());
    assert!(d.check_request(1022, 1024, true).is_ok());
    assert_eq!(d.submit(VIRTIO_BLK_T_IN, 0x5000, 0x6000, 512), Ok(0));
    assert_eq!(d.desc[0].next, 1);
    assert_eq!(d.desc[1].flags, 3);
    assert_eq!(d.desc[2].addr, 0x5010);
    assert_eq!(d.avail_idx, 1);
    assert_eq!(d.next_desc, 3);
    assert!(d.poll(0, 5) == PollStep::Wait);
    assert!(d.poll(0, 100_000_001) == PollStep::TimedOut);
    assert!(d.poll(1, 0) == PollStep::Done);
    assert_eq!(request_result(0), Ok(()));
    assert!(request_result(1).is_err());
}

#[test]
fn ahci_command_pieces() {
    assert!(hba_base_from_bar(0xFEBF_1001).is_err());
    assert_eq!(hba_base_from_bar(0xFEBF_1234), Ok(0xFEBF_1000));
    let st = AhciState::new(0x4000_0005, 0b101);
    assert_eq!(st.port_count, 6);
    let mut ssts = vec![0u32; 32];
    let mut sig = vec![0u32; 32];
    ssts[2] = 0x113;
    sig[2] = 0x101;
    assert_eq!(find_sata_port(0b101, &ssts, &sig), Some(2));
    assert_eq!(find_sata_port(0b001, &ssts, &sig), None);
    let fis = build_fis(ATA_CMD_READ_DMA_EXT, 0x0102_0304_0506, 2);
    assert_eq!(fis.len(), 20);
    assert_eq!(&fis[..8], &[0x27, 0x80, 0x25, 0, 0x06, 0x05, 0x04, 0x40]);
    assert_eq!(&fis[8..14], &[0x03, 0x02, 0x01, 0, 2, 0]);
    assert_eq!(header_flags(true), 5 | 0x40);
    assert_eq!(prdt_entry(0x1_2345_6000, 512), (0x2345_6000, 1, 511 | 0x8000_0000));
    assert!(command_step(0, 0, 0) == CommandStep::Done);
    assert!(command_step(1, 1 << 30, 0) == CommandStep::TaskFileError);
    assert!(command_step(1, 0, 10_000_001) == CommandStep::TimedOut);
}

#[test]
fn apic_ticks_and_calibration() {
    let mut a = Apic::new();
    a.calibrate(0xFFFF_FFFF - 100_000);
    assert_eq!(a.ticks_per_ms, 10_000);
    a.tick();
    a.tick();
    assert_eq!(a.ticks(), 2);
}

#[test]
fn smp_boot_plan() {
    let (started, expected) = Smp::plan_boot(&vec![0, 1, 2, 3], 0);
    assert_eq!(started, vec![1, 2, 3]);
    assert_eq!(expected, 4);
    let mut s = Smp::new();
    assert_eq!(s.cpus_online(), 1);
    assert_eq!(s.ap_online(), 1);
    assert_eq!(s.cpus_online(), 2);
    assert!(!s.keep_waiting(2, 0));
    assert!(s.keep_waiting(3, 5));
    s.finish();
    assert!(s.is_initialized());
}

#[test]
fn percpu_gs_base() {
    let mut d = PerCpuData::new();
    d.init(0xFFFF_8000_0010_0000);
    assert_eq!(d.kernel_rsp, 0xFFFF_8000_0010_0000);
    assert_eq!(kernel_gs_base_write(0x1_2345_6789), (IA32_KERNEL_GS_BASE, 0x2345_6789, 1));
}

#[test]
fn errno_names() {
    assert_eq!(Errno::ENOENT.name(), "ENOENT");
    assert_eq!(Errno::ENOSYS.name(), "ENOSYS");
}

#[test]
fn virtio_start_up_sequence() {
    let (mut st, first) = init_start(0xC041);
    assert!(first == InitAction::Out8(0xC040 + 18, 0));
    let events = [
        InitEvent::Wrote,
        InitEvent::Wrote,
        InitEvent::Wrote,
        InitEvent::Read(0xFFFF_FFFF),
        InitEvent::Wrote,
        InitEvent::Read(0x1000),
        InitEvent::Read(0),
        InitEvent::Wrote,
        InitEvent::Read(128),
        InitEvent::Frame(Some(0x10_0000)),
        InitEvent::Frame(Some(0x10_1000)),
        InitEvent::Frame(Some(0x10_2000)),
        InitEvent::Wrote,
        InitEvent::Wrote,
    ];
    let mut acts = Vec::new();
    for ev in events {
        let (next, act) = init_step(st, ev);
        st = next;
        acts.push(act);
    }
    let expected = [
        InitAction::Out8(0xC040 + 18, 1),
        InitAction::Out8(0xC040 + 18, 3),
        InitAction::In32(0xC040),
        InitAction::Out32(0xC040 + 4, 0),
        InitAction::In32(0xC040 + 20),
        InitAction::In32(0xC040 + 24),
        InitAction::Out16(0xC040 + 14, 0),
        InitAction::In16(0xC040 + 12),
        InitAction::AllocFrame,
        InitAction::AllocFrame,
        InitAction::AllocFrame,
        InitAction::Out32(0xC040 + 8, 0x100),
        InitAction::Out8(0xC040 + 18, 7),
        InitAction::Finish,
    ];
    assert_eq!(acts.len(), expected.len());
    for (a, e) in acts.iter().zip(expected.iter()) {
        assert!(a == e);
    }
    let dev = init_device(&st, 0).unwrap();
    assert_eq!((dev.io_base, dev.capacity_sectors, dev.queue_size), (0xC040, 0x1000, 128));
    // a memory BAR fails at once; a queue size of 0 and a missing frame fail on the way
    assert!(init_start(0xC040).1 == InitAction::Fail(InitError::NotIoSpace));
    let (s, _) = init_start(0xC041);
    let mut s = s;
    for ev in [InitEvent::Wrote, InitEvent::Wrote, InitEvent::Wrote, InitEvent::Read(0), InitEvent::Wrote, InitEvent::Read(1), InitEvent::Read(0), InitEvent::Wrote] {
        s = init_step(s, ev).0;
    }
    assert!(init_step(s, InitEvent::Read(0)).1 == InitAction::Fail(InitError::QueueSizeZero));
    let s2 = init_step(s, InitEvent::Read(8)).0;
    assert!(init_step(s2, InitEvent::Frame(None)).1 == InitAction::Fail(InitError::OutOfMemory));
}

#[test]
fn ata_command_sequence() {
    let (mut st, first) = ata_start(ATA_CMD_READ_DMA_EXT, 0x1234, 8, 0x20_0000, 4096, false);
    assert!(first == AtaAction::ReadTfd);
    let events = [
        AtaEvent::Read(0x80),
        AtaEvent::Read(0x50),
        AtaEvent::Read(0x8000),
        AtaEvent::Read(0),
        AtaEvent::Done,
        AtaEvent::Frame(Some(0x30_0000)),
        AtaEvent::Done,
        AtaEvent::Done,
        AtaEvent::Read(1),
        AtaEvent::Read(0),
        AtaEvent::Read(0),
        AtaEvent::Done,
    ];
    let mut acts = Vec::new();
    for ev in events {
        let (next, act) = ata_step(st, ev);
        st = next;
        acts.push(act);
    }
    let expected = [
        AtaAction::ReadTfd,
        AtaAction::ReadClb,
        AtaAction::ReadClbu,
        AtaAction::WriteHeader { at: 0x8000, flags: 5, prdtl: 1 },
        AtaAction::AllocFrame,
        AtaAction::WriteTable { at: 0x30_0000, header: 0x8000, command: ATA_CMD_READ_DMA_EXT, lba: 0x1234, count: 8,
            dba: 0x20_0000, dbau: 0, dbc: 4095 | 0x8000_0000 },
        AtaAction::WriteCi(1),
        AtaAction::ReadCi,
        AtaAction::ReadIs,
        AtaAction::ReadCi,
        AtaAction::FreeFrame(0x30_0000),
        AtaAction::Finish,
    ];
    assert_eq!(acts.len(), expected.len());
    for (a, e) in acts.iter().zip(expected.iter()) {
        assert!(a == e);
    }
    // a command list base of 0, a missing frame and a task file error fail
    let (s0, _) = ata_start(ATA_CMD_READ_DMA_EXT, 0, 1, 0x1000, 512, true);
    let s1 = ata_step(s0, AtaEvent::Read(0)).0;
    let s2 = ata_step(s1, AtaEvent::Read(0)).0;
    assert!(ata_step(s2, AtaEvent::Read(0)).1 == AtaAction::Fail(AtaError::NoCommandList));
    let (s3, a3) = ata_step(s2, AtaEvent::Read(0x4000));
    assert!(a3 == AtaAction::WriteHeader { at: 0x4000_0000_0000, flags: 5 | 0x40, prdtl: 1 });
    let s4 = ata_step(s3, AtaEvent::Done).0;
    assert!(ata_step(s4, AtaEvent::Frame(None)).1 == AtaAction::Fail(AtaError::OutOfMemory));
    let s5 = ata_step(s4, AtaEvent::Frame(Some(0x9000))).0;
    let s6 = ata_step(s5, AtaEvent::Done).0;
    let s7 = ata_step(s6, AtaEvent::Done).0;
    let s8 = ata_step(s7, AtaEvent::Read(1)).0;
    let (s9, a9) = ata_step(s8, AtaEvent::Read(1 << 30));
    assert!(a9 == AtaAction::FreeFrame(0x9000));
    assert!(ata_step(s9, AtaEvent::Done).1 == AtaAction::Fail(AtaError::TaskFile));
}
