use kernel::errno::Errno;
use kernel::fs::block_cache::BlockCache;
use kernel::fs::devfs::{DevFs, DEV_CONSOLE, DEV_NULL, DEV_RANDOM, DEV_ROOT, DEV_ZERO};
use kernel::fs::ext2::dev::RamDisk;
use kernel::fs::namespace::{Mounted, Namespace};
use kernel::fs::procfs::{meminfo_content, uptime_content, version_content, ProcFs, PROC_ROOT, PROC_UPTIME, PROC_VERSION};
use kernel::fs::tmpfs::TmpFs;
use kernel::fs::vfs::InodeType;
use kernel::entropy::chacha20::{ChaCha20Rng, EntropySource};
use kernel::memory::pmm::{MemoryRegion, MemoryRegionKind, Pmm};
use kernel::shell::builtins::{cat_chunk, Shell};

struct NoRdrand;

impl EntropySource for NoRdrand {
    fn random_u64(&mut self) -> Option<u64> {
        None
    }
}

fn small_pmm() -> Pmm {
    let map = vec![MemoryRegion { base: 0x10_0000, length: 0x40_0000, kind: MemoryRegionKind::Usable }];
    Pmm::init(0, &map)
}

#[test]
fn tmpfs_create_lookup_unlink() {
    let mut fs = TmpFs::new();
    let f = fs.create(0, "a.txt", InodeType::File, 0o644).unwrap();
    let d = fs.create(0, "dir", InodeType::Directory, 0o755).unwrap();
    assert_eq!(fs.lookup(0, "a.txt"), Ok(f));
    assert_eq!(fs.lookup(0, "dir"), Ok(d));
    assert_eq!(fs.create(0, "a.txt", InodeType::File, 0o644), Err(Errno::EEXIST));
    assert_eq!(fs.create(0, "p", InodeType::Pipe, 0o644), Err(Errno::EINVAL));
    assert_eq!(fs.lookup(f, "x"), Err(Errno::ENOTDIR));
    assert_eq!(fs.unlink(0, "a.txt"), Ok(()));
    assert_eq!(fs.lookup(0, "a.txt"), Err(Errno::ENOENT));
    assert_eq!(fs.unlink(0, "a.txt"), Err(Errno::ENOENT));
}

#[test]
fn tmpfs_readdir_is_sorted() {
    let mut fs = TmpFs::new();
    fs.create(0, "zeta", InodeType::File, 0o644).unwrap();
    fs.create(0, "alpha", InodeType::File, 0o644).unwrap();
    fs.create(0, "mid", InodeType::Directory, 0o755).unwrap();
    let names: Vec<String> = fs.readdir(0).unwrap().into_iter().map(|e| e.name).collect();
    assert_eq!(names, vec![".", "..", "alpha", "mid", "zeta"]);
}

#[test]
fn tmpfs_write_read_and_extend() {
    let mut fs = TmpFs::new();
    let f = fs.create(0, "f", InodeType::File, 0o600).unwrap();
    assert_eq!(fs.write(f, 0, b"hello"), Ok(5));
    assert_eq!(fs.write(f, 8, b"xy"), Ok(2));
    let mut buf = vec![0xEEu8; 16];
    assert_eq!(fs.read(f, 0, &mut buf), Ok(10));
    assert_eq!(&buf[..10], b"hello\0\0\0xy");
    assert_eq!(buf[10], 0xEE);
    let st = fs.stat(f).unwrap();
    assert_eq!(st.size, 10);
    assert_eq!(st.blocks, 1);
    assert_eq!(st.mode, 0o600);
    assert_eq!(fs.truncate(f, 3), Ok(()));
    let mut b2 = vec![0u8; 8];
    assert_eq!(fs.read(f, 0, &mut b2), Ok(3));
    assert_eq!(&b2[..3], b"hel");
    assert_eq!(fs.read(0, 0, &mut b2), Err(Errno::ENOSYS));
}

#[test]
fn devfs_devices() {
    let dev = DevFs::new();
    assert_eq!(dev.lookup(DEV_ROOT, "null"), Ok(DEV_NULL));
    assert_eq!(dev.lookup(DEV_ROOT, "tty"), Ok(DEV_CONSOLE));
    assert_eq!(dev.lookup(DEV_ROOT, "urandom"), Ok(DEV_RANDOM));
    assert_eq!(dev.lookup(DEV_ROOT, "sda"), Err(Errno::ENOENT));
    assert_eq!(dev.lookup(DEV_NULL, "x"), Err(Errno::ENOTDIR));
    let names: Vec<String> = dev.readdir(DEV_ROOT).unwrap().into_iter().map(|e| e.name).collect();
    assert_eq!(names, vec![".", "..", "console", "null", "random", "tty", "urandom", "zero"]);
    assert_eq!(dev.stat(DEV_NULL).unwrap().rdev, (1 << 8) | 3);
    assert_eq!(dev.stat(DEV_CONSOLE).unwrap().rdev, (5 << 8) | 1);
    let mut rng = ChaCha20Rng::new(&[0u8; 32]);
    let mut src = NoRdrand;
    let mut buf = vec![7u8; 4];
    assert_eq!(dev.read(DEV_ZERO, 0, &mut buf, &mut rng, &mut src), Ok(4));
    assert_eq!(buf, vec![0, 0, 0, 0]);
    let mut buf2 = vec![7u8; 4];
    assert_eq!(dev.read(DEV_NULL, 0, &mut buf2, &mut rng, &mut src), Ok(0));
    assert_eq!(buf2, vec![7, 7, 7, 7]);
    assert_eq!(dev.write(DEV_CONSOLE, b"abc"), Ok(3));
    assert_eq!(dev.write(DEV_ROOT, b"abc"), Err(Errno::ENOSYS));
}

#[test]
fn procfs_texts() {
    assert_eq!(uptime_content(12_345), b"12.34 0.00\n".to_vec());
    assert_eq!(uptime_content(5), b"0.00 0.00\n".to_vec());
    assert_eq!(version_content(), b"LogOS version 0.1.0 (x86_64)\n".to_vec());
    let pmm = small_pmm();
    let text = String::from_utf8(meminfo_content(&pmm)).unwrap();
    assert!(text.starts_with("MemTotal:        4096 kB\n"));
    let p = ProcFs::new();
    assert_eq!(p.lookup(PROC_ROOT, "version"), Ok(PROC_VERSION));
    assert_eq!(p.lookup(PROC_ROOT, "cpuinfo"), Err(Errno::ENOENT));
    assert_eq!(p.lookup(PROC_UPTIME, "x"), Err(Errno::ENOTDIR));
}

fn kernel_namespace() -> Namespace {
    let mut ns = Namespace::new();
    ns.mount("/", Mounted::Tmp(TmpFs::new()));
    ns.mount("/dev", Mounted::Dev(DevFs::new()));
    ns.mount("/proc", Mounted::Proc(ProcFs::new()));
    ns.mount("/tmp", Mounted::Tmp(TmpFs::new()));
    ns
}

#[test]
fn namespace_resolves_across_mounts() {
    let ns = kernel_namespace();
    let root = ns.resolve("/").unwrap();
    assert_eq!(root.mount, 0);
    let null = ns.resolve("/dev/null").unwrap();
    assert_eq!((null.mount, null.node), (1, DEV_NULL));
    let up = ns.resolve("/proc/uptime").unwrap();
    assert_eq!((up.mount, up.node), (2, PROC_UPTIME));
    assert_eq!(ns.resolve("/tmp").unwrap().mount, 3);
    assert_eq!(ns.resolve("/tmp/nothing"), Err(Errno::ENOENT));
}

#[test]
fn shell_file_commands() {
    let mut ns = kernel_namespace();
    let mut sh = Shell::new();
    sh.init_cwd();
    assert!(sh.mkdir(&mut ns, &vec!["/tmp/d".to_string()]).is_empty());
    assert!(sh.cd(&mut ns, &vec!["/tmp/d".to_string()]).is_empty());
    assert_eq!(sh.pwd(), b"/tmp/d\n".to_vec());
    assert!(sh.write_file(&mut ns, &vec!["f.txt".to_string(), "hi".to_string(), "there".to_string()]).is_empty());
    let node = sh.cat(&ns, &vec!["f.txt".to_string()]).unwrap();
    let pmm = small_pmm();
    let mut rng = ChaCha20Rng::new(&[1u8; 32]);
    let mut src = NoRdrand;
    assert_eq!(cat_chunk(&ns, node, 0, &mut rng, &mut src, 0, &pmm), Ok(b"hi there".to_vec()));
    assert_eq!(cat_chunk(&ns, node, 8, &mut rng, &mut src, 0, &pmm), Ok(vec![]));
    let listing = String::from_utf8(sh.ls(&ns, &vec![])).unwrap();
    assert_eq!(listing, "d  .\nd  ..\n-  f.txt\n");
    assert_eq!(sh.rm(&mut ns, &vec!["f.txt".to_string()]), Vec::<u8>::new());
    assert_eq!(String::from_utf8(sh.rm(&mut ns, &vec!["f.txt".to_string()])).unwrap(), "rm: /tmp/d/f.txt: ENOENT\n");
    assert_eq!(String::from_utf8(sh.cd(&mut ns, &vec!["/dev/null".to_string()])).unwrap(), "cd: /dev/null: Not a directory\n");
    assert_eq!(String::from_utf8(sh.cd(&mut ns, &vec!["/nope".to_string()])).unwrap(), "cd: /nope: ENOENT\n");
    assert_eq!(String::from_utf8(sh.mkdir(&mut ns, &vec![])).unwrap(), "mkdir: missing directory argument\n");
    let st = String::from_utf8(sh.stat(&ns, &vec!["/tmp".to_string()])).unwrap();
    assert!(st.contains("  Type: Directory\n"));
    assert!(st.ends_with("  Mode: 755\n"));
}

#[test]
fn block_cache_write_then_read_hits_cache() {
    let mut dev = RamDisk::new(64);
    let mut cache = BlockCache::init(512, 1024);
    assert_eq!(cache.stats(), (0, 0, 0));
    assert_eq!(cache.write(3, b"abc", &mut dev), Ok(()));
    let data = cache.read(3, &mut dev).unwrap();
    assert_eq!(&data[..3], b"abc");
    assert!(data[3..].iter().all(|&b| b == 0));
    assert_eq!(cache.stats(), (1, 1, 512));
    assert_eq!(cache.sync(&mut dev), Ok(1));
    assert_eq!(cache.stats(), (1, 0, 512));
}
