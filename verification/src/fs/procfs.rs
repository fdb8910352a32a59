//! Process information file system: generated text files at /proc.
use vstd::prelude::*;
use vstd::string::StringExecFns;
use vstd::utf8::encode_utf8;
use crate::errno::Errno;
use crate::fs::names::same_name;
use crate::fs::tmpfs::read_at;
use crate::fs::vfs::{DirEntry, FileSystem, InodeType, Stat, Vfs, MountPoint};
use crate::memory::pmm::Pmm;
use crate::text::{decimal, pad_left, ascii, push_decimal, push_ascii, push_utf8, push_padded8};

verus! {

/// Node handles.
pub const PROC_ROOT: usize = 0;
pub const PROC_UPTIME: usize = 1;
pub const PROC_MEMINFO: usize = 2;
pub const PROC_VERSION: usize = 3;
pub const PROC_MOUNTS: usize = 4;

/// The process information file system.
pub struct ProcFs {}

/// /proc/uptime: seconds with two decimals, then a zero idle time.
pub open spec fn uptime_text(ticks: u64) -> Seq<u8> {
    let secs = ticks / 1000;
    let frac = (ticks % 1000) / 10;
    decimal(secs as nat) + seq![46u8] + (if frac < 10 { seq![48u8] } else { Seq::empty() }) + decimal(frac as nat)
        + ascii(" 0.00\n"@)
}

/// /proc/meminfo: total, free and used memory in KiB.
pub open spec fn meminfo_text(total_kb: nat, free_kb: nat, used_kb: nat) -> Seq<u8> {
    ascii("MemTotal:    "@) + pad_left(decimal(total_kb), 8) + ascii(" kB\n"@)
        + ascii("MemFree:     "@) + pad_left(decimal(free_kb), 8) + ascii(" kB\n"@)
        + ascii("MemUsed:     "@) + pad_left(decimal(used_kb), 8) + ascii(" kB\n"@)
}

/// /proc/version.
pub open spec fn version_text() -> Seq<u8> {
    ascii("LogOS version 0.1.0 (x86_64)\n"@)
}

/// /proc/mounts: one line per mount, "fs path fs rw 0 0".
pub open spec fn mounts_text(ms: Seq<MountPoint>) -> Seq<u8>
    decreases ms.len(),
{
    if ms.len() == 0 {
        Seq::empty()
    } else {
        let m = ms.last();
        mounts_text(ms.drop_last()) + encode_utf8(m.fs_name@) + seq![32u8] + encode_utf8(m.path@) + seq![32u8]
            + encode_utf8(m.fs_name@) + ascii(" rw 0 0\n"@)
    }
}

/// The file `name` opens in the directory.
pub open spec fn proc_lookup(name: Seq<char>) -> Result<usize, Errno> {
    if name == "uptime"@ {
        Ok(PROC_UPTIME)
    } else if name == "meminfo"@ {
        Ok(PROC_MEMINFO)
    } else if name == "version"@ {
        Ok(PROC_VERSION)
    } else if name == "mounts"@ {
        Ok(PROC_MOUNTS)
    } else {
        Err(Errno::ENOENT)
    }
}

/// Stat of the directory.
pub open spec fn proc_dir_stat(ino: u64) -> Stat {
    Stat { inode: ino, inode_type: InodeType::Directory, size: 0, nlink: 2, uid: 0, gid: 0,
        mode: 0o555, dev: 0, rdev: 0, blksize: 4096, blocks: 0 }
}

/// Stat of a file.
pub open spec fn proc_file_stat(ino: u64) -> Stat {
    Stat { inode: ino, inode_type: InodeType::File, size: 0, nlink: 1, uid: 0, gid: 0,
        mode: 0o444, dev: 0, rdev: 0, blksize: 4096, blocks: 0 }
}

/// The text of /proc/uptime for a tick count in milliseconds.
pub fn uptime_content(ticks: u64) -> (t: Vec<u8>)
    ensures
        t@ == uptime_text(ticks),
{
    let secs = ticks / 1000;
    let frac = (ticks % 1000) / 10;
    let mut t: Vec<u8> = Vec::new();
    push_decimal(&mut t, secs);
    t.push(46);
    if frac < 10 {
        t.push(48);
    }
    push_decimal(&mut t, frac);
    push_ascii(&mut t, " 0.00\n");
    proof {
        if frac < 10 {
            assert(t@ =~= uptime_text(ticks));
        } else {
            assert(t@ =~= uptime_text(ticks));
        }
    }
    t
}

/// The text of /proc/meminfo.
pub fn meminfo_content(pmm: &Pmm) -> (t: Vec<u8>)
    requires
        pmm.total_frames * 4 <= u64::MAX,
        pmm.free_frames <= pmm.total_frames,
    ensures
        t@ == meminfo_text((pmm.total_frames * 4) as nat, (pmm.free_frames * 4) as nat,
            ((pmm.total_frames - pmm.free_frames) * 4) as nat),
{
    let total_kb = pmm.total_frames() * 4;
    let free_kb = pmm.free_frames() * 4;
    let used_kb = total_kb - free_kb;
    let mut t: Vec<u8> = Vec::new();
    push_ascii(&mut t, "MemTotal:    ");
    push_padded8(&mut t, total_kb);
    push_ascii(&mut t, " kB\n");
    push_ascii(&mut t, "MemFree:     ");
    push_padded8(&mut t, free_kb);
    push_ascii(&mut t, " kB\n");
    push_ascii(&mut t, "MemUsed:     ");
    push_padded8(&mut t, used_kb);
    push_ascii(&mut t, " kB\n");
    assert(t@ =~= meminfo_text(total_kb as nat, free_kb as nat, used_kb as nat));
    t
}

/// The text of /proc/version.
pub fn version_content() -> (t: Vec<u8>)
    ensures
        t@ == version_text(),
{
    let mut t: Vec<u8> = Vec::new();
    push_ascii(&mut t, "LogOS version 0.1.0 (x86_64)\n");
    assert(t@ =~= version_text());
    t
}

/// The text of /proc/mounts.
pub fn mounts_content(vfs: &Vfs) -> (t: Vec<u8>)
    ensures
        t@ == mounts_text(vfs.mounts@),
{
    let mut t: Vec<u8> = Vec::new();
    let mut i: usize = 0;
    while i < vfs.mounts.len()
        invariant
            i <= vfs.mounts@.len(),
            t@ == mounts_text(vfs.mounts@.take(i as int)),
        decreases vfs.mounts@.len() - i,
    {
        let m = &vfs.mounts[i];
        let ghost before = t@;
        push_utf8(&mut t, m.fs_name.as_str());
        t.push(32);
        push_utf8(&mut t, m.path.as_str());
        t.push(32);
        push_utf8(&mut t, m.fs_name.as_str());
        push_ascii(&mut t, " rw 0 0\n");
        proof {
            assert(vfs.mounts@.take(i + 1).drop_last() =~= vfs.mounts@.take(i as int));
            assert(t@ =~= mounts_text(vfs.mounts@.take(i + 1)));
        }
        i = i + 1;
    }
    assert(vfs.mounts@.take(vfs.mounts@.len() as int) =~= vfs.mounts@);
    t
}

/// The bytes of generated `content` at `offset`, copied into `buf`.
pub fn read_generated(content: &Vec<u8>, offset: u64, buf: &mut Vec<u8>) -> (n: usize)
    ensures
        n == read_at(content@, offset as int, old(buf)@.len() as int).len(),
        final(buf)@ == read_at(content@, offset as int, old(buf)@.len() as int)
            + old(buf)@.subrange(n as int, old(buf)@.len() as int),
{
    let len = content.len();
    let start: usize = if offset < len as u64 { offset as usize } else { len };
    let end: usize = if buf.len() < len - start { start + buf.len() } else { len };
    let count = end - start;
    let mut k: usize = 0;
    while k < count
        invariant
            k <= count,
            count == end - start,
            start <= end,
            end <= len,
            len == content@.len(),
            count <= old(buf)@.len(),
            buf@.len() == old(buf)@.len(),
            forall|j: int| 0 <= j < k ==> #[trigger] buf@[j] == content@[start + j],
            forall|j: int| k <= j < buf@.len() ==> #[trigger] buf@[j] == old(buf)@[j],
        decreases count - k,
    {
        buf.set(k, content[start + k]);
        k = k + 1;
    }
    proof {
        let got = read_at(content@, offset as int, old(buf)@.len() as int);
        assert(got =~= content@.subrange(start as int, end as int));
        assert(buf@ =~= got + old(buf)@.subrange(count as int, old(buf)@.len() as int));
    }
    count
}

impl ProcFs {
    pub fn new() -> (fs: Self) {
        ProcFs {}
    }

    /// Stat of node `n`.
    pub fn stat(&self, n: usize) -> (r: Result<Stat, Errno>)
        requires
            n <= PROC_MOUNTS,
        ensures
            r == Ok::<Stat, Errno>(if n == PROC_ROOT { proc_dir_stat(1) } else { proc_file_stat((n + 1) as u64) }),
    {
        if n == PROC_ROOT {
            Ok(Stat { inode: 1, inode_type: InodeType::Directory, size: 0, nlink: 2, uid: 0, gid: 0,
                mode: 0o555, dev: 0, rdev: 0, blksize: 4096, blocks: 0 })
        } else {
            Ok(Stat { inode: (n + 1) as u64, inode_type: InodeType::File, size: 0, nlink: 1, uid: 0, gid: 0,
                mode: 0o444, dev: 0, rdev: 0, blksize: 4096, blocks: 0 })
        }
    }

    /// Type of node `n`.
    pub fn inode_type(&self, n: usize) -> (t: InodeType)
        ensures
            t == if n == PROC_ROOT { InodeType::Directory } else { InodeType::File },
    {
        if n == PROC_ROOT {
            InodeType::Directory
        } else {
            InodeType::File
        }
    }

    /// The file `name` in directory `d`.
    pub fn lookup(&self, d: usize, name: &str) -> (r: Result<usize, Errno>)
        ensures
            d != PROC_ROOT ==> r == Err::<usize, Errno>(Errno::ENOTDIR),
            d == PROC_ROOT ==> r == proc_lookup(name@),
    {
        if d != PROC_ROOT {
            return Err(Errno::ENOTDIR);
        }
        if same_name(name, "uptime") {
            Ok(PROC_UPTIME)
        } else if same_name(name, "meminfo") {
            Ok(PROC_MEMINFO)
        } else if same_name(name, "version") {
            Ok(PROC_VERSION)
        } else if same_name(name, "mounts") {
            Ok(PROC_MOUNTS)
        } else {
            Err(Errno::ENOENT)
        }
    }

    /// The directory listing: ".", "..", uptime, meminfo, version, mounts.
    pub fn readdir(&self, d: usize) -> (r: Result<Vec<DirEntry>, Errno>)
        ensures
            d != PROC_ROOT ==> r == Err::<Vec<DirEntry>, Errno>(Errno::ENOTDIR),
            d == PROC_ROOT ==> (r matches Ok(v) && {
                &&& v@.len() == 6
                &&& v@[0].name@ == "."@ && v@[0].inode == 1 && v@[0].inode_type == InodeType::Directory
                &&& v@[1].name@ == ".."@ && v@[1].inode == 1 && v@[1].inode_type == InodeType::Directory
                &&& v@[2].name@ == "uptime"@ && v@[2].inode == 2 && v@[2].inode_type == InodeType::File
                &&& v@[3].name@ == "meminfo"@ && v@[3].inode == 3 && v@[3].inode_type == InodeType::File
                &&& v@[4].name@ == "version"@ && v@[4].inode == 4 && v@[4].inode_type == InodeType::File
                &&& v@[5].name@ == "mounts"@ && v@[5].inode == 5 && v@[5].inode_type == InodeType::File
            }),
    {
        if d != PROC_ROOT {
            return Err(Errno::ENOTDIR);
        }
        let mut v: Vec<DirEntry> = Vec::new();
        v.push(DirEntry { name: String::from_str("."), inode: 1, inode_type: InodeType::Directory });
        v.push(DirEntry { name: String::from_str(".."), inode: 1, inode_type: InodeType::Directory });
        v.push(DirEntry { name: String::from_str("uptime"), inode: 2, inode_type: InodeType::File });
        v.push(DirEntry { name: String::from_str("meminfo"), inode: 3, inode_type: InodeType::File });
        v.push(DirEntry { name: String::from_str("version"), inode: 4, inode_type: InodeType::File });
        v.push(DirEntry { name: String::from_str("mounts"), inode: 5, inode_type: InodeType::File });
        Ok(v)
    }

    /// Read file `n` at `offset` into `buf`: its text is generated from the tick count,
    /// the frame counts and the mount table. The directory cannot be read.
    pub fn read(&self, n: usize, offset: u64, buf: &mut Vec<u8>, ticks: u64, pmm: &Pmm, vfs: &Vfs)
        -> (r: Result<usize, Errno>)
        requires
            pmm.total_frames * 4 <= u64::MAX,
            pmm.free_frames <= pmm.total_frames,
        ensures
            (n == PROC_ROOT || n > PROC_MOUNTS) ==> r == Err::<usize, Errno>(Errno::ENOSYS) && final(buf)@ == old(buf)@,
            PROC_ROOT < n <= PROC_MOUNTS ==> (r matches Ok(k) && {
                let text = if n == PROC_UPTIME {
                    uptime_text(ticks)
                } else if n == PROC_MEMINFO {
                    meminfo_text((pmm.total_frames * 4) as nat, (pmm.free_frames * 4) as nat,
                        ((pmm.total_frames - pmm.free_frames) * 4) as nat)
                } else if n == PROC_VERSION {
                    version_text()
                } else {
                    mounts_text(vfs.mounts@)
                };
                let got = read_at(text, offset as int, old(buf)@.len() as int);
                &&& k == got.len()
                &&& final(buf)@ == got + old(buf)@.subrange(k as int, old(buf)@.len() as int)
            }),
    {
        if n == PROC_ROOT || n > PROC_MOUNTS {
            return Err(Errno::ENOSYS);
        }
        let text = if n == PROC_UPTIME {
            uptime_content(ticks)
        } else if n == PROC_MEMINFO {
            meminfo_content(pmm)
        } else if n == PROC_VERSION {
            version_content()
        } else {
            mounts_content(vfs)
        };
        Ok(read_generated(&text, offset, buf))
    }
}

impl FileSystem for ProcFs {
    fn name(&self) -> (s: &'static str)
        ensures
            s@ == "procfs"@,
    {
        "procfs"
    }

    fn root(&self) -> (r: usize)
        ensures
            r == PROC_ROOT,
    {
        PROC_ROOT
    }
}

} // verus!
