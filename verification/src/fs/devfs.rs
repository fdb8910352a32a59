//! Device file system: the fixed directory of character devices at /dev.
use vstd::prelude::*;
use vstd::string::StringExecFns;
use crate::entropy::chacha20::{ChaCha20Rng, EntropySource, RESEED_INTERVAL};
use crate::entropy::fill_bytes;
use crate::errno::Errno;
use crate::fs::names::same_name;
use crate::fs::vfs::{DirEntry, FileSystem, InodeType, Stat};

verus! {

/// Node handles.
pub const DEV_ROOT: usize = 0;
pub const DEV_NULL: usize = 1;
pub const DEV_ZERO: usize = 2;
pub const DEV_RANDOM: usize = 3;
pub const DEV_CONSOLE: usize = 4;

/// The device file system.
pub struct DevFs {}

/// The directory: names in order, each with the device it opens.
pub open spec fn dev_table() -> Seq<(Seq<char>, usize)> {
    seq![
        (seq!['c', 'o', 'n', 's', 'o', 'l', 'e'], DEV_CONSOLE),
        (seq!['n', 'u', 'l', 'l'], DEV_NULL),
        (seq!['r', 'a', 'n', 'd', 'o', 'm'], DEV_RANDOM),
        (seq!['t', 't', 'y'], DEV_CONSOLE),
        (seq!['u', 'r', 'a', 'n', 'd', 'o', 'm'], DEV_RANDOM),
        (seq!['z', 'e', 'r', 'o'], DEV_ZERO),
    ]
}

/// The device `name` opens.
pub open spec fn dev_lookup(name: Seq<char>) -> Option<usize> {
    let t = dev_table();
    if name == t[0].0 {
        Some(t[0].1)
    } else if name == t[1].0 {
        Some(t[1].1)
    } else if name == t[2].0 {
        Some(t[2].1)
    } else if name == t[3].0 {
        Some(t[3].1)
    } else if name == t[4].0 {
        Some(t[4].1)
    } else if name == t[5].0 {
        Some(t[5].1)
    } else {
        None
    }
}

/// Stat of a character device (inode, major and minor numbers).
pub open spec fn dev_stat_spec(ino: u64, major: u64, minor: u64) -> Stat {
    Stat { inode: ino, inode_type: InodeType::CharDevice, size: 0, nlink: 1, uid: 0, gid: 0,
        mode: 0o666, dev: 0, rdev: (major << 8) | minor, blksize: 4096, blocks: 0 }
}

/// Stat of each node.
pub open spec fn devfs_stat(n: usize) -> Stat {
    if n == DEV_ROOT {
        Stat { inode: 1, inode_type: InodeType::Directory, size: 0, nlink: 2, uid: 0, gid: 0,
            mode: 0o755, dev: 0, rdev: 0, blksize: 4096, blocks: 0 }
    } else if n == DEV_NULL {
        dev_stat_spec(2, 1, 3)
    } else if n == DEV_ZERO {
        dev_stat_spec(3, 1, 5)
    } else if n == DEV_RANDOM {
        dev_stat_spec(4, 1, 8)
    } else {
        dev_stat_spec(5, 5, 1)
    }
}

fn dev_stat(ino: u64, major: u64, minor: u64) -> (s: Stat)
    requires
        major < 0x100_0000,
    ensures
        s == dev_stat_spec(ino, major, minor),
{
    Stat { inode: ino, inode_type: InodeType::CharDevice, size: 0, nlink: 1, uid: 0, gid: 0,
        mode: 0o666, dev: 0, rdev: (major << 8) | minor, blksize: 4096, blocks: 0 }
}

impl DevFs {
    pub fn new() -> (fs: Self) {
        DevFs {}
    }

    /// Stat of node `n`.
    pub fn stat(&self, n: usize) -> (r: Result<Stat, Errno>)
        requires
            n <= DEV_CONSOLE,
        ensures
            r == Ok::<Stat, Errno>(devfs_stat(n)),
    {
        if n == DEV_ROOT {
            Ok(Stat { inode: 1, inode_type: InodeType::Directory, size: 0, nlink: 2, uid: 0, gid: 0,
                mode: 0o755, dev: 0, rdev: 0, blksize: 4096, blocks: 0 })
        } else if n == DEV_NULL {
            Ok(dev_stat(2, 1, 3))
        } else if n == DEV_ZERO {
            Ok(dev_stat(3, 1, 5))
        } else if n == DEV_RANDOM {
            Ok(dev_stat(4, 1, 8))
        } else {
            Ok(dev_stat(5, 5, 1))
        }
    }

    /// Type of node `n`.
    pub fn inode_type(&self, n: usize) -> (t: InodeType)
        ensures
            t == if n == DEV_ROOT { InodeType::Directory } else { InodeType::CharDevice },
    {
        if n == DEV_ROOT {
            InodeType::Directory
        } else {
            InodeType::CharDevice
        }
    }

    /// The device `name` opens in the directory `d`.
    pub fn lookup(&self, d: usize, name: &str) -> (r: Result<usize, Errno>)
        ensures
            d != DEV_ROOT ==> r == Err::<usize, Errno>(Errno::ENOTDIR),
            d == DEV_ROOT ==> r == match dev_lookup(name@) {
                Some(n) => Ok::<usize, Errno>(n),
                None => Err(Errno::ENOENT),
            },
    {
        if d != DEV_ROOT {
            return Err(Errno::ENOTDIR);
        }
        proof {
            reveal_strlit("console");
            reveal_strlit("null");
            reveal_strlit("random");
            reveal_strlit("tty");
            reveal_strlit("urandom");
            reveal_strlit("zero");
            let t = dev_table();
            assert("console"@ =~= t[0].0);
            assert("null"@ =~= t[1].0);
            assert("random"@ =~= t[2].0);
            assert("tty"@ =~= t[3].0);
            assert("urandom"@ =~= t[4].0);
            assert("zero"@ =~= t[5].0);
        }
        let r = if same_name(name, "console") {
            Ok(DEV_CONSOLE)
        } else if same_name(name, "null") {
            Ok(DEV_NULL)
        } else if same_name(name, "random") {
            Ok(DEV_RANDOM)
        } else if same_name(name, "tty") {
            Ok(DEV_CONSOLE)
        } else if same_name(name, "urandom") {
            Ok(DEV_RANDOM)
        } else if same_name(name, "zero") {
            Ok(DEV_ZERO)
        } else {
            Err(Errno::ENOENT)
        };
        r
    }

    /// The directory listing: "." and "..", then each device name in order, with inode
    /// number 0.
    pub fn readdir(&self, d: usize) -> (r: Result<Vec<DirEntry>, Errno>)
        ensures
            d != DEV_ROOT ==> r == Err::<Vec<DirEntry>, Errno>(Errno::ENOTDIR),
            d == DEV_ROOT ==> (r matches Ok(v) && {
                &&& v@.len() == 8
                &&& v@[0].name@ == seq!['.'] && v@[0].inode == 1 && v@[0].inode_type == InodeType::Directory
                &&& v@[1].name@ == seq!['.', '.'] && v@[1].inode == 1 && v@[1].inode_type == InodeType::Directory
                &&& forall|i: int| 0 <= i < 6 ==> (#[trigger] v@[i + 2]).name@ == dev_table()[i].0
                    && v@[i + 2].inode == 0 && v@[i + 2].inode_type == InodeType::CharDevice
            }),
    {
        if d != DEV_ROOT {
            return Err(Errno::ENOTDIR);
        }
        proof {
            reveal_strlit(".");
            reveal_strlit("..");
            reveal_strlit("console");
            reveal_strlit("null");
            reveal_strlit("random");
            reveal_strlit("tty");
            reveal_strlit("urandom");
            reveal_strlit("zero");
        }
        let mut v: Vec<DirEntry> = Vec::new();
        v.push(DirEntry { name: String::from_str("."), inode: 1, inode_type: InodeType::Directory });
        v.push(DirEntry { name: String::from_str(".."), inode: 1, inode_type: InodeType::Directory });
        v.push(DirEntry { name: String::from_str("console"), inode: 0, inode_type: InodeType::CharDevice });
        v.push(DirEntry { name: String::from_str("null"), inode: 0, inode_type: InodeType::CharDevice });
        v.push(DirEntry { name: String::from_str("random"), inode: 0, inode_type: InodeType::CharDevice });
        v.push(DirEntry { name: String::from_str("tty"), inode: 0, inode_type: InodeType::CharDevice });
        v.push(DirEntry { name: String::from_str("urandom"), inode: 0, inode_type: InodeType::CharDevice });
        v.push(DirEntry { name: String::from_str("zero"), inode: 0, inode_type: InodeType::CharDevice });
        proof {
            assert forall|i: int| 0 <= i < 6 implies (#[trigger] v@[i + 2]).name@ == dev_table()[i].0
                && v@[i + 2].inode == 0 && v@[i + 2].inode_type == InodeType::CharDevice by {
                if i == 0 {} else if i == 1 {} else if i == 2 {} else if i == 3 {} else if i == 4 {} else {}
            }
        }
        Ok(v)
    }

    /// Read from a device into `buf`: null and the console give end of file, zero
    /// fills with zeros, random with generator bytes; the directory cannot be read.
    pub fn read<E: EntropySource>(&self, n: usize, offset: u64, buf: &mut Vec<u8>, rng: &mut ChaCha20Rng, src: &mut E)
        -> (r: Result<usize, Errno>)
        requires
            old(rng).wf(),
        ensures
            final(rng).wf(),
            final(buf)@.len() == old(buf)@.len(),
            n == DEV_ROOT ==> r == Err::<usize, Errno>(Errno::ENOSYS),
            (n == DEV_NULL || n == DEV_CONSOLE || n > DEV_CONSOLE) ==> r == Ok::<usize, Errno>(0) && final(buf)@ == old(buf)@,
            n == DEV_ZERO ==> r == Ok::<usize, Errno>(old(buf)@.len() as usize)
                && final(buf)@ == Seq::new(old(buf)@.len(), |i: int| 0u8),
            n == DEV_RANDOM ==> r == Ok::<usize, Errno>(old(buf)@.len() as usize)
                && (old(rng).bytes_since_reseed + old(buf)@.len() < RESEED_INTERVAL
                    ==> final(buf)@ == old(rng).next_bytes(old(buf)@.len())),
            n != DEV_RANDOM ==> *final(rng) == *old(rng),
    {
        if n == DEV_ROOT {
            Err(Errno::ENOSYS)
        } else if n == DEV_ZERO {
            let mut i: usize = 0;
            while i < buf.len()
                invariant
                    i <= buf@.len(),
                    buf@.len() == old(buf)@.len(),
                    forall|j: int| 0 <= j < i ==> #[trigger] buf@[j] == 0u8,
                decreases buf@.len() - i,
            {
                buf.set(i, 0);
                i = i + 1;
            }
            assert(buf@ =~= Seq::new(old(buf)@.len(), |i: int| 0u8));
            Ok(buf.len())
        } else if n == DEV_RANDOM {
            fill_bytes(rng, buf, src);
            Ok(buf.len())
        } else {
            Ok(0)
        }
    }

    /// Write to a device: every device takes all the bytes (the console sends them to
    /// the serial port); the directory cannot be written.
    pub fn write(&self, n: usize, data: &[u8]) -> (r: Result<usize, Errno>)
        ensures
            n == DEV_ROOT ==> r == Err::<usize, Errno>(Errno::ENOSYS),
            n != DEV_ROOT ==> r == Ok::<usize, Errno>(data@.len() as usize),
    {
        if n == DEV_ROOT {
            Err(Errno::ENOSYS)
        } else {
            Ok(data.len())
        }
    }
}

impl FileSystem for DevFs {
    fn name(&self) -> (s: &'static str)
        ensures
            s@ == "devfs"@,
    {
        "devfs"
    }

    fn root(&self) -> (r: usize)
        ensures
            r == DEV_ROOT,
    {
        DEV_ROOT
    }
}

} // verus!
