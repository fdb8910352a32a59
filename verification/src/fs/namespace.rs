//! The mounted file systems: resolving paths to nodes across mounts and sending each
//! operation to the file system that holds the node.
use vstd::prelude::*;
use crate::entropy::chacha20::{ChaCha20Rng, EntropySource};
use crate::errno::Errno;
use crate::fs::devfs::{DevFs, dev_lookup, DEV_ROOT, DEV_CONSOLE};
use crate::fs::procfs::{ProcFs, proc_lookup, PROC_ROOT, PROC_MOUNTS};
use crate::fs::tmpfs::{TmpFs, entry_lookup, read_at, write_at};
use crate::fs::vfs::{DirEntry, FileSystem, InodeType, Stat, Vfs, views_of, walk_components};
use crate::memory::pmm::Pmm;

verus! {

/// A mounted file system.
pub enum Mounted {
    Tmp(TmpFs),
    Dev(DevFs),
    Proc(ProcFs),
}

/// A node: the mount that holds it and its handle in that file system.
#[derive(Debug, Clone, Copy, PartialEq, Eq, Structural)]
pub struct NodeRef {
    pub mount: usize,
    pub node: usize,
}

/// The mount table and, for each mount, its file system.
pub struct Namespace {
    pub vfs: Vfs,
    pub fss: Vec<Mounted>,
}

/// The name of a mounted file system's kind.
pub open spec fn fs_name_spec(m: Mounted) -> Seq<char> {
    match m {
        Mounted::Tmp(_) => "tmpfs"@,
        Mounted::Dev(_) => "devfs"@,
        Mounted::Proc(_) => "procfs"@,
    }
}

impl Mounted {
    /// The file system's name.
    pub fn fs_name(&self) -> (s: &'static str)
        ensures
            s@ == fs_name_spec(*self),
    {
        match self {
            Mounted::Tmp(t) => t.name(),
            Mounted::Dev(d) => d.name(),
            Mounted::Proc(p) => p.name(),
        }
    }
}

impl Namespace {
    pub open spec fn wf(&self) -> bool {
        &&& self.fss@.len() == self.vfs.mounts@.len()
        &&& forall|i: int| 0 <= i < self.fss@.len() ==> (#[trigger] self.fss@[i] matches Mounted::Tmp(t) ==> t.wf()
            && t.nodes@.len() < usize::MAX)
    }

    /// Every in-memory file system has room for another node, and every file's size
    /// leaves room for rounding up to whole blocks.
    pub open spec fn room(&self) -> bool {
        forall|i: int| 0 <= i < self.fss@.len() ==> (#[trigger] self.fss@[i] matches Mounted::Tmp(t) ==> {
            &&& t.nodes@.len() + 1 < usize::MAX
            &&& forall|k: int| 0 <= k < t.nodes@.len() ==> (#[trigger] t.nodes@[k]).data@.len() + 511 <= u64::MAX
        })
    }

    /// `n` names a node of its mount.
    pub open spec fn valid(&self, n: NodeRef) -> bool {
        &&& n.mount < self.fss@.len()
        &&& match self.fss@[n.mount as int] {
            Mounted::Tmp(t) => n.node < t.nodes@.len(),
            Mounted::Dev(_) => n.node <= DEV_CONSOLE,
            Mounted::Proc(_) => n.node <= PROC_MOUNTS,
        }
    }

    /// Whether `n` is a directory.
    pub open spec fn is_dir(&self, n: NodeRef) -> bool {
        match self.fss@[n.mount as int] {
            Mounted::Tmp(t) => t.nodes@[n.node as int].is_dir,
            Mounted::Dev(_) => n.node == DEV_ROOT,
            Mounted::Proc(_) => n.node == PROC_ROOT,
        }
    }

    /// What looking up `name` in `at` gives.
    pub open spec fn lookup_spec(&self, at: NodeRef, name: Seq<char>) -> Result<NodeRef, Errno> {
        match self.fss@[at.mount as int] {
            Mounted::Tmp(t) => if !t.nodes@[at.node as int].is_dir {
                Err(Errno::ENOTDIR)
            } else {
                match entry_lookup(t.nodes@[at.node as int].entries@, name) {
                    Some(n) => Ok(NodeRef { mount: at.mount, node: n }),
                    None => Err(Errno::ENOENT),
                }
            },
            Mounted::Dev(_) => if at.node != DEV_ROOT {
                Err(Errno::ENOTDIR)
            } else {
                match dev_lookup(name) {
                    Some(n) => Ok(NodeRef { mount: at.mount, node: n }),
                    None => Err(Errno::ENOENT),
                }
            },
            Mounted::Proc(_) => if at.node != PROC_ROOT {
                Err(Errno::ENOTDIR)
            } else {
                match proc_lookup(name) {
                    Ok(n) => Ok(NodeRef { mount: at.mount, node: n }),
                    Err(e) => Err(e),
                }
            },
        }
    }

    /// Looking up each of `comps` in turn from `at`, stopping at the first error.
    pub open spec fn walk_spec(&self, at: NodeRef, comps: Seq<Seq<char>>) -> Result<NodeRef, Errno>
        decreases comps.len(),
    {
        if comps.len() == 0 {
            Ok(at)
        } else {
            match self.walk_spec(at, comps.drop_last()) {
                Ok(n) => self.lookup_spec(n, comps.last()),
                Err(e) => Err(e),
            }
        }
    }

    /// The node a path names: the root of the mount that serves it, then the lookups
    /// of its components.
    pub open spec fn resolve_spec(&self, path: Seq<char>) -> Result<NodeRef, Errno> {
        if exists|i: int| crate::fs::vfs::best_mount(self.vfs.mount_paths(), path, i) {
            let i = choose|i: int| crate::fs::vfs::best_mount(self.vfs.mount_paths(), path, i);
            self.walk_spec(NodeRef { mount: i as usize, node: 0 },
                walk_components(path.subrange(self.vfs.mount_paths()[i].len() as int, path.len() as int)))
        } else {
            Err(Errno::ENOENT)
        }
    }

    /// No mounts.
    pub fn new() -> (ns: Self)
        ensures
            ns.wf(),
            ns.fss@.len() == 0,
            ns.vfs.mounts@.len() == 0,
    {
        Namespace { vfs: Vfs::init(), fss: Vec::new() }
    }

    /// Mount `fs` at `path`.
    pub fn mount(&mut self, path: &str, fs: Mounted)
        requires
            old(self).wf(),
            fs matches Mounted::Tmp(t) ==> t.wf() && t.nodes@.len() < usize::MAX,
        ensures
            final(self).wf(),
            final(self).fss@ == old(self).fss@.push(fs),
            final(self).vfs.mount_paths() == old(self).vfs.mount_paths().push(path@),
    {
        let name = fs.fs_name();
        self.vfs.mount(path, name);
        self.fss.push(fs);
        proof {
            assert forall|i: int| 0 <= i < self.fss@.len() implies (#[trigger] self.fss@[i] matches Mounted::Tmp(t) ==> t.wf()
                && t.nodes@.len() < usize::MAX) by {
                if i < old(self).fss@.len() {
                    assert(self.fss@[i] == old(self).fss@[i]);
                }
            }
        }
    }

    /// Whether a new node fits in mount `m` (always for file systems that create none).
    pub fn has_room(&self, m: usize) -> (b: bool)
        requires
            self.wf(),
            m < self.fss@.len(),
        ensures
            b == (self.fss@[m as int] matches Mounted::Tmp(t) ==> t.nodes@.len() + 1 < usize::MAX),
    {
        match &self.fss[m] {
            Mounted::Tmp(t) => t.nodes.len() < usize::MAX - 1,
            _ => true,
        }
    }

    /// Look up `name` in the directory `at`.
    pub fn lookup(&self, at: NodeRef, name: &str) -> (r: Result<NodeRef, Errno>)
        requires
            self.wf(),
            self.valid(at),
        ensures
            r == self.lookup_spec(at, name@),
            r matches Ok(n) ==> self.valid(n),
    {
        match &self.fss[at.mount] {
            Mounted::Tmp(t) => {
                assert(t.wf());
                match t.lookup(at.node, name) {
                    Ok(n) => Ok(NodeRef { mount: at.mount, node: n }),
                    Err(e) => Err(e),
                }
            },
            Mounted::Dev(d) => match d.lookup(at.node, name) {
                Ok(n) => Ok(NodeRef { mount: at.mount, node: n }),
                Err(e) => Err(e),
            },
            Mounted::Proc(p) => match p.lookup(at.node, name) {
                Ok(n) => Ok(NodeRef { mount: at.mount, node: n }),
                Err(e) => Err(e),
            },
        }
    }

    /// Resolve `path` to a node.
    pub fn resolve(&self, path: &str) -> (r: Result<NodeRef, Errno>)
        requires
            self.wf(),
        ensures
            r == self.resolve_spec(path@),
            r matches Ok(n) ==> self.valid(n),
    {
        match self.vfs.resolve(path) {
            Err(e) => {
                proof {
                    if exists|i: int| crate::fs::vfs::best_mount(self.vfs.mount_paths(), path@, i) {
                        let i = choose|i: int| crate::fs::vfs::best_mount(self.vfs.mount_paths(), path@, i);
                        assert(crate::fs::vfs::mount_covers(self.vfs.mount_paths()[i], path@));
                    }
                }
                Err(e)
            },
            Ok((m, comps)) => {
                proof {
                    let i = choose|i: int| crate::fs::vfs::best_mount(self.vfs.mount_paths(), path@, i);
                    crate::fs::vfs::lemma_best_mount_unique(self.vfs.mount_paths(), path@, i, m as int);
                }
                let ghost cs = views_of(comps@);
                let mut cur = NodeRef { mount: m, node: 0 };
                assert(self.resolve_spec(path@) == self.walk_spec(cur, cs));
                assert(self.valid(cur));
                let mut k: usize = 0;
                assert(cs.take(0) =~= Seq::<Seq<char>>::empty());
                while k < comps.len()
                    invariant
                        self.wf(),
                        k <= comps@.len(),
                        cs == views_of(comps@),
                        cs.len() == comps@.len(),
                        self.valid(cur),
                        self.walk_spec(NodeRef { mount: m, node: 0 }, cs.take(k as int)) == Ok::<NodeRef, Errno>(cur),
                        self.resolve_spec(path@) == self.walk_spec(NodeRef { mount: m, node: 0 }, cs),
                    decreases comps@.len() - k,
                {
                    let next = self.lookup(cur, comps[k].as_str());
                    proof {
                        assert(cs.take(k + 1).drop_last() =~= cs.take(k as int));
                        assert(cs[k as int] == comps@[k as int]@);
                    }
                    match next {
                        Ok(n) => {
                            cur = n;
                        },
                        Err(e) => {
                            proof {
                                assert(cs.take(k + 1).last() == cs[k as int]);
                                assert(self.walk_spec(NodeRef { mount: m, node: 0 }, cs.take(k + 1))
                                    == self.lookup_spec(cur, cs[k as int]));
                                lemma_walk_stops(self, NodeRef { mount: m, node: 0 }, cs, k as int + 1);
                                assert(cs.take(cs.len() as int) =~= cs);
                            }
                            return Err(e);
                        },
                    }
                    k = k + 1;
                }
                assert(cs.take(cs.len() as int) =~= cs);
                Ok(cur)
            },
        }
    }

    /// Type of node `n`.
    pub fn inode_type(&self, n: NodeRef) -> (t: InodeType)
        requires
            self.wf(),
            self.valid(n),
        ensures
            self.is_dir(n) ==> t == InodeType::Directory,
            !self.is_dir(n) ==> t != InodeType::Directory,
    {
        match &self.fss[n.mount] {
            Mounted::Tmp(t) => t.inode_type(n.node),
            Mounted::Dev(d) => d.inode_type(n.node),
            Mounted::Proc(p) => p.inode_type(n.node),
        }
    }

    /// Stat of node `n`.
    pub fn stat(&self, n: NodeRef) -> (r: Result<Stat, Errno>)
        requires
            self.wf(),
            self.valid(n),
            self.fss@[n.mount as int] matches Mounted::Tmp(t) ==> t.nodes@[n.node as int].data@.len() + 511 <= u64::MAX,
        ensures
            r is Ok,
            self.fss@[n.mount as int] matches Mounted::Tmp(t) ==> r == Ok::<Stat, Errno>(t.stat_spec(n.node)),
            self.fss@[n.mount as int] matches Mounted::Dev(_) ==> r == Ok::<Stat, Errno>(crate::fs::devfs::devfs_stat(n.node)),
    {
        match &self.fss[n.mount] {
            Mounted::Tmp(t) => t.stat(n.node),
            Mounted::Dev(d) => d.stat(n.node),
            Mounted::Proc(p) => p.stat(n.node),
        }
    }

    /// Directory listing of `n`.
    pub fn readdir(&self, n: NodeRef) -> (r: Result<Vec<DirEntry>, Errno>)
        requires
            self.wf(),
            self.valid(n),
        ensures
            self.is_dir(n) <==> r is Ok,
            r is Err ==> r == Err::<Vec<DirEntry>, Errno>(Errno::ENOTDIR),
            r matches Ok(v) ==> v@.len() >= 2,
            self.fss@[n.mount as int] matches Mounted::Tmp(t) ==> (r matches Ok(v) ==> {
                let e = t.nodes@[n.node as int].entries@;
                &&& v@.len() == e.len() + 2
                &&& forall|i: int| 0 <= i < e.len() ==> (#[trigger] v@[i + 2]).name@ == e[i].name@
            }),
    {
        match &self.fss[n.mount] {
            Mounted::Tmp(t) => t.readdir(n.node),
            Mounted::Dev(d) => d.readdir(n.node),
            Mounted::Proc(p) => p.readdir(n.node),
        }
    }

    /// Read node `n` at `offset` into `buf`.
    pub fn read<E: EntropySource>(&self, n: NodeRef, offset: u64, buf: &mut Vec<u8>, rng: &mut ChaCha20Rng, src: &mut E,
        ticks: u64, pmm: &Pmm) -> (r: Result<usize, Errno>)
        requires
            self.wf(),
            self.valid(n),
            old(rng).wf(),
            pmm.total_frames * 4 <= u64::MAX,
            pmm.free_frames <= pmm.total_frames,
        ensures
            final(rng).wf(),
            final(buf)@.len() == old(buf)@.len(),
            r matches Ok(k) ==> k <= old(buf)@.len(),
            self.fss@[n.mount as int] matches Mounted::Tmp(t) ==> {
                &&& t.nodes@[n.node as int].is_dir ==> r == Err::<usize, Errno>(Errno::ENOSYS)
                &&& !t.nodes@[n.node as int].is_dir ==> (r matches Ok(k) && {
                    let got = read_at(t.nodes@[n.node as int].data@, offset as int, old(buf)@.len() as int);
                    &&& k == got.len()
                    &&& final(buf)@ == got + old(buf)@.subrange(k as int, old(buf)@.len() as int)
                })
            },
    {
        match &self.fss[n.mount] {
            Mounted::Tmp(t) => t.read(n.node, offset, buf),
            Mounted::Dev(d) => d.read(n.node, offset, buf, rng, src),
            Mounted::Proc(p) => {
                let r = p.read(n.node, offset, buf, ticks, pmm, &self.vfs);
                proof {
                    if r is Ok {
                        let k = r->Ok_0;
                        assert(final(buf)@.len() == old(buf)@.len());
                    }
                }
                r
            },
        }
    }

    /// Write `data` at `offset` to node `n`.
    pub fn write(&mut self, n: NodeRef, offset: u64, data: &[u8]) -> (r: Result<usize, Errno>)
        requires
            old(self).wf(),
            old(self).valid(n),
            offset + data@.len() <= usize::MAX,
        ensures
            final(self).wf(),
            final(self).vfs == old(self).vfs,
            final(self).fss@.len() == old(self).fss@.len(),
            forall|m: int| 0 <= m < old(self).fss@.len() && m != n.mount ==> #[trigger] final(self).fss@[m] == old(self).fss@[m],
            forall|x: NodeRef| old(self).valid(x) ==> #[trigger] final(self).valid(x),
            old(self).fss@[n.mount as int] matches Mounted::Tmp(t) ==> (final(self).fss@[n.mount as int] matches Mounted::Tmp(t2) && {
                &&& t.nodes@[n.node as int].is_dir ==> r == Err::<usize, Errno>(Errno::ENOSYS) && t2.nodes@ == t.nodes@
                &&& !t.nodes@[n.node as int].is_dir ==> r == Ok::<usize, Errno>(data@.len() as usize)
                    && t2.nodes@[n.node as int].data@ == write_at(t.nodes@[n.node as int].data@, offset as int, data@)
                &&& t2.nodes@.len() == t.nodes@.len()
                &&& forall|k: int| 0 <= k < t.nodes@.len() && k != n.node ==> #[trigger] t2.nodes@[k] == t.nodes@[k]
            }),
            old(self).fss@[n.mount as int] matches Mounted::Dev(_) ==> (n.node == DEV_ROOT <==> r is Err),
            old(self).fss@[n.mount as int] matches Mounted::Proc(_) ==> r == Err::<usize, Errno>(Errno::ENOSYS),
    {
        let ghost before = self.fss@;
        let fs = self.fss.remove(n.mount);
        let (fs2, r) = match fs {
            Mounted::Tmp(mut t) => {
                let r = t.write(n.node, offset, data);
                (Mounted::Tmp(t), r)
            },
            Mounted::Dev(d) => {
                let r = d.write(n.node, data);
                (Mounted::Dev(d), r)
            },
            Mounted::Proc(p) => (Mounted::Proc(p), Err(Errno::ENOSYS)),
        };
        self.fss.insert(n.mount, fs2);
        proof {
            assert(self.fss@ =~= before.update(n.mount as int, self.fss@[n.mount as int]));
            assert forall|i: int| 0 <= i < self.fss@.len() implies (#[trigger] self.fss@[i] matches Mounted::Tmp(t) ==> t.wf()
                && t.nodes@.len() < usize::MAX) by {
                if i != n.mount {
                    assert(self.fss@[i] == before[i]);
                }
            }
        }
        r
    }

    /// Create `name` of type `inode_type` in directory `dir`.
    pub fn create(&mut self, dir: NodeRef, name: &str, inode_type: InodeType, mode: u32) -> (r: Result<NodeRef, Errno>)
        requires
            old(self).wf(),
            old(self).valid(dir),
            old(self).fss@[dir.mount as int] matches Mounted::Tmp(t) ==> t.nodes@.len() + 1 < usize::MAX,
        ensures
            final(self).wf(),
            final(self).vfs == old(self).vfs,
            final(self).fss@.len() == old(self).fss@.len(),
            forall|m: int| 0 <= m < old(self).fss@.len() && m != dir.mount ==> #[trigger] final(self).fss@[m] == old(self).fss@[m],
            forall|x: NodeRef| old(self).valid(x) ==> #[trigger] final(self).valid(x),
            r matches Ok(n) ==> n.mount == dir.mount && final(self).valid(n),
            !(old(self).fss@[dir.mount as int] is Tmp) ==> r == Err::<NodeRef, Errno>(Errno::ENOSYS)
                && final(self).fss@ == old(self).fss@,
            old(self).fss@[dir.mount as int] matches Mounted::Tmp(t) ==> (final(self).fss@[dir.mount as int] matches Mounted::Tmp(t2) && {
                &&& !t.nodes@[dir.node as int].is_dir ==> r == Err::<NodeRef, Errno>(Errno::ENOSYS)
                &&& t.nodes@[dir.node as int].is_dir && t.contents(dir.node).contains_key(name@)
                    ==> r == Err::<NodeRef, Errno>(Errno::EEXIST)
                &&& t.nodes@[dir.node as int].is_dir && !t.contents(dir.node).contains_key(name@)
                    && (inode_type == InodeType::File || inode_type == InodeType::Directory) ==> r is Ok
                &&& r matches Ok(n) ==> t2.contents(dir.node) == t.contents(dir.node).insert(name@, n.node)
                    && t2.nodes@[n.node as int].is_dir == (inode_type == InodeType::Directory)
                    && t2.nodes@[n.node as int].data@.len() == 0
            }),
    {
        let ghost before = self.fss@;
        let fs = self.fss.remove(dir.mount);
        let (fs2, r) = match fs {
            Mounted::Tmp(mut t) => {
                let r = t.create(dir.node, name, inode_type, mode);
                (Mounted::Tmp(t), r)
            },
            Mounted::Dev(d) => (Mounted::Dev(d), Err(Errno::ENOSYS)),
            Mounted::Proc(p) => (Mounted::Proc(p), Err(Errno::ENOSYS)),
        };
        self.fss.insert(dir.mount, fs2);
        proof {
            assert(self.fss@ =~= before.update(dir.mount as int, self.fss@[dir.mount as int]));
            assert forall|i: int| 0 <= i < self.fss@.len() implies (#[trigger] self.fss@[i] matches Mounted::Tmp(t) ==> t.wf()
                && t.nodes@.len() < usize::MAX) by {
                if i != dir.mount {
                    assert(self.fss@[i] == before[i]);
                }
            }
        }
        match r {
            Ok(node) => Ok(NodeRef { mount: dir.mount, node }),
            Err(e) => Err(e),
        }
    }

    /// Remove `name` from directory `dir`.
    pub fn unlink(&mut self, dir: NodeRef, name: &str) -> (r: Result<(), Errno>)
        requires
            old(self).wf(),
            old(self).valid(dir),
        ensures
            final(self).wf(),
            final(self).vfs == old(self).vfs,
            final(self).fss@.len() == old(self).fss@.len(),
            forall|m: int| 0 <= m < old(self).fss@.len() && m != dir.mount ==> #[trigger] final(self).fss@[m] == old(self).fss@[m],
            forall|x: NodeRef| old(self).valid(x) ==> #[trigger] final(self).valid(x),
            !(old(self).fss@[dir.mount as int] is Tmp) ==> r == Err::<(), Errno>(Errno::ENOSYS)
                && final(self).fss@ == old(self).fss@,
            old(self).fss@[dir.mount as int] matches Mounted::Tmp(t) ==> (final(self).fss@[dir.mount as int] matches Mounted::Tmp(t2) && {
                &&& !t.nodes@[dir.node as int].is_dir ==> r == Err::<(), Errno>(Errno::ENOSYS)
                &&& t.nodes@[dir.node as int].is_dir ==> (r is Ok <==> t.contents(dir.node).contains_key(name@))
                &&& t.nodes@[dir.node as int].is_dir && r is Err ==> r == Err::<(), Errno>(Errno::ENOENT)
                &&& r is Ok ==> t2.contents(dir.node) == t.contents(dir.node).remove(name@)
            }),
    {
        let ghost before = self.fss@;
        assert(before[dir.mount as int] matches Mounted::Tmp(t) ==> t.wf() && t.nodes@.len() < usize::MAX);
        let fs = self.fss.remove(dir.mount);
        let (fs2, r) = match fs {
            Mounted::Tmp(mut t) => {
                let ghost len0 = t.nodes@.len();
                let r = t.unlink(dir.node, name);
                assert(t.nodes@.len() == len0);
                (Mounted::Tmp(t), r)
            },
            Mounted::Dev(d) => (Mounted::Dev(d), Err(Errno::ENOSYS)),
            Mounted::Proc(p) => (Mounted::Proc(p), Err(Errno::ENOSYS)),
        };
        self.fss.insert(dir.mount, fs2);
        proof {
            assert(self.fss@ =~= before.update(dir.mount as int, self.fss@[dir.mount as int]));
            assert forall|i: int| 0 <= i < self.fss@.len() implies (#[trigger] self.fss@[i] matches Mounted::Tmp(t) ==> t.wf()
                && t.nodes@.len() < usize::MAX) by {
                if i != dir.mount {
                    assert(self.fss@[i] == before[i]);
                }
            }
        }
        r
    }
}

/// A walk that fails at step `k` fails for every longer list of components.
proof fn lemma_walk_stops(ns: &Namespace, at: NodeRef, cs: Seq<Seq<char>>, k: int)
    requires
        0 < k <= cs.len(),
        ns.walk_spec(at, cs.take(k)) is Err,
    ensures
        ns.walk_spec(at, cs) == ns.walk_spec(at, cs.take(k)),
    decreases cs.len() - k,
{
    if k < cs.len() {
        assert(cs.take(k + 1).drop_last() =~= cs.take(k));
        lemma_walk_stops(ns, at, cs, k + 1);
    } else {
        assert(cs.take(k) =~= cs);
    }
}

} // verus!
