//! In-memory file system: directories of named entries and files of bytes.
use vstd::prelude::*;
use vstd::string::StringExecFns;
use crate::errno::Errno;
use crate::fs::names::{name_lt, compare_names, lemma_name_lt_asym, lemma_name_lt_trans, lemma_name_lt_total};
use crate::fs::vfs::{DirEntry, FileSystem, InodeType, Stat};

verus! {

/// A named entry of a directory, pointing at a node.
pub struct TmpEntry {
    pub name: String,
    pub node: usize,
}

/// A directory (its entries, in name order) or a file (its bytes and mode).
pub struct TmpNode {
    pub ino: u64,
    pub is_dir: bool,
    pub entries: Vec<TmpEntry>,
    pub data: Vec<u8>,
    pub mode: u32,
}

/// The nodes of the file system, node 0 being the root directory, and the next inode
/// number to give out.
pub struct TmpFs {
    pub nodes: Vec<TmpNode>,
    pub next_ino: u64,
}

/// Entries in strictly increasing name order.
pub open spec fn sorted_entries(e: Seq<TmpEntry>) -> bool {
    forall|i: int, j: int| 0 <= i < j < e.len() ==> name_lt(e[i].name@, e[j].name@)
}

/// The node a directory's entries give for `name`.
pub open spec fn entry_lookup(e: Seq<TmpEntry>, name: Seq<char>) -> Option<usize> {
    if exists|i: int| 0 <= i < e.len() && (#[trigger] e[i]).name@ == name {
        Some(e[choose|i: int| 0 <= i < e.len() && (#[trigger] e[i]).name@ == name].node)
    } else {
        None
    }
}

/// The file's bytes after writing `x` at `off`: extended with zeros as far as the
/// write reaches, then overwritten.
pub open spec fn write_at(d: Seq<u8>, off: int, x: Seq<u8>) -> Seq<u8> {
    let end = off + x.len();
    let padded = if end > d.len() { d + Seq::new((end - d.len()) as nat, |i: int| 0u8) } else { d };
    padded.subrange(0, off) + x + padded.subrange(end, padded.len() as int)
}

/// What a read of up to `n` bytes at `off` gives.
pub open spec fn read_at(d: Seq<u8>, off: int, n: int) -> Seq<u8> {
    let start = if off < d.len() { off } else { d.len() as int };
    let end = if start + n < d.len() { start + n } else { d.len() as int };
    d.subrange(start, end)
}

/// The file's bytes after truncating or extending it to `size`.
pub open spec fn resized(d: Seq<u8>, size: int) -> Seq<u8> {
    if size <= d.len() {
        d.subrange(0, size)
    } else {
        d + Seq::new((size - d.len()) as nat, |i: int| 0u8)
    }
}

/// Names of sorted entries are distinct.
proof fn lemma_sorted_unique(e: Seq<TmpEntry>, i: int, j: int)
    requires
        sorted_entries(e),
        0 <= i < e.len(),
        0 <= j < e.len(),
        i != j,
    ensures
        e[i].name@ != e[j].name@,
{
    if i < j {
        lemma_name_lt_asym(e[i].name@, e[j].name@);
    } else {
        lemma_name_lt_asym(e[j].name@, e[i].name@);
    }
}

/// In sorted entries, the entry at `i` is the one `entry_lookup` finds for its name.
proof fn lemma_lookup_at(e: Seq<TmpEntry>, idx: int)
    requires
        sorted_entries(e),
        0 <= idx < e.len(),
    ensures
        entry_lookup(e, e[idx].name@) == Some(e[idx].node),
{
    assert(0 <= idx < e.len() && e[idx].name@ == e[idx].name@);
    let c = choose|i: int| 0 <= i < e.len() && (#[trigger] e[i]).name@ == e[idx].name@;
    if c != idx {
        lemma_sorted_unique(e, c, idx);
    }
}

/// Inserting an entry for a new name at its sorted place keeps the order, adds the
/// name, and leaves the other names as they were.
proof fn lemma_insert_entry(e: Seq<TmpEntry>, pos: int, x: TmpEntry)
    requires
        sorted_entries(e),
        0 <= pos <= e.len(),
        forall|k: int| 0 <= k < pos ==> name_lt((#[trigger] e[k]).name@, x.name@),
        forall|k: int| pos <= k < e.len() ==> name_lt(x.name@, (#[trigger] e[k]).name@),
    ensures
        sorted_entries(e.insert(pos, x)),
        entry_lookup(e.insert(pos, x), x.name@) == Some(x.node),
        forall|n: Seq<char>| n != x.name@ ==> #[trigger] entry_lookup(e.insert(pos, x), n) == entry_lookup(e, n),
{
    let f = e.insert(pos, x);
    assert forall|i: int, j: int| 0 <= i < j < f.len() implies name_lt(f[i].name@, f[j].name@) by {
        if j < pos {
        } else if j == pos {
        } else if i < pos {
            lemma_name_lt_trans(f[i].name@, x.name@, f[j].name@);
        } else if i == pos {
        } else {
        }
    }
    lemma_lookup_at(f, pos);
    assert forall|n: Seq<char>| n != x.name@ implies #[trigger] entry_lookup(f, n) == entry_lookup(e, n) by {
        if exists|i: int| 0 <= i < e.len() && (#[trigger] e[i]).name@ == n {
            let i = choose|i: int| 0 <= i < e.len() && (#[trigger] e[i]).name@ == n;
            lemma_lookup_at(e, i);
            let fi = if i < pos { i } else { i + 1 };
            assert(f[fi] == e[i]);
            lemma_lookup_at(f, fi);
        } else {
            if exists|i: int| 0 <= i < f.len() && (#[trigger] f[i]).name@ == n {
                let i = choose|i: int| 0 <= i < f.len() && (#[trigger] f[i]).name@ == n;
                let ei = if i < pos { i } else { i - 1 };
                assert(f[i] == e[ei]);
            }
        }
    }
}

/// Removing the entry at `pos` keeps the order, drops its name, and leaves the other
/// names as they were.
proof fn lemma_remove_entry(e: Seq<TmpEntry>, pos: int)
    requires
        sorted_entries(e),
        0 <= pos < e.len(),
    ensures
        sorted_entries(e.remove(pos)),
        entry_lookup(e.remove(pos), e[pos].name@) is None,
        forall|n: Seq<char>| n != e[pos].name@ ==> #[trigger] entry_lookup(e.remove(pos), n) == entry_lookup(e, n),
{
    let f = e.remove(pos);
    assert forall|i: int, j: int| 0 <= i < j < f.len() implies name_lt(f[i].name@, f[j].name@) by {
        let ei = if i < pos { i } else { i + 1 };
        let ej = if j < pos { j } else { j + 1 };
        assert(f[i] == e[ei]);
        assert(f[j] == e[ej]);
    }
    if exists|i: int| 0 <= i < f.len() && (#[trigger] f[i]).name@ == e[pos].name@ {
        let i = choose|i: int| 0 <= i < f.len() && (#[trigger] f[i]).name@ == e[pos].name@;
        let ei = if i < pos { i } else { i + 1 };
        assert(f[i] == e[ei]);
        lemma_sorted_unique(e, ei, pos);
    }
    assert forall|n: Seq<char>| n != e[pos].name@ implies #[trigger] entry_lookup(f, n) == entry_lookup(e, n) by {
        if exists|i: int| 0 <= i < e.len() && (#[trigger] e[i]).name@ == n {
            let i = choose|i: int| 0 <= i < e.len() && (#[trigger] e[i]).name@ == n;
            lemma_lookup_at(e, i);
            assert(i != pos);
            let fi = if i < pos { i } else { i - 1 };
            assert(f[fi] == e[i]);
            lemma_lookup_at(f, fi);
        } else {
            if exists|i: int| 0 <= i < f.len() && (#[trigger] f[i]).name@ == n {
                let i = choose|i: int| 0 <= i < f.len() && (#[trigger] f[i]).name@ == n;
                let ei = if i < pos { i } else { i + 1 };
                assert(f[i] == e[ei]);
            }
        }
    }
}

/// Where `name` is or would go among sorted entries: whether it is there, and the
/// position of the first entry not before it.
fn find_entry(e: &Vec<TmpEntry>, name: &str) -> (r: (bool, usize))
    requires
        sorted_entries(e@),
    ensures
        r.1 <= e@.len(),
        forall|k: int| 0 <= k < r.1 ==> name_lt((#[trigger] e@[k]).name@, name@),
        r.0 ==> r.1 < e@.len() && e@[r.1 as int].name@ == name@,
        !r.0 ==> forall|k: int| r.1 <= k < e@.len() ==> name_lt(name@, (#[trigger] e@[k]).name@),
        r.0 == (entry_lookup(e@, name@) is Some),
        r.0 ==> entry_lookup(e@, name@) == Some(e@[r.1 as int].node),
{
    let mut i: usize = 0;
    while i < e.len()
        invariant_except_break
            i <= e@.len(),
            sorted_entries(e@),
            forall|k: int| 0 <= k < i ==> name_lt((#[trigger] e@[k]).name@, name@),
        ensures
            i <= e@.len(),
            forall|k: int| 0 <= k < i ==> name_lt((#[trigger] e@[k]).name@, name@),
            i < e@.len() ==> !name_lt(e@[i as int].name@, name@),
        decreases e@.len() - i,
    {
        let c = compare_names(e[i].name.as_str(), name);
        if c >= 0 {
            break;
        }
        i = i + 1;
    }
    let found = i < e.len() && compare_names(e[i].name.as_str(), name) == 0;
    proof {
        if found {
            lemma_lookup_at(e@, i as int);
        } else {
            if i < e@.len() {
                lemma_name_lt_total(e@[i as int].name@, name@);
            }
            assert forall|k: int| i <= k < e@.len() implies name_lt(name@, (#[trigger] e@[k]).name@) by {
                if k > i {
                    lemma_name_lt_trans(name@, e@[i as int].name@, e@[k].name@);
                }
            }
            if exists|k: int| 0 <= k < e@.len() && (#[trigger] e@[k]).name@ == name@ {
                let k = choose|k: int| 0 <= k < e@.len() && (#[trigger] e@[k]).name@ == name@;
                if k < i {
                    lemma_name_lt_asym(e@[k].name@, name@);
                } else {
                    lemma_name_lt_asym(name@, e@[k].name@);
                }
            }
        }
    }
    (found, i)
}

impl TmpFs {
    pub open spec fn wf(&self) -> bool {
        &&& self.nodes@.len() >= 1
        &&& self.nodes@[0].is_dir
        &&& forall|n: int| 0 <= n < self.nodes@.len() ==> sorted_entries(#[trigger] self.nodes@[n].entries@)
        &&& forall|n: int, i: int| 0 <= n < self.nodes@.len() && 0 <= i < self.nodes@[n].entries@.len()
            ==> (#[trigger] self.nodes@[n].entries@[i]).node < self.nodes@.len()
    }

    /// Every node's inode number was handed out before `next_ino`, and no two nodes
    /// share one.
    pub open spec fn inos_unique(&self) -> bool {
        &&& forall|n: int| 0 <= n < self.nodes@.len() ==> (#[trigger] self.nodes@[n]).ino < self.next_ino
        &&& forall|n: int, m: int| 0 <= n < m < self.nodes@.len() ==> #[trigger] self.nodes@[n].ino != #[trigger] self.nodes@[m].ino
    }

    /// The names in directory `d` and the nodes they lead to.
    pub open spec fn contents(&self, d: usize) -> Map<Seq<char>, usize> {
        Map::new(
            |x: Seq<char>| entry_lookup(self.nodes@[d as int].entries@, x) is Some,
            |x: Seq<char>| entry_lookup(self.nodes@[d as int].entries@, x)->0,
        )
    }

    /// The stat of node `n`.
    pub open spec fn stat_spec(&self, n: usize) -> Stat {
        let node = self.nodes@[n as int];
        if node.is_dir {
            Stat { inode: node.ino, inode_type: InodeType::Directory, size: 0, nlink: 2, uid: 0, gid: 0,
                mode: 0o755, dev: 0, rdev: 0, blksize: 4096, blocks: 0 }
        } else {
            Stat { inode: node.ino, inode_type: InodeType::File, size: node.data@.len() as u64, nlink: 1,
                uid: 0, gid: 0, mode: node.mode, dev: 0, rdev: 0, blksize: 4096,
                blocks: ((node.data@.len() + 511) / 512) as u64 }
        }
    }

    /// An empty file system: the root directory, inode 1.
    pub fn new() -> (fs: Self)
        ensures
            fs.wf(),
            fs.nodes@.len() == 1,
            fs.nodes@[0].ino == 1,
            fs.nodes@[0].entries@.len() == 0,
            fs.next_ino == 2,
            fs.inos_unique(),
    {
        let root = TmpNode { ino: 1, is_dir: true, entries: Vec::new(), data: Vec::new(), mode: 0o755 };
        let mut nodes: Vec<TmpNode> = Vec::new();
        nodes.push(root);
        TmpFs { nodes, next_ino: 2 }
    }

    /// Stat of node `n`.
    pub fn stat(&self, n: usize) -> (r: Result<Stat, Errno>)
        requires
            n < self.nodes@.len(),
            self.nodes@[n as int].data@.len() + 511 <= u64::MAX,
        ensures
            r == Ok::<Stat, Errno>(self.stat_spec(n)),
    {
        let node = &self.nodes[n];
        if node.is_dir {
            Ok(Stat { inode: node.ino, inode_type: InodeType::Directory, size: 0, nlink: 2, uid: 0, gid: 0,
                mode: 0o755, dev: 0, rdev: 0, blksize: 4096, blocks: 0 })
        } else {
            let len = node.data.len() as u64;
            Ok(Stat { inode: node.ino, inode_type: InodeType::File, size: len, nlink: 1, uid: 0, gid: 0,
                mode: node.mode, dev: 0, rdev: 0, blksize: 4096, blocks: (len + 511) / 512 })
        }
    }

    /// Type of node `n`.
    pub fn inode_type(&self, n: usize) -> (t: InodeType)
        requires
            n < self.nodes@.len(),
        ensures
            t == if self.nodes@[n as int].is_dir { InodeType::Directory } else { InodeType::File },
    {
        if self.nodes[n].is_dir {
            InodeType::Directory
        } else {
            InodeType::File
        }
    }

    /// The node that `name` leads to in directory `d`.
    pub fn lookup(&self, d: usize, name: &str) -> (r: Result<usize, Errno>)
        requires
            self.wf(),
            d < self.nodes@.len(),
        ensures
            !self.nodes@[d as int].is_dir ==> r == Err::<usize, Errno>(Errno::ENOTDIR),
            self.nodes@[d as int].is_dir ==> r == match entry_lookup(self.nodes@[d as int].entries@, name@) {
                Some(n) => Ok::<usize, Errno>(n),
                None => Err(Errno::ENOENT),
            },
            r matches Ok(n) ==> n < self.nodes@.len(),
    {
        if !self.nodes[d].is_dir {
            return Err(Errno::ENOTDIR);
        }
        let (found, pos) = find_entry(&self.nodes[d].entries, name);
        if found {
            Ok(self.nodes[d].entries[pos].node)
        } else {
            Err(Errno::ENOENT)
        }
    }

    /// Create a file or directory `name` in directory `d`; gives the new node.
    pub fn create(&mut self, d: usize, name: &str, inode_type: InodeType, mode: u32) -> (r: Result<usize, Errno>)
        requires
            old(self).wf(),
            d < old(self).nodes@.len(),
            old(self).nodes@.len() < usize::MAX,
        ensures
            final(self).wf(),
            !old(self).nodes@[d as int].is_dir ==> r == Err::<usize, Errno>(Errno::ENOSYS),
            old(self).nodes@[d as int].is_dir && old(self).contents(d).contains_key(name@)
                ==> r == Err::<usize, Errno>(Errno::EEXIST),
            old(self).nodes@[d as int].is_dir && !old(self).contents(d).contains_key(name@)
                && inode_type != InodeType::File && inode_type != InodeType::Directory
                ==> r == Err::<usize, Errno>(Errno::EINVAL),
            r is Err ==> final(self).nodes@ == old(self).nodes@ && final(self).next_ino == old(self).next_ino,
            old(self).nodes@[d as int].is_dir && !old(self).contents(d).contains_key(name@)
                && (inode_type == InodeType::File || inode_type == InodeType::Directory) ==> r is Ok,
            r matches Ok(n) ==> {
                &&& n == old(self).nodes@.len()
                &&& final(self).nodes@.len() == n + 1
                &&& final(self).contents(d) == old(self).contents(d).insert(name@, n)
                &&& final(self).nodes@[n as int].ino == old(self).next_ino
                &&& final(self).nodes@[n as int].is_dir == (inode_type == InodeType::Directory)
                &&& final(self).nodes@[n as int].entries@.len() == 0
                &&& final(self).nodes@[n as int].data@.len() == 0
                &&& final(self).nodes@[n as int].mode == mode
                &&& final(self).next_ino == old(self).next_ino.wrapping_add(1)
                &&& final(self).nodes@[d as int].ino == old(self).nodes@[d as int].ino
                &&& final(self).nodes@[d as int].is_dir
                &&& forall|m: int| 0 <= m < old(self).nodes@.len() && m != d ==> #[trigger] final(self).nodes@[m] == old(self).nodes@[m]
            },
            // inode numbers stay unique until the counter runs out
            old(self).inos_unique() && old(self).next_ino < u64::MAX ==> final(self).inos_unique(),
    {
        if !self.nodes[d].is_dir {
            return Err(Errno::ENOSYS);
        }
        let (found, pos) = find_entry(&self.nodes[d].entries, name);
        if found {
            return Err(Errno::EEXIST);
        }
        let is_dir = match inode_type {
            InodeType::File => false,
            InodeType::Directory => true,
            _ => {
                return Err(Errno::EINVAL);
            },
        };
        let n = self.nodes.len();
        let ino = self.next_ino;
        self.next_ino = self.next_ino.wrapping_add(1);
        self.nodes.push(TmpNode { ino, is_dir, entries: Vec::new(), data: Vec::new(), mode });
        let ghost mid = self.nodes@;
        let mut dir = self.nodes.remove(d);
        let entry = TmpEntry { name: String::from_str(name), node: n };
        let ghost old_entries = dir.entries@;
        proof {
            lemma_insert_entry(old_entries, pos as int, entry);
        }
        dir.entries.insert(pos, entry);
        self.nodes.insert(d, dir);
        proof {
            assert(self.nodes@ =~= mid.update(d as int, self.nodes@[d as int]));
            assert(final_contents_ok(self.nodes@[d as int].entries@, old_entries, name@, n));
            assert(self.contents(d) =~= old(self).contents(d).insert(name@, n));
        }
        Ok(n)
    }

    /// Remove `name` from directory `d`.
    pub fn unlink(&mut self, d: usize, name: &str) -> (r: Result<(), Errno>)
        requires
            old(self).wf(),
            d < old(self).nodes@.len(),
        ensures
            final(self).wf(),
            final(self).nodes@.len() == old(self).nodes@.len(),
            final(self).next_ino == old(self).next_ino,
            !old(self).nodes@[d as int].is_dir ==> r == Err::<(), Errno>(Errno::ENOSYS),
            old(self).nodes@[d as int].is_dir ==> (r is Ok <==> old(self).contents(d).contains_key(name@)),
            r matches Err(e) ==> final(self).nodes@ == old(self).nodes@
                && (old(self).nodes@[d as int].is_dir ==> e == Errno::ENOENT),
            r is Ok ==> final(self).contents(d) == old(self).contents(d).remove(name@)
                && final(self).nodes@[d as int].ino == old(self).nodes@[d as int].ino
                && final(self).nodes@[d as int].is_dir
                && forall|m: int| 0 <= m < old(self).nodes@.len() && m != d ==> #[trigger] final(self).nodes@[m] == old(self).nodes@[m],
            old(self).inos_unique() ==> final(self).inos_unique(),
    {
        if !self.nodes[d].is_dir {
            return Err(Errno::ENOSYS);
        }
        let (found, pos) = find_entry(&self.nodes[d].entries, name);
        if !found {
            return Err(Errno::ENOENT);
        }
        let ghost before = self.nodes@;
        let mut dir = self.nodes.remove(d);
        let ghost old_entries = dir.entries@;
        proof {
            lemma_remove_entry(old_entries, pos as int);
        }
        let _ = dir.entries.remove(pos);
        self.nodes.insert(d, dir);
        proof {
            assert(self.nodes@ =~= before.update(d as int, self.nodes@[d as int]));
            assert forall|x: Seq<char>| #[trigger] self.contents(d).contains_key(x) == old(self).contents(d).remove(name@).contains_key(x) by {
                if x != name@ {
                    assert(entry_lookup(self.nodes@[d as int].entries@, x) == entry_lookup(old_entries, x));
                }
            }
            assert(self.contents(d) =~= old(self).contents(d).remove(name@));
        }
        Ok(())
    }

    /// The entries of directory `d`: "." and ".." (both naming `d` itself), then each
    /// entry in name order with its node's inode number and type.
    pub fn readdir(&self, d: usize) -> (r: Result<Vec<DirEntry>, Errno>)
        requires
            self.wf(),
            d < self.nodes@.len(),
        ensures
            !self.nodes@[d as int].is_dir ==> r == Err::<Vec<DirEntry>, Errno>(Errno::ENOTDIR),
            self.nodes@[d as int].is_dir ==> r is Ok,
            r matches Ok(v) ==> {
                let e = self.nodes@[d as int].entries@;
                &&& v@.len() == e.len() + 2
                &&& v@[0].name@ == seq!['.'] && v@[0].inode == self.nodes@[d as int].ino && v@[0].inode_type == InodeType::Directory
                &&& v@[1].name@ == seq!['.', '.'] && v@[1].inode == self.nodes@[d as int].ino && v@[1].inode_type == InodeType::Directory
                &&& forall|i: int| 0 <= i < e.len() ==> {
                    let n = #[trigger] e[i].node;
                    &&& v@[i + 2].name@ == e[i].name@
                    &&& v@[i + 2].inode == self.nodes@[n as int].ino
                    &&& v@[i + 2].inode_type == (if self.nodes@[n as int].is_dir { InodeType::Directory } else { InodeType::File })
                }
            },
    {
        if !self.nodes[d].is_dir {
            return Err(Errno::ENOTDIR);
        }
        let ino = self.nodes[d].ino;
        let mut v: Vec<DirEntry> = Vec::new();
        let dot = String::from_str(".");
        let dotdot = String::from_str("..");
        proof {
            reveal_strlit(".");
            reveal_strlit("..");
        }
        v.push(DirEntry { name: dot, inode: ino, inode_type: InodeType::Directory });
        v.push(DirEntry { name: dotdot, inode: ino, inode_type: InodeType::Directory });
        let ghost e = self.nodes@[d as int].entries@;
        let mut i: usize = 0;
        while i < self.nodes[d].entries.len()
            invariant
                self.wf(),
                d < self.nodes@.len(),
                e == self.nodes@[d as int].entries@,
                i <= e.len(),
                v@.len() == i + 2,
                v@[0].name@ == seq!['.'] && v@[0].inode == ino && v@[0].inode_type == InodeType::Directory,
                v@[1].name@ == seq!['.', '.'] && v@[1].inode == ino && v@[1].inode_type == InodeType::Directory,
                ino == self.nodes@[d as int].ino,
                forall|k: int| 0 <= k < i ==> {
                    let n = #[trigger] e[k].node;
                    &&& v@[k + 2].name@ == e[k].name@
                    &&& v@[k + 2].inode == self.nodes@[n as int].ino
                    &&& v@[k + 2].inode_type == (if self.nodes@[n as int].is_dir { InodeType::Directory } else { InodeType::File })
                },
            decreases e.len() - i,
        {
            let n = self.nodes[d].entries[i].node;
            assert(n == e[i as int].node);
            let name = self.nodes[d].entries[i].name.clone();
            let t = self.inode_type(n);
            v.push(DirEntry { name, inode: self.nodes[n].ino, inode_type: t });
            i = i + 1;
        }
        Ok(v)
    }

    /// Read from file `f` at `offset` into `buf`; gives the number of bytes read.
    pub fn read(&self, f: usize, offset: u64, buf: &mut Vec<u8>) -> (r: Result<usize, Errno>)
        requires
            f < self.nodes@.len(),
        ensures
            self.nodes@[f as int].is_dir ==> r == Err::<usize, Errno>(Errno::ENOSYS) && final(buf)@ == old(buf)@,
            !self.nodes@[f as int].is_dir ==> (r matches Ok(n) && {
                let got = read_at(self.nodes@[f as int].data@, offset as int, old(buf)@.len() as int);
                &&& n == got.len()
                &&& final(buf)@ == got + old(buf)@.subrange(n as int, old(buf)@.len() as int)
            }),
    {
        if self.nodes[f].is_dir {
            return Err(Errno::ENOSYS);
        }
        let data = &self.nodes[f].data;
        let len = data.len();
        let start: usize = if offset < len as u64 { offset as usize } else { len };
        let end: usize = if buf.len() < len - start { start + buf.len() } else { len };
        let count = end - start;
        let mut k: usize = 0;
        while k < count
            invariant
                k <= count,
                count == end - start,
                start <= end,
                end <= len,
                len == data@.len(),
                count <= old(buf)@.len(),
                buf@.len() == old(buf)@.len(),
                forall|j: int| 0 <= j < k ==> #[trigger] buf@[j] == data@[start + j],
                forall|j: int| k <= j < buf@.len() ==> #[trigger] buf@[j] == old(buf)@[j],
            decreases count - k,
        {
            buf.set(k, data[start + k]);
            k = k + 1;
        }
        proof {
            let got = read_at(data@, offset as int, old(buf)@.len() as int);
            assert(got =~= data@.subrange(start as int, end as int));
            assert(buf@ =~= got + old(buf)@.subrange(count as int, old(buf)@.len() as int));
        }
        Ok(count)
    }

    /// Write `data` to file `f` at `offset`, extending the file with zeros as needed;
    /// gives the number of bytes written.
    pub fn write(&mut self, f: usize, offset: u64, data: &[u8]) -> (r: Result<usize, Errno>)
        requires
            old(self).wf(),
            f < old(self).nodes@.len(),
            offset + data@.len() <= usize::MAX,
        ensures
            final(self).wf(),
            final(self).next_ino == old(self).next_ino,
            old(self).nodes@[f as int].is_dir ==> r == Err::<usize, Errno>(Errno::ENOSYS) && final(self).nodes@ == old(self).nodes@,
            !old(self).nodes@[f as int].is_dir ==> r == Ok::<usize, Errno>(data@.len() as usize)
                && final(self).nodes@ == old(self).nodes@.update(f as int, TmpNode {
                    data: final(self).nodes@[f as int].data, ..old(self).nodes@[f as int] })
                && final(self).nodes@[f as int].data@ == write_at(old(self).nodes@[f as int].data@, offset as int, data@),
            old(self).inos_unique() ==> final(self).inos_unique(),
    {
        if self.nodes[f].is_dir {
            return Err(Errno::ENOSYS);
        }
        let ghost before = self.nodes@;
        let node = self.nodes.remove(f);
        let TmpNode { ino, is_dir, entries, data: mut bytes, mode } = node;
        let ghost d0 = bytes@;
        let off = offset as usize;
        let end = off + data.len();
        while bytes.len() < end
            invariant
                bytes@.len() <= end || bytes@.len() == d0.len(),
                d0.len() <= bytes@.len(),
                bytes@.subrange(0, d0.len() as int) == d0,
                forall|j: int| d0.len() <= j < bytes@.len() ==> #[trigger] bytes@[j] == 0u8,
            decreases end - bytes@.len(),
        {
            bytes.push(0);
        }
        let ghost padded = bytes@;
        let mut k: usize = 0;
        while k < data.len()
            invariant
                k <= data@.len(),
                end == off + data@.len(),
                bytes@.len() == padded.len(),
                end <= padded.len(),
                forall|j: int| 0 <= j < off ==> #[trigger] bytes@[j] == padded[j],
                forall|j: int| off <= j < off + k ==> #[trigger] bytes@[j] == data@[j - off],
                forall|j: int| off + k <= j < padded.len() ==> #[trigger] bytes@[j] == padded[j],
            decreases data@.len() - k,
        {
            bytes.set(off + k, data[k]);
            k = k + 1;
        }
        proof {
            let p2 = if end > d0.len() { d0 + Seq::new((end - d0.len()) as nat, |i: int| 0u8) } else { d0 };
            assert(padded =~= p2);
            assert(bytes@ =~= write_at(d0, offset as int, data@));
        }
        self.nodes.insert(f, TmpNode { ino, is_dir, entries, data: bytes, mode });
        proof {
            assert(self.nodes@ =~= before.update(f as int, TmpNode { data: self.nodes@[f as int].data, ..before[f as int] }));
        }
        Ok(data.len())
    }

    /// Truncate or extend file `f` to `size` bytes (zeros are added).
    pub fn truncate(&mut self, f: usize, size: u64) -> (r: Result<(), Errno>)
        requires
            old(self).wf(),
            f < old(self).nodes@.len(),
            size <= usize::MAX,
        ensures
            final(self).wf(),
            final(self).next_ino == old(self).next_ino,
            old(self).nodes@[f as int].is_dir ==> r == Err::<(), Errno>(Errno::ENOSYS) && final(self).nodes@ == old(self).nodes@,
            !old(self).nodes@[f as int].is_dir ==> r is Ok
                && final(self).nodes@ == old(self).nodes@.update(f as int, TmpNode {
                    data: final(self).nodes@[f as int].data, ..old(self).nodes@[f as int] })
                && final(self).nodes@[f as int].data@ == resized(old(self).nodes@[f as int].data@, size as int),
            old(self).inos_unique() ==> final(self).inos_unique(),
    {
        if self.nodes[f].is_dir {
            return Err(Errno::ENOSYS);
        }
        let ghost before = self.nodes@;
        let node = self.nodes.remove(f);
        let TmpNode { ino, is_dir, entries, data: mut bytes, mode } = node;
        let ghost d0 = bytes@;
        let size = size as usize;
        if size <= bytes.len() {
            bytes.truncate(size);
        } else {
            while bytes.len() < size
                invariant
                    d0.len() <= bytes@.len() <= size,
                    bytes@.subrange(0, d0.len() as int) == d0,
                    forall|j: int| d0.len() <= j < bytes@.len() ==> #[trigger] bytes@[j] == 0u8,
                decreases size - bytes@.len(),
            {
                bytes.push(0);
            }
        }
        proof {
            assert(bytes@ =~= resized(d0, size as int));
        }
        self.nodes.insert(f, TmpNode { ino, is_dir, entries, data: bytes, mode });
        proof {
            assert(self.nodes@ =~= before.update(f as int, TmpNode { data: self.nodes@[f as int].data, ..before[f as int] }));
        }
        Ok(())
    }
}

/// What `create` leaves in the directory it adds to.
pub open spec fn final_contents_ok(after: Seq<TmpEntry>, before: Seq<TmpEntry>, name: Seq<char>, n: usize) -> bool {
    &&& sorted_entries(after)
    &&& entry_lookup(after, name) == Some(n)
    &&& forall|x: Seq<char>| x != name ==> #[trigger] entry_lookup(after, x) == entry_lookup(before, x)
}

impl FileSystem for TmpFs {
    fn name(&self) -> (s: &'static str)
        ensures
            s@ == "tmpfs"@,
    {
        "tmpfs"
    }

    fn root(&self) -> (r: usize)
        ensures
            r == 0,
    {
        0
    }
}

/// A read right after a write at the same offset gives back what was written.
pub proof fn law_tmpfs_read_after_write(d: Seq<u8>, off: int, x: Seq<u8>)
    requires
        0 <= off,
    ensures
        read_at(write_at(d, off, x), off, x.len() as int) == x,
{
    let w = write_at(d, off, x);
    let end = off + x.len();
    let padded = if end > d.len() { d + Seq::new((end - d.len()) as nat, |i: int| 0u8) } else { d };
    assert(padded.len() >= end);
    assert(w.len() == padded.len());
    assert(w.subrange(off, end) =~= x);
}

} // verus!
