use vstd::prelude::*;
use vstd::string::StrSliceExecFns;
use vstd::string::StringExecFns;
use crate::errno::Errno;
use crate::fs::path::{split_slash, is_dot};

verus! {

/// Inode type.
#[derive(Debug, Clone, Copy, PartialEq, Eq, Structural)]
pub enum InodeType {
    File,
    Directory,
    Symlink,
    CharDevice,
    BlockDevice,
    Pipe,
}

impl InodeType {
    /// The variant's name, as debug output shows it.
    pub open spec fn name_spec(self) -> Seq<char> {
        match self {
            InodeType::File => "File"@,
            InodeType::Directory => "Directory"@,
            InodeType::Symlink => "Symlink"@,
            InodeType::CharDevice => "CharDevice"@,
            InodeType::BlockDevice => "BlockDevice"@,
            InodeType::Pipe => "Pipe"@,
        }
    }

    /// The variant's name.
    pub fn name(self) -> (s: &'static str)
        ensures
            s@ == self.name_spec(),
    {
        match self {
            InodeType::File => "File",
            InodeType::Directory => "Directory",
            InodeType::Symlink => "Symlink",
            InodeType::CharDevice => "CharDevice",
            InodeType::BlockDevice => "BlockDevice",
            InodeType::Pipe => "Pipe",
        }
    }
}

/// File stat information.
#[derive(Debug, Clone, Copy, PartialEq, Eq, Structural)]
pub struct Stat {
    pub inode: u64,
    pub inode_type: InodeType,
    pub size: u64,
    pub nlink: u64,
    pub uid: u32,
    pub gid: u32,
    pub mode: u32,
    pub dev: u64,
    pub rdev: u64,
    pub blksize: u64,
    pub blocks: u64,
}


/// A directory entry returned by readdir.
pub struct DirEntry {
    pub name: String,
    pub inode: u64,
    pub inode_type: InodeType,
}

/// A file system that can be mounted: its name and the node of its root directory.
pub trait FileSystem {
    fn name(&self) -> &'static str;
    fn root(&self) -> usize;
}

/// A mount point: where a file system is attached, and the file system's name.
pub struct MountPoint {
    pub path: String,
    pub fs_name: String,
}

/// The mount table.
pub struct Vfs {
    pub mounts: Vec<MountPoint>,
}

/// Mount path `m` covers path `p`: it is a prefix of `p` that ends at the end of `p`,
/// before a slash, or with a slash of its own (so the root mount "/" covers every
/// absolute path).
pub open spec fn mount_covers(m: Seq<char>, p: Seq<char>) -> bool {
    &&& m.len() <= p.len()
    &&& p.subrange(0, m.len() as int) == m
    &&& (p.len() == m.len() || p[m.len() as int] == '/' || (m.len() > 0 && m[m.len() - 1] == '/'))
}

/// Mount `i` is the one that serves `p`: it covers `p`, no covering mount is longer,
/// and no later covering mount is as long.
pub open spec fn best_mount(mounts: Seq<Seq<char>>, p: Seq<char>, i: int) -> bool {
    &&& 0 <= i < mounts.len()
    &&& mount_covers(mounts[i], p)
    &&& forall|j: int| 0 <= j < mounts.len() && #[trigger] mount_covers(mounts[j], p) ==>
        mounts[j].len() < mounts[i].len() || (mounts[j].len() == mounts[i].len() && j <= i)
}

/// Only one mount serves a path.
pub proof fn lemma_best_mount_unique(mounts: Seq<Seq<char>>, p: Seq<char>, i: int, j: int)
    requires
        best_mount(mounts, p, i),
        best_mount(mounts, p, j),
    ensures
        i == j,
{
    assert(mount_covers(mounts[j], p));
    assert(mount_covers(mounts[i], p));
}

/// The components to look up below a mount: the pieces between slashes, without
/// empty ones and ".".
pub open spec fn walk_components(rest: Seq<char>) -> Seq<Seq<char>> {
    split_slash(rest).filter(|c: Seq<char>| c.len() > 0 && !is_dot(c))
}

impl Vfs {
    /// The mount paths, in mount order.
    pub open spec fn mount_paths(&self) -> Seq<Seq<char>> {
        Seq::new(self.mounts@.len(), |i: int| self.mounts@[i].path@)
    }

    /// An empty mount table.
    pub fn init() -> (v: Vfs)
        ensures
            v.mounts@.len() == 0,
    {
        Vfs { mounts: Vec::new() }
    }

    /// Mount the file system named `fs_name` at `path`.
    pub fn mount(&mut self, path: &str, fs_name: &str)
        ensures
            final(self).mounts@.len() == old(self).mounts@.len() + 1,
            final(self).mount_paths() == old(self).mount_paths().push(path@),
            final(self).mounts@.last().fs_name@ == fs_name@,
            forall|i: int| 0 <= i < old(self).mounts@.len() ==> #[trigger] final(self).mounts@[i].fs_name@ == old(self).mounts@[i].fs_name@,
    {
        self.mounts.push(MountPoint { path: String::from_str(path), fs_name: String::from_str(fs_name) });
        assert(self.mount_paths() =~= old(self).mount_paths().push(path@));
    }

    /// The (path, file system name) of every mount, in mount order.
    pub fn mounts(&self) -> (r: Vec<(String, String)>)
        ensures
            r@.len() == self.mounts@.len(),
            forall|i: int| 0 <= i < r@.len() ==> #[trigger] r@[i].0@ == self.mounts@[i].path@
                && r@[i].1@ == self.mounts@[i].fs_name@,
    {
        let mut r: Vec<(String, String)> = Vec::new();
        let mut i: usize = 0;
        while i < self.mounts.len()
            invariant
                i <= self.mounts@.len(),
                r@.len() == i,
                forall|k: int| 0 <= k < i ==> #[trigger] r@[k].0@ == self.mounts@[k].path@
                    && r@[k].1@ == self.mounts@[k].fs_name@,
            decreases self.mounts@.len() - i,
        {
            let m = &self.mounts[i];
            r.push((m.path.clone(), m.fs_name.clone()));
            i = i + 1;
        }
        r
    }

    /// The mount that serves `path`: the longest covering mount, the latest of equally
    /// long ones.
    pub fn find_mount(&self, path: &str) -> (r: Option<usize>)
        ensures
            match r {
                Some(i) => best_mount(self.mount_paths(), path@, i as int),
                None => forall|j: int| 0 <= j < self.mounts@.len() ==> !mount_covers(#[trigger] self.mount_paths()[j], path@),
            },
    {
        let n = path.unicode_len();
        let mut best: Option<usize> = None;
        let mut best_len: usize = 0;
        let mut i: usize = 0;
        let ghost mp = self.mount_paths();
        while i < self.mounts.len()
            invariant
                i <= self.mounts@.len(),
                mp == self.mount_paths(),
                n == path@.len(),
                match best {
                    Some(b) => {
                        &&& b < i
                        &&& best_len == mp[b as int].len()
                        &&& mount_covers(mp[b as int], path@)
                        &&& forall|j: int| 0 <= j < i && #[trigger] mount_covers(mp[j], path@) ==>
                            mp[j].len() < mp[b as int].len() || (mp[j].len() == mp[b as int].len() && j <= b)
                    },
                    None => best_len == 0 && forall|j: int| 0 <= j < i ==> !mount_covers(#[trigger] mp[j], path@),
                },
            decreases self.mounts@.len() - i,
        {
            let m = self.mounts[i].path.as_str();
            let mlen = m.unicode_len();
            let covers = covers_exec(m, path, mlen, n);
            assert(mp[i as int] == m@);
            if covers && mlen >= best_len {
                best = Some(i);
                best_len = mlen;
            }
            i = i + 1;
        }
        best
    }

    /// Resolve a path to the mount that serves it and the components to look up from
    /// that file system's root, in order.
    pub fn resolve(&self, path: &str) -> (r: Result<(usize, Vec<String>), Errno>)
        ensures
            match r {
                Ok((i, comps)) => {
                    &&& best_mount(self.mount_paths(), path@, i as int)
                    &&& views_of(comps@) == walk_components(path@.subrange(self.mount_paths()[i as int].len() as int, path@.len() as int))
                },
                Err(e) => e == Errno::ENOENT
                    && forall|j: int| 0 <= j < self.mounts@.len() ==> !mount_covers(#[trigger] self.mount_paths()[j], path@),
            },
    {
        match self.find_mount(path) {
            None => Err(Errno::ENOENT),
            Some(i) => {
                let mlen = self.mounts[i].path.as_str().unicode_len();
                let n = path.unicode_len();
                assert(self.mount_paths()[i as int] == self.mounts@[i as int].path@);
                let rest = path.substring_char(mlen, n);
                let comps = components(rest);
                Ok((i, comps))
            },
        }
    }
}

fn covers_exec(m: &str, p: &str, mlen: usize, plen: usize) -> (r: bool)
    requires
        mlen == m@.len(),
        plen == p@.len(),
    ensures
        r == mount_covers(m@, p@),
{
    if mlen > plen {
        return false;
    }
    let mut k: usize = 0;
    while k < mlen
        invariant
            k <= mlen <= plen,
            mlen == m@.len(),
            plen == p@.len(),
            forall|j: int| 0 <= j < k ==> m@[j] == p@[j],
        decreases mlen - k,
    {
        if m.get_char(k) != p.get_char(k) {
            assert(p@.subrange(0, mlen as int)[k as int] != m@[k as int]);
            return false;
        }
        k = k + 1;
    }
    assert(p@.subrange(0, mlen as int) =~= m@);
    plen == mlen || p.get_char(mlen) == '/' || (mlen > 0 && m.get_char(mlen - 1) == '/')
}

fn push_piece(rest: &str, r: &mut Vec<String>, a: usize, b: usize)
    requires
        a <= b <= rest@.len(),
    ensures
        views_of(final(r)@) == if b - a > 0 && !is_dot(rest@.subrange(a as int, b as int)) {
            views_of(old(r)@).push(rest@.subrange(a as int, b as int))
        } else {
            views_of(old(r)@)
        },
{
    let piece = rest.substring_char(a, b);
    let plen = b - a;
    if plen > 0 && !(plen == 1 && piece.get_char(0) == '.') {
        r.push(String::from_str(piece));
        assert(views_of(r@) =~= views_of(old(r)@).push(piece@));
    }
}

/// The components of `rest` to look up: pieces between slashes, without empty ones
/// and ".".
pub fn components(rest: &str) -> (r: Vec<String>)
    ensures
        views_of(r@) == walk_components(rest@),
{
    let n = rest.unicode_len();
    let ghost s = rest@;
    let ghost keep = |c: Seq<char>| c.len() > 0 && !is_dot(c);
    let mut r: Vec<String> = Vec::new();
    let mut start: usize = 0;
    let mut i: usize = 0;
    proof {
        assert(s.take(0) =~= Seq::<char>::empty());
        assert(split_slash(s.take(0)).drop_last() =~= Seq::<Seq<char>>::empty());
        assert(s.subrange(0, 0) =~= Seq::<char>::empty());
        reveal(Seq::filter);
        assert(views_of(r@) =~= Seq::<Seq<char>>::empty());
    }
    while i < n
        invariant
            n == s.len(),
            s == rest@,
            start <= i <= n,
            split_slash(s.take(i as int)).len() > 0,
            split_slash(s.take(i as int)).last() == s.subrange(start as int, i as int),
            views_of(r@) == split_slash(s.take(i as int)).drop_last().filter(keep),
            keep == (|c: Seq<char>| c.len() > 0 && !is_dot(c)),
        decreases n - i,
    {
        let ghost sp = split_slash(s.take(i as int));
        proof {
            assert(s.take(i + 1).drop_last() =~= s.take(i as int));
            assert(s.take(i + 1).last() == s[i as int]);
        }
        if rest.get_char(i) == '/' {
            push_piece(rest, &mut r, start, i);
            proof {
                reveal(Seq::filter);
                assert(sp.drop_last().push(sp.last()).drop_last() =~= sp.drop_last());
                assert(sp.drop_last().push(sp.last()) =~= sp);
                let sp2 = split_slash(s.take(i + 1));
                assert(sp2 == sp.push(Seq::<char>::empty()));
                assert(sp2.drop_last() =~= sp);
                assert(s.subrange(i + 1, i + 1) =~= Seq::<char>::empty());
            }
            start = i + 1;
        } else {
            proof {
                let sp2 = split_slash(s.take(i + 1));
                assert(sp2 == sp.update(sp.len() - 1, sp.last().push(s[i as int])));
                assert(sp2.drop_last() =~= sp.drop_last());
                assert(s.subrange(start as int, i + 1) =~= s.subrange(start as int, i as int).push(s[i as int]));
            }
        }
        i = i + 1;
    }
    let ghost sp = split_slash(s.take(n as int));
    push_piece(rest, &mut r, start, n);
    proof {
        reveal(Seq::filter);
        assert(sp.drop_last().push(sp.last()).drop_last() =~= sp.drop_last());
        assert(sp.drop_last().push(sp.last()) =~= sp);
        assert(s.take(n as int) =~= s);
    }
    r
}

/// The character sequences of a list of strings.
pub open spec fn views_of(v: Seq<String>) -> Seq<Seq<char>> {
    Seq::new(v.len(), |k: int| v[k]@)
}

} // verus!
