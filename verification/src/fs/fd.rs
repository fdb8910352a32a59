use vstd::prelude::*;
use crate::errno::Errno;

verus! {

/// Maximum number of open file descriptors per process.
pub const MAX_FDS: usize = 256;

/// Open file flags.
#[derive(Debug, Clone, Copy, PartialEq, Eq, Structural)]
pub struct OpenFlags {
    pub read: bool,
    pub write: bool,
    pub append: bool,
}

impl OpenFlags {
    /// Read only.
    pub fn rdonly() -> (r: OpenFlags)
        ensures
            r == (OpenFlags { read: true, write: false, append: false }),
    {
        OpenFlags { read: true, write: false, append: false }
    }

    /// Write only.
    pub fn wronly() -> (r: OpenFlags)
        ensures
            r == (OpenFlags { read: false, write: true, append: false }),
    {
        OpenFlags { read: false, write: true, append: false }
    }

    /// Read and write.
    pub fn rdwr() -> (r: OpenFlags)
        ensures
            r == (OpenFlags { read: true, write: true, append: false }),
    {
        OpenFlags { read: true, write: true, append: false }
    }
}

/// An open file descriptor entry. The open file itself is named by `inode`, a handle
/// that the caller maps to the file object.
#[derive(Debug, Clone, Copy, PartialEq, Eq, Structural)]
pub struct FileDescriptor {
    pub inode: u64,
    pub offset: u64,
    pub flags: OpenFlags,
}

/// Per-process file descriptor table.
pub struct FdTable {
    fds: Vec<Option<FileDescriptor>>,
}

impl View for FdTable {
    type V = Seq<Option<FileDescriptor>>;

    closed spec fn view(&self) -> Seq<Option<FileDescriptor>> {
        self.fds@
    }
}

impl FdTable {
    /// The table has its MAX_FDS slots.
    pub open spec fn wf(&self) -> bool {
        self@.len() == MAX_FDS
    }

    pub fn new() -> (t: Self)
        ensures
            t.wf(),
            t@.len() == MAX_FDS,
            forall|i: int| 0 <= i < MAX_FDS ==> t@[i] is None,
    {
        let mut fds: Vec<Option<FileDescriptor>> = Vec::new();
        while fds.len() < MAX_FDS
            invariant
                fds@.len() <= MAX_FDS,
                forall|i: int| 0 <= i < fds@.len() ==> fds@[i] is None,
            decreases MAX_FDS - fds@.len(),
        {
            fds.push(None);
        }
        FdTable { fds }
    }

    /// Index of the lowest free slot, if any.
    fn find_free(&self) -> (r: Option<usize>)
        requires
            self.wf(),
        ensures
            r matches Some(i) ==> i < MAX_FDS && self@[i as int] is None
                && forall|j: int| 0 <= j < i ==> self@[j] is Some,
            r is None ==> forall|j: int| 0 <= j < MAX_FDS ==> self@[j] is Some,
    {
        let mut i: usize = 0;
        while i < self.fds.len()
            invariant
                self.wf(),
                i <= MAX_FDS,
                forall|j: int| 0 <= j < i ==> self@[j] is Some,
            decreases MAX_FDS - i,
        {
            if self.fds[i].is_none() {
                return Some(i);
            }
            i += 1;
        }
        None
    }

    /// Allocate the lowest available FD and assign the given file.
    pub fn alloc_fd(&mut self, inode: u64, flags: OpenFlags) -> (r: Result<usize, Errno>)
        requires
            old(self).wf(),
        ensures
            final(self).wf(),
            match r {
                Ok(i) => {
                    &&& i < MAX_FDS
                    &&& old(self)@[i as int] is None
                    &&& forall|j: int| 0 <= j < i ==> old(self)@[j] is Some
                    &&& final(self)@ == old(self)@.update(
                        i as int,
                        Some(FileDescriptor { inode, offset: 0, flags }),
                    )
                },
                Err(e) => {
                    &&& e == Errno::EMFILE
                    &&& forall|j: int| 0 <= j < MAX_FDS ==> old(self)@[j] is Some
                    &&& final(self)@ == old(self)@
                },
            },
    {
        match self.find_free() {
            Some(i) => {
                self.fds.set(i, Some(FileDescriptor { inode, offset: 0, flags }));
                Ok(i)
            },
            None => Err(Errno::EMFILE),
        }
    }

    /// Get an open file descriptor.
    pub fn get(&self, fd: usize) -> (r: Result<FileDescriptor, Errno>)
        requires
            self.wf(),
        ensures
            fd < MAX_FDS && self@[fd as int] is Some ==> r == Ok::<FileDescriptor, Errno>(
                self@[fd as int]->0,
            ),
            !(fd < MAX_FDS && self@[fd as int] is Some) ==> r == Err::<FileDescriptor, Errno>(
                Errno::EBADF,
            ),
    {
        if fd < self.fds.len() {
            match self.fds[fd] {
                Some(d) => Ok(d),
                None => Err(Errno::EBADF),
            }
        } else {
            Err(Errno::EBADF)
        }
    }

    /// Replace an open file descriptor's entry (the in-place update of the entry that
    /// a mutable reference gives).
    pub fn get_mut(&mut self, fd: usize, desc: FileDescriptor) -> (r: Result<(), Errno>)
        requires
            old(self).wf(),
        ensures
            final(self).wf(),
            fd < MAX_FDS && old(self)@[fd as int] is Some ==> r is Ok && final(self)@ == old(
                self,
            )@.update(fd as int, Some(desc)),
            !(fd < MAX_FDS && old(self)@[fd as int] is Some) ==> r == Err::<(), Errno>(Errno::EBADF)
                && final(self)@ == old(self)@,
    {
        if fd < self.fds.len() && self.fds[fd].is_some() {
            self.fds.set(fd, Some(desc));
            Ok(())
        } else {
            Err(Errno::EBADF)
        }
    }

    /// Close a file descriptor.
    pub fn close(&mut self, fd: usize) -> (r: Result<(), Errno>)
        requires
            old(self).wf(),
        ensures
            final(self).wf(),
            fd < MAX_FDS && old(self)@[fd as int] is Some ==> r is Ok && final(self)@ == old(
                self,
            )@.update(fd as int, None),
            !(fd < MAX_FDS && old(self)@[fd as int] is Some) ==> r == Err::<(), Errno>(Errno::EBADF)
                && final(self)@ == old(self)@,
    {
        if fd >= self.fds.len() {
            return Err(Errno::EBADF);
        }
        if self.fds[fd].is_none() {
            return Err(Errno::EBADF);
        }
        self.fds.set(fd, None);
        Ok(())
    }

    /// Duplicate a file descriptor to the lowest available slot.
    pub fn dup(&mut self, old_fd: usize) -> (r: Result<usize, Errno>)
        requires
            old(self).wf(),
        ensures
            final(self).wf(),
            !(old_fd < MAX_FDS && old(self)@[old_fd as int] is Some) ==> r == Err::<usize, Errno>(
                Errno::EBADF,
            ) && final(self)@ == old(self)@,
            old_fd < MAX_FDS && old(self)@[old_fd as int] is Some ==> match r {
                Ok(i) => {
                    &&& i < MAX_FDS
                    &&& old(self)@[i as int] is None
                    &&& forall|j: int| 0 <= j < i ==> old(self)@[j] is Some
                    &&& final(self)@ == old(self)@.update(i as int, old(self)@[old_fd as int])
                },
                Err(e) => {
                    &&& e == Errno::EMFILE
                    &&& forall|j: int| 0 <= j < MAX_FDS ==> old(self)@[j] is Some
                    &&& final(self)@ == old(self)@
                },
            },
    {
        if old_fd >= self.fds.len() {
            return Err(Errno::EBADF);
        }
        let entry = match self.fds[old_fd] {
            Some(d) => d,
            None => return Err(Errno::EBADF),
        };
        match self.find_free() {
            Some(i) => {
                self.fds.set(i, Some(entry));
                Ok(i)
            },
            None => Err(Errno::EMFILE),
        }
    }

    /// Duplicate a file descriptor to a specific slot, replacing what was there.
    pub fn dup2(&mut self, old_fd: usize, new_fd: usize) -> (r: Result<usize, Errno>)
        requires
            old(self).wf(),
        ensures
            final(self).wf(),
            new_fd < MAX_FDS && old_fd < MAX_FDS && old(self)@[old_fd as int] is Some ==> r
                == Ok::<usize, Errno>(new_fd) && final(self)@ == old(self)@.update(
                new_fd as int,
                old(self)@[old_fd as int],
            ),
            !(new_fd < MAX_FDS && old_fd < MAX_FDS && old(self)@[old_fd as int] is Some) ==> r
                == Err::<usize, Errno>(Errno::EBADF) && final(self)@ == old(self)@,
    {
        if new_fd >= MAX_FDS {
            return Err(Errno::EBADF);
        }
        if old_fd >= self.fds.len() {
            return Err(Errno::EBADF);
        }
        let entry = match self.fds[old_fd] {
            Some(d) => d,
            None => return Err(Errno::EBADF),
        };
        self.fds.set(new_fd, Some(entry));
        Ok(new_fd)
    }
}

/// File descriptors are handed out lowest first: only one slot is free with every
/// lower slot in use, so `alloc_fd` (after a `close`, say) gives exactly that slot.
pub proof fn law_lowest_free_fd(t: Seq<Option<FileDescriptor>>, i: int, k: int)
    requires
        0 <= i < t.len(),
        0 <= k < t.len(),
        t[i] is None,
        t[k] is None,
        forall|j: int| 0 <= j < i ==> t[j] is Some,
        forall|j: int| 0 <= j < k ==> t[j] is Some,
    ensures
        i == k,
{
    if i < k {
        assert(t[i] is Some);
    } else if k < i {
        assert(t[k] is Some);
    }
}

} // verus!
