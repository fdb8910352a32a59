use vstd::prelude::*;

verus! {

/// POSIX error numbers returned by kernel services.
#[allow(non_camel_case_types)]
#[derive(Debug, Clone, Copy, PartialEq, Eq, Structural)]
pub enum Errno {
    EPERM,
    ENOENT,
    EIO,
    ENOEXEC,
    EBADF,
    EAGAIN,
    ENOMEM,
    EACCES,
    EFAULT,
    EEXIST,
    ENOTDIR,
    EINVAL,
    EMFILE,
    EFBIG,
    ENOSPC,
    EPIPE,
    ENOSYS,
}


impl Errno {
    /// The variant's name, as debug output shows it.
    pub open spec fn name_spec(self) -> Seq<char> {
        match self {
            Errno::EPERM => "EPERM"@,
            Errno::ENOENT => "ENOENT"@,
            Errno::EIO => "EIO"@,
            Errno::ENOEXEC => "ENOEXEC"@,
            Errno::EBADF => "EBADF"@,
            Errno::EAGAIN => "EAGAIN"@,
            Errno::ENOMEM => "ENOMEM"@,
            Errno::EACCES => "EACCES"@,
            Errno::EFAULT => "EFAULT"@,
            Errno::EEXIST => "EEXIST"@,
            Errno::ENOTDIR => "ENOTDIR"@,
            Errno::EINVAL => "EINVAL"@,
            Errno::EMFILE => "EMFILE"@,
            Errno::EFBIG => "EFBIG"@,
            Errno::ENOSPC => "ENOSPC"@,
            Errno::EPIPE => "EPIPE"@,
            Errno::ENOSYS => "ENOSYS"@,
        }
    }

    /// The variant's name.
    pub fn name(self) -> (s: &'static str)
        ensures
            s@ == self.name_spec(),
    {
        match self {
            Errno::EPERM => "EPERM",
            Errno::ENOENT => "ENOENT",
            Errno::EIO => "EIO",
            Errno::ENOEXEC => "ENOEXEC",
            Errno::EBADF => "EBADF",
            Errno::EAGAIN => "EAGAIN",
            Errno::ENOMEM => "ENOMEM",
            Errno::EACCES => "EACCES",
            Errno::EFAULT => "EFAULT",
            Errno::EEXIST => "EEXIST",
            Errno::ENOTDIR => "ENOTDIR",
            Errno::EINVAL => "EINVAL",
            Errno::EMFILE => "EMFILE",
            Errno::EFBIG => "EFBIG",
            Errno::ENOSPC => "ENOSPC",
            Errno::EPIPE => "EPIPE",
            Errno::ENOSYS => "ENOSYS",
        }
    }
}

} // verus!
