//! Errors of the passthrough engine.
use crate::host::{
    HostErrnos, AT_EACCES, AT_EBADF, AT_EINVAL, AT_EIO, AT_ENAMETOOLONG, AT_ENOSYS,
};
use vstd::prelude::*;

verus! {

/// Why an operation of the engine failed. Each error stands for a POSIX errno.
#[derive(Debug, Clone, Copy, PartialEq, Eq)]
pub enum FsError {
    /// A system call failed with this errno.
    Io { errno: i32 },
    /// No inode has this id.
    UnknownInode(u64),
    /// No open handle has this id.
    UnknownHandle(u64),
    /// The operation is not supported.
    Unsupported(&'static str),
    /// An argument is not acceptable.
    InvalidArgument(&'static str),
    /// A name is too long.
    NameTooLong,
    /// A path leads out of the shared directory.
    PathEscape,
}

pub type FsResult<T> = Result<T, FsError>;

/// What the host calls the error that stands for `e`.
pub open spec fn fs_errno(host: HostErrnos, e: FsError) -> i32 {
    match e {
        FsError::Io { errno } => errno,
        FsError::UnknownInode(_) | FsError::UnknownHandle(_) => host.number(AT_EBADF),
        FsError::Unsupported(_) => host.number(AT_ENOSYS),
        FsError::InvalidArgument(_) => host.number(AT_EINVAL),
        FsError::NameTooLong => host.number(AT_ENAMETOOLONG),
        FsError::PathEscape => host.number(AT_EACCES),
    }
}

impl FsError {
    /// The host errno that best represents this error: what the system call
    /// reported, or else the host's `EBADF` for an unknown inode or handle, its
    /// `ENOSYS`, `EINVAL`, `ENAMETOOLONG` or `EACCES`.
    pub fn errno(&self, host: &HostErrnos) -> (r: i32)
        ensures
            r == fs_errno(*host, *self),
    {
        match self {
            FsError::Io { errno } => *errno,
            FsError::UnknownInode(_) => host.numbers[AT_EBADF],
            FsError::UnknownHandle(_) => host.numbers[AT_EBADF],
            FsError::Unsupported(_) => host.numbers[AT_ENOSYS],
            FsError::InvalidArgument(_) => host.numbers[AT_EINVAL],
            FsError::NameTooLong => host.numbers[AT_ENAMETOOLONG],
            FsError::PathEscape => host.numbers[AT_EACCES],
        }
    }

    /// The error of a failed system call, from the errno that the operating
    /// system gave, or the host's `EIO` where it gave none.
    pub fn from_raw_os_error(host: &HostErrnos, raw: Option<i32>) -> (r: FsError)
        ensures
            r == (FsError::Io { errno: raw.unwrap_or(host.number(AT_EIO)) }),
    {
        match raw {
            Some(errno) => FsError::Io { errno },
            None => FsError::Io { errno: host.numbers[AT_EIO] },
        }
    }
}

} // verus!
