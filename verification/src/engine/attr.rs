//! File attributes, apart from any platform's `stat` layout.
use crate::le;
use vstd::prelude::*;

verus! {

/// The file-type bits of a mode.
pub const S_IFMT: u32 = 0o170_000;

pub const S_IFDIR: u32 = 0o040_000;

pub const S_IFLNK: u32 = 0o120_000;

pub const S_IFREG: u32 = 0o100_000;

/// What `stat` reports of a file, in the widest form any platform uses.
#[derive(Debug, Clone, Copy, PartialEq, Eq, Structural)]
pub struct Stat {
    pub dev: u64,
    pub ino: u64,
    pub mode: u32,
    pub nlink: u64,
    pub uid: u32,
    pub gid: u32,
    pub rdev: u64,
    pub size: i64,
    pub blksize: i64,
    pub blocks: i64,
    pub atime: i64,
    pub atime_nsec: i64,
    pub mtime: i64,
    pub mtime_nsec: i64,
    pub ctime: i64,
    pub ctime_nsec: i64,
}

/// What `statvfs` reports of a filesystem.
#[derive(Debug, Clone, Copy, PartialEq, Eq, Structural)]
pub struct StatVfs {
    pub blocks: u64,
    pub bfree: u64,
    pub bavail: u64,
    pub files: u64,
    pub ffree: u64,
    pub bsize: u64,
    pub namemax: u64,
    pub frsize: u64,
}

/// The attributes of a file. Times are seconds and nanoseconds.
#[derive(Debug, Clone, Copy, PartialEq, Eq)]
pub struct Attr {
    pub ino: u64,
    pub size: u64,
    pub blocks: u64,
    pub atime: (i64, u32),
    pub mtime: (i64, u32),
    pub ctime: (i64, u32),
    pub mode: u32,
    pub nlink: u32,
    pub uid: u32,
    pub gid: u32,
    pub rdev: u32,
    pub blksize: u32,
}

/// The attributes that `st` describes, each cut to the width it has here.
pub open spec fn attr_of(st: Stat) -> Attr {
    Attr {
        ino: st.ino,
        size: le::unsigned64(st.size),
        blocks: le::unsigned64(st.blocks),
        atime: (st.atime, le::low32(le::unsigned64(st.atime_nsec))),
        mtime: (st.mtime, le::low32(le::unsigned64(st.mtime_nsec))),
        ctime: (st.ctime, le::low32(le::unsigned64(st.ctime_nsec))),
        mode: st.mode,
        nlink: le::low32(st.nlink),
        uid: st.uid,
        gid: st.gid,
        rdev: le::low32(st.rdev),
        blksize: le::low32(le::unsigned64(st.blksize)),
    }
}

/// Every attribute zero.
pub open spec fn attr_zero() -> Attr {
    Attr {
        ino: 0,
        size: 0,
        blocks: 0,
        atime: (0, 0),
        mtime: (0, 0),
        ctime: (0, 0),
        mode: 0,
        nlink: 0,
        uid: 0,
        gid: 0,
        rdev: 0,
        blksize: 0,
    }
}

impl Default for Attr {
    fn default() -> (a: Self)
        ensures
            a == attr_zero(),
    {
        Attr {
            ino: 0,
            size: 0,
            blocks: 0,
            atime: (0, 0),
            mtime: (0, 0),
            ctime: (0, 0),
            mode: 0,
            nlink: 0,
            uid: 0,
            gid: 0,
            rdev: 0,
            blksize: 0,
        }
    }
}

impl Attr {
    pub fn from_stat(st: &Stat) -> (a: Self)
        ensures
            a == attr_of(*st),
    {
        Attr {
            ino: st.ino,
            size: le::to_unsigned64(st.size),
            blocks: le::to_unsigned64(st.blocks),
            atime: (st.atime, le::to_low32(le::to_unsigned64(st.atime_nsec))),
            mtime: (st.mtime, le::to_low32(le::to_unsigned64(st.mtime_nsec))),
            ctime: (st.ctime, le::to_low32(le::to_unsigned64(st.ctime_nsec))),
            mode: st.mode,
            nlink: le::to_low32(st.nlink),
            uid: st.uid,
            gid: st.gid,
            rdev: le::to_low32(st.rdev),
            blksize: le::to_low32(le::to_unsigned64(st.blksize)),
        }
    }

    pub fn is_dir(&self) -> (b: bool)
        ensures
            b == (self.mode & S_IFMT == S_IFDIR),
    {
        (self.mode & S_IFMT) == S_IFDIR
    }

    pub fn is_symlink(&self) -> (b: bool)
        ensures
            b == (self.mode & S_IFMT == S_IFLNK),
    {
        (self.mode & S_IFMT) == S_IFLNK
    }

    pub fn is_regular(&self) -> (b: bool)
        ensures
            b == (self.mode & S_IFMT == S_IFREG),
    {
        (self.mode & S_IFMT) == S_IFREG
    }
}

/// The attributes that a client asks to change; `None` leaves one as it is.
#[derive(Debug, Clone, Copy, PartialEq, Eq)]
pub struct SetAttr {
    pub size: Option<u64>,
    pub mode: Option<u32>,
    pub uid: Option<u32>,
    pub gid: Option<u32>,
    pub atime: Option<(i64, u32)>,
    pub mtime: Option<(i64, u32)>,
}

impl Default for SetAttr {
    /// No change at all.
    fn default() -> (a: Self)
        ensures
            a == (SetAttr {
                size: None,
                mode: None,
                uid: None,
                gid: None,
                atime: None,
                mtime: None,
            }),
    {
        SetAttr { size: None, mode: None, uid: None, gid: None, atime: None, mtime: None }
    }
}

} // verus!
