//! The system calls that the engine asks for, and what comes back.
//!
//! A call names its files by the ids of the engine's tables, and the names in
//! it are relative to a directory that the tables hold open. Byte strings and
//! lists have the types `B` and `E`, so that one declaration serves for the
//! values at run time (`Vec`) and for those in contracts (`Seq`).
use crate::engine::attr::{Attr, SetAttr, Stat, StatVfs};
use crate::engine::error::FsResult;
use crate::engine::inode::FileKind;
use vstd::prelude::*;

verus! {

/// An entry of a directory.
#[derive(Debug, Clone)]
pub struct DirEntry<B> {
    pub name: B,
    pub ino: u64,
    pub kind: FileKind,
    pub next_offset: i64,
}

impl View for DirEntry<Vec<u8>> {
    type V = DirEntry<Seq<u8>>;

    open spec fn view(&self) -> DirEntry<Seq<u8>> {
        DirEntry {
            name: self.name@,
            ino: self.ino,
            kind: self.kind,
            next_offset: self.next_offset,
        }
    }
}

/// The list, with each entry taken by its view.
pub open spec fn entries_view(entries: Seq<DirEntry<Vec<u8>>>) -> Seq<DirEntry<Seq<u8>>> {
    entries.map_values(|e: DirEntry<Vec<u8>>| e@)
}

/// A system call that the engine asks for.
pub enum SysCall<F, B> {
    /// `fstatat` of `name` in the directory `dir`, not following a link.
    StatChild { dir: u64, name: B },
    /// `openat` of `name` in the directory `dir`.
    OpenChild { dir: u64, name: B, flags: i32 },
    /// `openat` with a mode for the file that is created.
    CreateChild { dir: u64, name: B, flags: i32, mode: u32 },
    /// `fcntl(F_DUPFD_CLOEXEC)` of the inode's reference descriptor.
    Duplicate { ino: u64 },
    /// `fstat` of the inode's reference descriptor.
    StatInode { ino: u64 },
    /// `ftruncate` of `fd`, which is then closed.
    Truncate { fd: F, size: u64 },
    /// `fchmodat`, not following a link.
    ChangeMode { dir: u64, name: B, mode: u32 },
    /// `fchownat`, not following a link; `u32::MAX` leaves an owner as it is.
    ChangeOwner { dir: u64, name: B, uid: u32, gid: u32 },
    /// `utimensat`, not following a link; `None` stands for `UTIME_OMIT`.
    SetTimes { dir: u64, name: B, atime: Option<(i64, u32)>, mtime: Option<(i64, u32)> },
    /// `mkdirat`.
    MakeDir { dir: u64, name: B, mode: u32 },
    /// `unlinkat`, with `AT_REMOVEDIR` for a directory.
    Remove { dir: u64, name: B, directory: bool },
    /// `renameat`.
    Rename { dir: u64, name: B, new_dir: u64, new_name: B },
    /// `symlinkat`.
    MakeSymlink { target: B, dir: u64, name: B },
    /// `readlinkat` into a buffer of `limit` bytes.
    ReadLink { dir: u64, name: B, limit: usize },
    /// `linkat` of the inode's reference descriptor (`AT_EMPTY_PATH`).
    LinkInode { ino: u64, new_dir: u64, new_name: B },
    /// `linkat` of `name` in the directory `dir`.
    LinkChild { dir: u64, name: B, new_dir: u64, new_name: B },
    /// `pread` of the open file `handle`.
    Read { handle: u64, offset: u64, len: usize },
    /// `pwrite` to the open file `handle`.
    Write { handle: u64, offset: u64, data: B },
    /// `fsync` of the open file `handle`.
    Sync { handle: u64 },
    /// `fdopendir` of `fd`.
    OpenDirStream { fd: F },
    /// `readdir` of the open directory `handle`, to its end.
    ReadDir { handle: u64 },
    /// `fstatvfs` of the inode's reference descriptor.
    StatFs { ino: u64 },
}

impl<F> View for SysCall<F, Vec<u8>> {
    type V = SysCall<F, Seq<u8>>;

    open spec fn view(&self) -> SysCall<F, Seq<u8>> {
        match *self {
            SysCall::StatChild { dir, name } => SysCall::StatChild { dir, name: name@ },
            SysCall::OpenChild { dir, name, flags } => SysCall::OpenChild {
                dir,
                name: name@,
                flags,
            },
            SysCall::CreateChild { dir, name, flags, mode } => SysCall::CreateChild {
                dir,
                name: name@,
                flags,
                mode,
            },
            SysCall::Duplicate { ino } => SysCall::Duplicate { ino },
            SysCall::StatInode { ino } => SysCall::StatInode { ino },
            SysCall::Truncate { fd, size } => SysCall::Truncate { fd, size },
            SysCall::ChangeMode { dir, name, mode } => SysCall::ChangeMode {
                dir,
                name: name@,
                mode,
            },
            SysCall::ChangeOwner { dir, name, uid, gid } => SysCall::ChangeOwner {
                dir,
                name: name@,
                uid,
                gid,
            },
            SysCall::SetTimes { dir, name, atime, mtime } => SysCall::SetTimes {
                dir,
                name: name@,
                atime,
                mtime,
            },
            SysCall::MakeDir { dir, name, mode } => SysCall::MakeDir { dir, name: name@, mode },
            SysCall::Remove { dir, name, directory } => SysCall::Remove {
                dir,
                name: name@,
                directory,
            },
            SysCall::Rename { dir, name, new_dir, new_name } => SysCall::Rename {
                dir,
                name: name@,
                new_dir,
                new_name: new_name@,
            },
            SysCall::MakeSymlink { target, dir, name } => SysCall::MakeSymlink {
                target: target@,
                dir,
                name: name@,
            },
            SysCall::ReadLink { dir, name, limit } => SysCall::ReadLink {
                dir,
                name: name@,
                limit,
            },
            SysCall::LinkInode { ino, new_dir, new_name } => SysCall::LinkInode {
                ino,
                new_dir,
                new_name: new_name@,
            },
            SysCall::LinkChild { dir, name, new_dir, new_name } => SysCall::LinkChild {
                dir,
                name: name@,
                new_dir,
                new_name: new_name@,
            },
            SysCall::Read { handle, offset, len } => SysCall::Read { handle, offset, len },
            SysCall::Write { handle, offset, data } => SysCall::Write {
                handle,
                offset,
                data: data@,
            },
            SysCall::Sync { handle } => SysCall::Sync { handle },
            SysCall::OpenDirStream { fd } => SysCall::OpenDirStream { fd },
            SysCall::ReadDir { handle } => SysCall::ReadDir { handle },
            SysCall::StatFs { ino } => SysCall::StatFs { ino },
        }
    }
}

/// What a system call gave.
pub enum SysResult<F, D, B, E> {
    /// It failed, with this errno.
    Failed { errno: i32 },
    /// It succeeded, with nothing to say.
    Done,
    Fd(F),
    Stat(Stat),
    Dir(D),
    Bytes(B),
    Count(usize),
    Entries(E),
    Vfs(StatVfs),
}

impl<F, D> View for SysResult<F, D, Vec<u8>, Vec<DirEntry<Vec<u8>>>> {
    type V = SysResult<F, D, Seq<u8>, Seq<DirEntry<Seq<u8>>>>;

    open spec fn view(&self) -> SysResult<F, D, Seq<u8>, Seq<DirEntry<Seq<u8>>>> {
        match *self {
            SysResult::Failed { errno } => SysResult::Failed { errno },
            SysResult::Done => SysResult::Done,
            SysResult::Fd(fd) => SysResult::Fd(fd),
            SysResult::Stat(st) => SysResult::Stat(st),
            SysResult::Dir(dir) => SysResult::Dir(dir),
            SysResult::Bytes(b) => SysResult::Bytes(b@),
            SysResult::Count(n) => SysResult::Count(n),
            SysResult::Entries(es) => SysResult::Entries(entries_view(es@)),
            SysResult::Vfs(st) => SysResult::Vfs(st),
        }
    }
}

/// What an operation of the engine gives when it succeeds.
pub enum FsOut<B, E> {
    Unit,
    Attr(Attr),
    /// A tracked inode with its attributes.
    Entry { ino: u64, attr: Attr },
    /// A new file, open under `handle`.
    Created { ino: u64, handle: u64, attr: Attr },
    Handle(u64),
    Bytes(B),
    Count(usize),
    Entries(E),
    Vfs(StatVfs),
}

impl View for FsOut<Vec<u8>, Vec<DirEntry<Vec<u8>>>> {
    type V = FsOut<Seq<u8>, Seq<DirEntry<Seq<u8>>>>;

    open spec fn view(&self) -> FsOut<Seq<u8>, Seq<DirEntry<Seq<u8>>>> {
        match *self {
            FsOut::Unit => FsOut::Unit,
            FsOut::Attr(attr) => FsOut::Attr(attr),
            FsOut::Entry { ino, attr } => FsOut::Entry { ino, attr },
            FsOut::Created { ino, handle, attr } => FsOut::Created { ino, handle, attr },
            FsOut::Handle(handle) => FsOut::Handle(handle),
            FsOut::Bytes(b) => FsOut::Bytes(b@),
            FsOut::Count(n) => FsOut::Count(n),
            FsOut::Entries(es) => FsOut::Entries(entries_view(es@)),
            FsOut::Vfs(st) => FsOut::Vfs(st),
        }
    }
}

/// What a lookup is for.
pub enum After<F> {
    /// Its result is the operation's.
    Entry,
    /// It follows the creation of a file, which is open as this descriptor.
    Create(F),
}

/// The part of changing attributes that comes next.
#[derive(Debug, Clone, Copy, PartialEq, Eq, Structural)]
pub enum Stage {
    Mode,
    Owner,
    Times,
    Report,
}

/// What is left of an operation once the call at hand has come back.
pub enum Task<F, B> {
    /// A lookup, whose file is being looked at.
    LookupStat { parent: u64, name: B, after: After<F> },
    /// A lookup, whose file is being opened.
    LookupOpen { parent: u64, name: B, st: Stat, after: After<F> },
    Getattr,
    /// A change of attributes, whose file is being opened for a new size.
    SetattrOpen { ino: u64, set: SetAttr, size: u64 },
    /// A change of attributes, whose file is getting a new size.
    SetattrSize { ino: u64, set: SetAttr },
    /// A change of attributes, in the middle of the rest.
    SetattrRest { ino: u64, set: SetAttr, dir: u64, name: B, stage: Stage },
    /// Something is being made at `(parent, name)`, to be looked up then.
    Make { parent: u64, name: B },
    /// A file is being created at `(parent, name)`.
    Create { parent: u64, name: B },
    /// A call after which nothing is left to do.
    Last,
    Rename { parent: u64, name: B, new_parent: u64, new_name: B },
    /// A hard link is being made.
    Link { ino: u64 },
    /// A hard link was made, and its file is being looked at.
    LinkStat { ino: u64 },
    Open,
    /// A directory is being opened.
    Opendir,
    /// A stream is being made of an open directory.
    OpendirStream,
    /// Bytes are being read, from a file or a symbolic link, this many at most.
    Read { limit: usize },
    Write,
    Readdir,
    Statfs,
}

impl<F> View for Task<F, Vec<u8>> {
    type V = Task<F, Seq<u8>>;

    open spec fn view(&self) -> Task<F, Seq<u8>> {
        match *self {
            Task::LookupStat { parent, name, after } => Task::LookupStat {
                parent,
                name: name@,
                after,
            },
            Task::LookupOpen { parent, name, st, after } => Task::LookupOpen {
                parent,
                name: name@,
                st,
                after,
            },
            Task::Getattr => Task::Getattr,
            Task::SetattrOpen { ino, set, size } => Task::SetattrOpen { ino, set, size },
            Task::SetattrSize { ino, set } => Task::SetattrSize { ino, set },
            Task::SetattrRest { ino, set, dir, name, stage } => Task::SetattrRest {
                ino,
                set,
                dir,
                name: name@,
                stage,
            },
            Task::Make { parent, name } => Task::Make { parent, name: name@ },
            Task::Create { parent, name } => Task::Create { parent, name: name@ },
            Task::Last => Task::Last,
            Task::Rename { parent, name, new_parent, new_name } => Task::Rename {
                parent,
                name: name@,
                new_parent,
                new_name: new_name@,
            },
            Task::Link { ino } => Task::Link { ino },
            Task::LinkStat { ino } => Task::LinkStat { ino },
            Task::Open => Task::Open,
            Task::Opendir => Task::Opendir,
            Task::OpendirStream => Task::OpendirStream,
            Task::Read { limit } => Task::Read { limit },
            Task::Write => Task::Write,
            Task::Readdir => Task::Readdir,
            Task::Statfs => Task::Statfs,
        }
    }
}

/// How far an operation has come: it asks for a call, and says what to do
/// with the outcome, or it is over.
pub enum Step<F, B, E> {
    Call(SysCall<F, B>, Task<F, B>),
    Done(FsResult<FsOut<B, E>>),
}

/// A step at run time.
pub type FsStep<F> = Step<F, Vec<u8>, Vec<DirEntry<Vec<u8>>>>;

/// A step in contracts.
pub type StepView<F> = Step<F, Seq<u8>, Seq<DirEntry<Seq<u8>>>>;

/// An outcome at run time.
pub type HostResult<F, D> = SysResult<F, D, Vec<u8>, Vec<DirEntry<Vec<u8>>>>;

/// An outcome in contracts.
pub type ResultView<F, D> = SysResult<F, D, Seq<u8>, Seq<DirEntry<Seq<u8>>>>;

impl<F> View for Step<F, Vec<u8>, Vec<DirEntry<Vec<u8>>>> {
    type V = Step<F, Seq<u8>, Seq<DirEntry<Seq<u8>>>>;

    open spec fn view(&self) -> Step<F, Seq<u8>, Seq<DirEntry<Seq<u8>>>> {
        match *self {
            Step::Call(call, task) => Step::Call(call@, task@),
            Step::Done(Ok(out)) => Step::Done(Ok(out@)),
            Step::Done(Err(e)) => Step::Done(Err(e)),
        }
    }
}

} // verus!
