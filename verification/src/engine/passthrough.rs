//! The passthrough filesystem engine: FUSE-shaped operations in terms of
//! system calls that are relative to directories it holds open.
//!
//! An operation is carried out in steps. Its method gives the first step:
//! either the result, or a system call to make and what is left to do. The
//! outcome of the call goes to [`PassthroughFs::resume`], which gives the next
//! step.
use crate::engine::attr::{attr_of, Attr, SetAttr, Stat};
use crate::engine::call::{
    entries_view, After, DirEntry, FsOut, FsStep, HostResult, ResultView, Stage, Step, StepView,
    SysCall, SysResult, Task,
};
use crate::engine::error::{FsError, FsResult};
use crate::engine::handle::{HandleData, HandleStore, HandleTable};
use crate::engine::inode::{kind_of, FileKind, InodeData, InodeStore, InodeTable, ROOT_ID};
use crate::engine::platform::{reference_open_flags, Platform};
use crate::host::{HostErrnos, AT_EIO};
use crate::octets;
use vstd::prelude::*;
use vstd::slice::slice_subrange;

verus! {

/// The longest target of a symbolic link that is read.
pub const READLINK_LIMIT: usize = 4096;

/// The error of a call that failed, or that gave something of another kind
/// than the engine asked for.
pub open spec fn call_error<F, D>(host: HostErrnos, result: ResultView<F, D>) -> FsError {
    match result {
        SysResult::Failed { errno } => FsError::Io { errno },
        _ => FsError::Io { errno: host.number(AT_EIO) },
    }
}

/// What a read into a buffer of `limit` bytes keeps of `b`.
pub open spec fn cut_to(b: Seq<u8>, limit: usize) -> Seq<u8> {
    if b.len() <= limit {
        b
    } else {
        b.take(limit as int)
    }
}

/// Whether a name is `.` or `..`.
pub open spec fn is_dot(name: Seq<u8>) -> bool {
    name == seq![46u8] || name == seq![46u8, 46u8]
}

/// A directory's entries without `.` and `..`.
pub open spec fn listed(entries: Seq<DirEntry<Seq<u8>>>) -> Seq<DirEntry<Seq<u8>>> {
    entries.filter(|e: DirEntry<Seq<u8>>| !is_dot(e.name)).map_values(
        |e: DirEntry<Seq<u8>>| DirEntry { next_offset: 0, ..e },
    )
}

/// The buffers of a gathering write, one after another.
pub open spec fn joined(parts: Seq<Vec<u8>>) -> Seq<u8>
    decreases parts.len(),
{
    if parts.len() == 0 {
        Seq::empty()
    } else {
        joined(parts.drop_last()) + parts.last()@
    }
}

/// How many bytes fit in buffers of these sizes together.
pub open spec fn total(sizes: Seq<usize>) -> int
    decreases sizes.len(),
{
    if sizes.len() == 0 {
        0
    } else {
        total(sizes.drop_last()) + sizes.last()
    }
}

/// What the `k`th of buffers of these sizes gets of `data`, when they are
/// filled in order: its share, or what is left, or nothing.
pub open spec fn share(data: Seq<u8>, sizes: Seq<usize>, k: int) -> Seq<u8> {
    let from = total(sizes.take(k));
    let to = total(sizes.take(k + 1));
    data.subrange(
        if from < data.len() {
            from
        } else {
            data.len() as int
        },
        if to < data.len() {
            to
        } else {
            data.len() as int
        },
    )
}

/// The engine, as a value.
#[verifier::ext_equal]
pub struct FsState<F, D> {
    pub inodes: InodeTable<F>,
    pub handles: HandleTable<F, D>,
    pub platform: Platform,
}

impl<F, D> FsState<F, D> {
    /// The last step of an operation that fails.
    pub open spec fn fails(self, e: FsError) -> StepView<F> {
        Step::Done(Err(e))
    }

    /// Whether `name` can stand for a child of the directory `dir`, or else
    /// why not.
    pub open spec fn child(self, dir: u64, name: Seq<u8>) -> FsResult<()> {
        if !self.inodes.tracks(dir) {
            Err(FsError::UnknownInode(dir))
        } else if name.contains(0u8) {
            Err(FsError::InvalidArgument("name contains NUL"))
        } else {
            Ok(())
        }
    }

    /// Where the inode `ino` was last seen.
    pub open spec fn located(self, ino: u64) -> FsResult<(u64, Seq<u8>)> {
        let inode = self.inodes.inodes[ino];
        let dir = match inode.parent {
            Some(parent) => parent,
            None => ROOT_ID,
        };
        match self.child(dir, inode.name) {
            Ok(_) => Ok((dir, inode.name)),
            Err(e) => Err(e),
        }
    }

    /// The call that opens the inode `ino` afresh: the root by its
    /// descriptor, any other by where it was last seen.
    pub open spec fn reopen(self, ino: u64, flags: i32) -> FsResult<SysCall<F, Seq<u8>>> {
        if !self.inodes.tracks(ino) {
            Err(FsError::UnknownInode(ino))
        } else if ino == ROOT_ID {
            Ok(SysCall::Duplicate { ino })
        } else {
            match self.located(ino) {
                Ok((dir, name)) => Ok(SysCall::OpenChild { dir, name, flags }),
                Err(e) => Err(e),
            }
        }
    }

    pub open spec fn lookup(self, parent: u64, name: Seq<u8>, after: After<F>) -> StepView<F> {
        match self.child(parent, name) {
            Ok(_) => Step::Call(
                SysCall::StatChild { dir: parent, name },
                Task::LookupStat { parent, name, after },
            ),
            Err(e) => self.fails(e),
        }
    }

    pub open spec fn getattr(self, ino: u64) -> StepView<F> {
        if self.inodes.tracks(ino) {
            Step::Call(SysCall::StatInode { ino }, Task::Getattr)
        } else {
            self.fails(FsError::UnknownInode(ino))
        }
    }

    pub open spec fn setattr(self, ino: u64, set: SetAttr) -> StepView<F> {
        if !self.inodes.tracks(ino) {
            self.fails(FsError::UnknownInode(ino))
        } else {
            match set.size {
                Some(size) => match self.reopen(ino, self.platform.wronly) {
                    Ok(call) => Step::Call(call, Task::SetattrOpen { ino, set, size }),
                    Err(e) => self.fails(e),
                },
                None => self.setattr_rest(ino, set),
            }
        }
    }

    /// A change of attributes, once the size is as it should be.
    pub open spec fn setattr_rest(self, ino: u64, set: SetAttr) -> StepView<F> {
        if !self.inodes.tracks(ino) {
            self.fails(FsError::UnknownInode(ino))
        } else if set.mode is Some || set.uid is Some || set.gid is Some || set.atime is Some
            || set.mtime is Some {
            match self.located(ino) {
                Ok((dir, name)) => self.setattr_at(ino, set, dir, name, Stage::Mode),
                Err(e) => self.fails(e),
            }
        } else {
            self.getattr(ino)
        }
    }

    /// A change of attributes from `stage` on: the mode, then the owner, then
    /// the times, each if it is asked for; then the attributes are reported.
    pub open spec fn setattr_at(
        self,
        ino: u64,
        set: SetAttr,
        dir: u64,
        name: Seq<u8>,
        stage: Stage,
    ) -> StepView<F> {
        if stage == Stage::Mode && set.mode is Some {
            Step::Call(
                SysCall::ChangeMode { dir, name, mode: set.mode->0 },
                Task::SetattrRest { ino, set, dir, name, stage: Stage::Owner },
            )
        } else if (stage == Stage::Mode || stage == Stage::Owner) && (set.uid is Some || set.gid
            is Some) {
            Step::Call(
                SysCall::ChangeOwner {
                    dir,
                    name,
                    uid: set.uid.unwrap_or(u32::MAX),
                    gid: set.gid.unwrap_or(u32::MAX),
                },
                Task::SetattrRest { ino, set, dir, name, stage: Stage::Times },
            )
        } else if stage != Stage::Report && (set.atime is Some || set.mtime is Some) {
            Step::Call(
                SysCall::SetTimes { dir, name, atime: set.atime, mtime: set.mtime },
                Task::SetattrRest { ino, set, dir, name, stage: Stage::Report },
            )
        } else {
            self.getattr(ino)
        }
    }

    pub open spec fn mkdir(self, parent: u64, name: Seq<u8>, mode: u32) -> StepView<F> {
        match self.child(parent, name) {
            Ok(_) => Step::Call(
                SysCall::MakeDir { dir: parent, name, mode },
                Task::Make { parent, name },
            ),
            Err(e) => self.fails(e),
        }
    }

    pub open spec fn create(self, parent: u64, name: Seq<u8>, flags: i32, mode: u32) -> StepView<
        F,
    > {
        match self.child(parent, name) {
            Ok(_) => Step::Call(
                SysCall::CreateChild {
                    dir: parent,
                    name,
                    flags: flags | self.platform.creat | self.platform.excl,
                    mode,
                },
                Task::Create { parent, name },
            ),
            Err(e) => self.fails(e),
        }
    }

    /// The removal of a file, or of a directory.
    pub open spec fn remove(self, parent: u64, name: Seq<u8>, directory: bool) -> StepView<F> {
        match self.child(parent, name) {
            Ok(_) => Step::Call(SysCall::Remove { dir: parent, name, directory }, Task::Last),
            Err(e) => self.fails(e),
        }
    }

    pub open spec fn rename(
        self,
        parent: u64,
        name: Seq<u8>,
        new_parent: u64,
        new_name: Seq<u8>,
    ) -> StepView<F> {
        if !self.inodes.tracks(parent) {
            self.fails(FsError::UnknownInode(parent))
        } else if !self.inodes.tracks(new_parent) {
            self.fails(FsError::UnknownInode(new_parent))
        } else if name.contains(0u8) || new_name.contains(0u8) {
            self.fails(FsError::InvalidArgument("name contains NUL"))
        } else {
            Step::Call(
                SysCall::Rename { dir: parent, name, new_dir: new_parent, new_name },
                Task::Rename { parent, name, new_parent, new_name },
            )
        }
    }

    pub open spec fn symlink(self, parent: u64, name: Seq<u8>, target: Seq<u8>) -> StepView<F> {
        match self.child(parent, name) {
            Ok(_) => if target.contains(0u8) {
                self.fails(FsError::InvalidArgument("name contains NUL"))
            } else {
                Step::Call(
                    SysCall::MakeSymlink { target, dir: parent, name },
                    Task::Make { parent, name },
                )
            },
            Err(e) => self.fails(e),
        }
    }

    pub open spec fn readlink(self, ino: u64) -> StepView<F> {
        if !self.inodes.tracks(ino) {
            self.fails(FsError::UnknownInode(ino))
        } else {
            match self.located(ino) {
                Ok((dir, name)) => Step::Call(
                    SysCall::ReadLink { dir, name, limit: READLINK_LIMIT },
                    Task::Read { limit: READLINK_LIMIT },
                ),
                Err(e) => self.fails(e),
            }
        }
    }

    pub open spec fn link(self, ino: u64, new_parent: u64, new_name: Seq<u8>) -> StepView<F> {
        if !self.inodes.tracks(ino) {
            self.fails(FsError::UnknownInode(ino))
        } else {
            match self.child(new_parent, new_name) {
                Ok(_) => if self.platform.link_by_descriptor {
                    Step::Call(
                        SysCall::LinkInode { ino, new_dir: new_parent, new_name },
                        Task::Link { ino },
                    )
                } else {
                    match self.located(ino) {
                        Ok((dir, name)) => Step::Call(
                            SysCall::LinkChild { dir, name, new_dir: new_parent, new_name },
                            Task::Link { ino },
                        ),
                        Err(e) => self.fails(e),
                    }
                },
                Err(e) => self.fails(e),
            }
        }
    }

    pub open spec fn open(self, ino: u64, flags: i32) -> StepView<F> {
        match self.reopen(ino, flags) {
            Ok(call) => Step::Call(call, Task::Open),
            Err(e) => self.fails(e),
        }
    }

    pub open spec fn opendir(self, ino: u64) -> StepView<F> {
        match self.reopen(ino, self.platform.rdonly | self.platform.directory) {
            Ok(call) => Step::Call(call, Task::Opendir),
            Err(e) => self.fails(e),
        }
    }

    pub open spec fn read(self, handle: u64, offset: u64, size: usize) -> StepView<F> {
        match self.handles.file(handle) {
            Ok(_) => Step::Call(
                SysCall::Read { handle, offset, len: size },
                Task::Read { limit: size },
            ),
            Err(e) => self.fails(e),
        }
    }

    pub open spec fn write(self, handle: u64, offset: u64, data: Seq<u8>) -> StepView<F> {
        match self.handles.file(handle) {
            Ok(_) => Step::Call(SysCall::Write { handle, offset, data }, Task::Write),
            Err(e) => self.fails(e),
        }
    }

    pub open spec fn fsync(self, handle: u64) -> StepView<F> {
        match self.handles.file(handle) {
            Ok(_) => Step::Call(SysCall::Sync { handle }, Task::Last),
            Err(e) => self.fails(e),
        }
    }

    pub open spec fn readdir(self, handle: u64) -> StepView<F> {
        match self.handles.dir(handle) {
            Ok(_) => Step::Call(SysCall::ReadDir { handle }, Task::Readdir),
            Err(e) => self.fails(e),
        }
    }

    pub open spec fn statfs(self, ino: u64) -> StepView<F> {
        if self.inodes.tracks(ino) {
            Step::Call(SysCall::StatFs { ino }, Task::Statfs)
        } else {
            self.fails(FsError::UnknownInode(ino))
        }
    }

    /// The result of closing a handle.
    pub open spec fn released(self, handle: u64) -> FsResult<()> {
        if self.handles.open.contains_key(handle) {
            Ok(())
        } else {
            Err(FsError::UnknownHandle(handle))
        }
    }

    /// The engine with the file of `st` looked up at `(parent, name)`.
    pub open spec fn registered(self, parent: u64, name: Seq<u8>, fd: F, st: Stat) -> Self {
        FsState { inodes: self.inodes.registered(parent, name, fd, st), ..self }
    }

    /// The engine with a handle for `data`.
    pub open spec fn opened(self, data: HandleData<F, D>) -> Self {
        FsState { handles: self.handles.inserted(data), ..self }
    }

    /// What becomes of the engine, and what comes next, when the call of
    /// `task` gives `result`. A rename's effect is
    /// [`InodeTable::follows_rename`] instead.
    pub open spec fn resumed(self, task: Task<F, Seq<u8>>, result: ResultView<F, D>) -> (
        Self,
        StepView<F>,
    ) {
        match (task, result) {
            (Task::LookupStat { parent, name, after }, SysResult::Stat(st)) => (
                self,
                Step::Call(
                    SysCall::OpenChild {
                        dir: parent,
                        name,
                        flags: self.platform.reference_flags(kind_of(st.mode)),
                    },
                    Task::LookupOpen { parent, name, st, after },
                ),
            ),
            (Task::LookupOpen { parent, name, st, after }, SysResult::Fd(fd)) => {
                let now = self.registered(parent, name, fd, st);
                let ino = self.inodes.registered_id(st);
                let attr = attr_of(st);
                match after {
                    After::Entry => (now, Step::Done(Ok(FsOut::Entry { ino, attr }))),
                    After::Create(file) => (
                        now.opened(HandleData::File(file)),
                        Step::Done(
                            Ok(FsOut::Created { ino, handle: self.handles.next_id, attr }),
                        ),
                    ),
                }
            },
            (Task::Getattr, SysResult::Stat(st)) => (
                self,
                Step::Done(Ok(FsOut::Attr(attr_of(st)))),
            ),
            (Task::SetattrOpen { ino, set, size }, SysResult::Fd(fd)) => (
                self,
                Step::Call(SysCall::Truncate { fd, size }, Task::SetattrSize { ino, set }),
            ),
            (Task::SetattrSize { ino, set }, SysResult::Done) => (
                self,
                self.setattr_rest(ino, set),
            ),
            (Task::SetattrRest { ino, set, dir, name, stage }, SysResult::Done) => (
                self,
                self.setattr_at(ino, set, dir, name, stage),
            ),
            (Task::Make { parent, name }, SysResult::Done) => (
                self,
                self.lookup(parent, name, After::Entry),
            ),
            (Task::Create { parent, name }, SysResult::Fd(fd)) => (
                self,
                self.lookup(parent, name, After::Create(fd)),
            ),
            (Task::Last, SysResult::Done) => (self, Step::Done(Ok(FsOut::Unit))),
            (Task::Rename { .. }, SysResult::Done) => (self, Step::Done(Ok(FsOut::Unit))),
            (Task::Link { ino }, SysResult::Done) => (
                self,
                if self.inodes.tracks(ino) {
                    Step::Call(SysCall::StatInode { ino }, Task::LinkStat { ino })
                } else {
                    self.fails(FsError::UnknownInode(ino))
                },
            ),
            (Task::LinkStat { ino }, SysResult::Stat(st)) => (
                self,
                Step::Done(Ok(FsOut::Entry { ino, attr: attr_of(st) })),
            ),
            (Task::Open, SysResult::Fd(fd)) => (
                self.opened(HandleData::File(fd)),
                Step::Done(Ok(FsOut::Handle(self.handles.next_id))),
            ),
            (Task::Opendir, SysResult::Fd(fd)) => (
                self,
                Step::Call(SysCall::OpenDirStream { fd }, Task::OpendirStream),
            ),
            (Task::OpendirStream, SysResult::Dir(dir)) => (
                self.opened(HandleData::Dir(dir)),
                Step::Done(Ok(FsOut::Handle(self.handles.next_id))),
            ),
            (Task::Read { limit }, SysResult::Bytes(b)) => (
                self,
                Step::Done(Ok(FsOut::Bytes(cut_to(b, limit)))),
            ),
            (Task::Write, SysResult::Count(n)) => (self, Step::Done(Ok(FsOut::Count(n)))),
            (Task::Readdir, SysResult::Entries(es)) => (
                self,
                Step::Done(Ok(FsOut::Entries(listed(es)))),
            ),
            (Task::Statfs, SysResult::Vfs(st)) => (self, Step::Done(Ok(FsOut::Vfs(st)))),
            _ => (self, self.fails(call_error(self.platform.errnos, result))),
        }
    }

    /// Whether the engine may become `after` when the call of `task` gives
    /// `result`.
    pub open spec fn becomes(
        self,
        task: Task<F, Seq<u8>>,
        result: ResultView<F, D>,
        after: Self,
    ) -> bool {
        match (task, result) {
            (Task::Rename { parent, name, new_parent, new_name }, SysResult::Done) => {
                &&& self.inodes.follows_rename(after.inodes, parent, name, new_parent, new_name)
                &&& after.handles == self.handles
                &&& after.platform == self.platform
            },
            _ => after == self.resumed(task, result).0,
        }
    }
}

/// The passthrough engine. `F` is the type of an open descriptor, and `D` that
/// of an open directory stream.
pub struct PassthroughFs<F, D> {
    inodes: InodeStore<F>,
    handles: HandleStore<F, D>,
    platform: Platform,
}

impl<F, D> View for PassthroughFs<F, D> {
    type V = FsState<F, D>;

    closed spec fn view(&self) -> FsState<F, D> {
        FsState { inodes: self.inodes@, handles: self.handles@, platform: self.platform }
    }
}

/// Checks that a name has no NUL in it, as the host's calls need.
fn check_name(name: &[u8]) -> (r: FsResult<()>)
    ensures
        name@.contains(0u8) ==> r == Err::<(), _>(FsError::InvalidArgument("name contains NUL")),
        !name@.contains(0u8) ==> r == Ok::<(), FsError>(()),
{
    if octets::has_nul(name) {
        Err(FsError::InvalidArgument("name contains NUL"))
    } else {
        Ok(())
    }
}

/// The last step of an operation that fails.
fn failed<F>(e: FsError) -> (r: FsStep<F>)
    ensures
        r@ == Step::<F, Seq<u8>, Seq<DirEntry<Seq<u8>>>>::Done(Err(e)),
{
    Step::Done(Err(e))
}

impl<F, D> PassthroughFs<F, D> {
    /// The tables are well formed.
    pub closed spec fn wf(&self) -> bool {
        self.inodes.wf()
    }

    /// What a well-formed engine stands for is well formed.
    pub proof fn lemma_wf(&self)
        requires
            self.wf(),
        ensures
            self@.inodes.wf(),
    {
        self.inodes.lemma_wf();
    }

    /// An engine that shares the directory open as `root_fd`.
    pub fn new(root_fd: F, root_stat: &Stat, platform: Platform) -> (fs: Self)
        ensures
            fs.wf(),
            fs@.platform == platform,
            fs@.handles == (HandleTable {
                open: Map::<u64, HandleData<F, D>>::empty(),
                next_id: 1,
            }),
            fs@.inodes.next_id == 2,
            fs@.inodes.inodes.dom() == set![ROOT_ID],
            fs@.inodes.inodes[ROOT_ID].fd == root_fd,
            fs@.inodes.inodes[ROOT_ID].kind == FileKind::Dir,
            fs@.inodes.inodes[ROOT_ID].key == (root_stat.dev, root_stat.ino),
            fs@.inodes.inodes[ROOT_ID].parent is None,
            fs@.inodes.inodes[ROOT_ID].name == Seq::<u8>::empty(),
            fs@.inodes.inodes[ROOT_ID].lookups == 1,
    {
        let fs = PassthroughFs {
            inodes: InodeStore::new(root_fd, root_stat),
            handles: HandleStore::new(),
            platform,
        };
        assert(fs@.inodes.inodes.dom() =~= set![ROOT_ID]);
        fs
    }

    /// What the host calls its errors.
    pub fn errnos(&self) -> (r: &HostErrnos)
        ensures
            *r == self@.platform.errnos,
    {
        &self.platform.errnos
    }

    /// How many inodes are tracked.
    pub fn inode_count(&self) -> (n: usize)
        ensures
            self@.inodes.inodes.dom().finite(),
            n == self@.inodes.inodes.len(),
    {
        self.inodes.len()
    }

    /// How many handles are open.
    pub fn handle_count(&self) -> (n: usize)
        ensures
            self@.handles.open.dom().finite(),
            n == self@.handles.open.len(),
    {
        self.handles.len()
    }

    /// Whether there is an id left for one more inode.
    pub fn has_room(&self) -> (b: bool)
        ensures
            b == (self@.inodes.next_id < u64::MAX),
    {
        self.inodes.has_room()
    }

    fn inode(&self, id: u64) -> (r: FsResult<&InodeData<F>>)
        ensures
            self@.inodes.tracks(id) ==> (r matches Ok(d) && d@ == self@.inodes.inodes[id]),
            !self@.inodes.tracks(id) ==> r == Err::<&InodeData<F>, FsError>(
                FsError::UnknownInode(id),
            ),
    {
        self.inodes.get(id)
    }

    /// The reference descriptor of the inode `id`.
    pub fn inode_fd(&self, id: u64) -> (r: FsResult<&F>)
        ensures
            self@.inodes.tracks(id) ==> r == Ok::<&F, FsError>(&self@.inodes.inodes[id].fd),
            !self@.inodes.tracks(id) ==> r == Err::<&F, FsError>(FsError::UnknownInode(id)),
    {
        let data = self.inode(id)?;
        Ok(data.raw_fd())
    }

    /// The descriptor of the open file `handle`.
    pub fn file(&self, handle: u64) -> (r: FsResult<&F>)
        ensures
            self@.handles.file(handle) matches Ok(fd) ==> r == Ok::<&F, FsError>(&fd),
            self@.handles.file(handle) matches Err(e) ==> r == Err::<&F, FsError>(e),
    {
        self.handles.file(handle)
    }

    /// The stream of the open directory `handle`.
    pub fn dir(&self, handle: u64) -> (r: FsResult<&D>)
        ensures
            self@.handles.dir(handle) matches Ok(dir) ==> r == Ok::<&D, FsError>(&dir),
            self@.handles.dir(handle) matches Err(e) ==> r == Err::<&D, FsError>(e),
    {
        self.handles.dir(handle)
    }

    /// Checks that `name` can stand for a child of the directory `dir`.
    fn child(&self, dir: u64, name: &[u8]) -> (r: FsResult<()>)
        ensures
            r == self@.child(dir, name@),
    {
        self.inode(dir)?;
        check_name(name)
    }

    /// Where the inode `ino` was last seen.
    fn parent_and_name(&self, ino: u64) -> (r: FsResult<(u64, Vec<u8>)>)
        ensures
            !self@.inodes.tracks(ino) ==> r == Err::<(u64, Vec<u8>), FsError>(
                FsError::UnknownInode(ino),
            ),
            self@.inodes.tracks(ino) ==> match self@.located(ino) {
                Ok((dir, name)) => r matches Ok((d, n)) && d == dir && n@ == name,
                Err(e) => r == Err::<(u64, Vec<u8>), FsError>(e),
            },
    {
        let data = self.inode(ino)?;
        let dir: u64 = match data.parent() {
            Some(parent) => parent,
            None => ROOT_ID,
        };
        let name = data.name();
        self.child(dir, name.as_slice())?;
        Ok((dir, octets::copied(name.as_slice())))
    }

    /// The call that opens the inode `ino` with exactly these flags, for when
    /// its reference descriptor is not enough.
    fn reopen_via_parent(&self, ino: u64, flags: i32) -> (r: FsResult<SysCall<F, Vec<u8>>>)
        ensures
            self@.reopen(ino, flags) matches Ok(call) ==> (r matches Ok(c) && c@ == call),
            self@.reopen(ino, flags) matches Err(e) ==> (r matches Err(x) && x == e),
    {
        self.inode(ino)?;
        if ino == ROOT_ID {
            return Ok(SysCall::Duplicate { ino });
        }
        let (dir, name) = self.parent_and_name(ino)?;
        Ok(SysCall::OpenChild { dir, name, flags })
    }

    /// A lookup, and what it is for.
    fn lookup_for(&self, parent: u64, name: &[u8], after: After<F>) -> (r: FsStep<F>)
        ensures
            r@ == self@.lookup(parent, name@, after),
    {
        match self.child(parent, name) {
            Ok(_) => Step::Call(
                SysCall::StatChild { dir: parent, name: octets::copied(name) },
                Task::LookupStat { parent, name: octets::copied(name), after },
            ),
            Err(e) => failed(e),
        }
    }

    /// Finds the child `name` of the directory `parent` and tracks it. Gives
    /// [`FsOut::Entry`].
    pub fn lookup(&self, parent: u64, name: &[u8]) -> (r: FsStep<F>)
        ensures
            r@ == self@.lookup(parent, name@, After::Entry),
    {
        self.lookup_for(parent, name, After::Entry)
    }

    /// Drops `count` lookups of the inode `ino`.
    pub fn forget(&mut self, ino: u64, count: u64)
        requires
            old(self).wf(),
        ensures
            final(self).wf(),
            final(self)@ == (FsState {
                inodes: old(self)@.inodes.forgotten(ino, count),
                ..old(self)@
            }),
    {
        self.inodes.forget(ino, count);
    }

    /// The attributes of the inode `ino`. Gives [`FsOut::Attr`].
    pub fn getattr(&self, ino: u64) -> (r: FsStep<F>)
        ensures
            r@ == self@.getattr(ino),
    {
        match self.inode(ino) {
            Ok(_) => Step::Call(SysCall::StatInode { ino }, Task::Getattr),
            Err(e) => failed(e),
        }
    }

    /// Changes attributes of the inode `ino`. Gives [`FsOut::Attr`], with the
    /// attributes after the change.
    pub fn setattr(&self, ino: u64, attr: &SetAttr) -> (r: FsStep<F>)
        ensures
            r@ == self@.setattr(ino, *attr),
    {
        match self.inode(ino) {
            Ok(_) => match attr.size {
                Some(size) => match self.reopen_via_parent(ino, self.platform.wronly) {
                    Ok(call) => Step::Call(call, Task::SetattrOpen { ino, set: *attr, size }),
                    Err(e) => failed(e),
                },
                None => self.setattr_rest(ino, *attr),
            },
            Err(e) => failed(e),
        }
    }

    fn setattr_rest(&self, ino: u64, set: SetAttr) -> (r: FsStep<F>)
        ensures
            r@ == self@.setattr_rest(ino, set),
    {
        match self.inode(ino) {
            Ok(_) => {
                if set.mode.is_some() || set.uid.is_some() || set.gid.is_some()
                    || set.atime.is_some() || set.mtime.is_some() {
                    match self.parent_and_name(ino) {
                        Ok((dir, name)) => self.setattr_at(ino, set, dir, name, Stage::Mode),
                        Err(e) => failed(e),
                    }
                } else {
                    self.getattr(ino)
                }
            },
            Err(e) => failed(e),
        }
    }

    fn setattr_at(&self, ino: u64, set: SetAttr, dir: u64, name: Vec<u8>, stage: Stage) -> (r:
        FsStep<F>)
        ensures
            r@ == self@.setattr_at(ino, set, dir, name@, stage),
    {
        let again = octets::copied(name.as_slice());
        if stage == Stage::Mode {
            if let Some(mode) = set.mode {
                return Step::Call(
                    SysCall::ChangeMode { dir, name, mode },
                    Task::SetattrRest { ino, set, dir, name: again, stage: Stage::Owner },
                );
            }
        }
        if (stage == Stage::Mode || stage == Stage::Owner) && (set.uid.is_some()
            || set.gid.is_some()) {
            let uid: u32 = match set.uid {
                Some(uid) => uid,
                None => u32::MAX,
            };
            let gid: u32 = match set.gid {
                Some(gid) => gid,
                None => u32::MAX,
            };
            return Step::Call(
                SysCall::ChangeOwner { dir, name, uid, gid },
                Task::SetattrRest { ino, set, dir, name: again, stage: Stage::Times },
            );
        }
        if stage != Stage::Report && (set.atime.is_some() || set.mtime.is_some()) {
            return Step::Call(
                SysCall::SetTimes { dir, name, atime: set.atime, mtime: set.mtime },
                Task::SetattrRest { ino, set, dir, name: again, stage: Stage::Report },
            );
        }
        self.getattr(ino)
    }

    /// Makes a directory and looks it up. Gives [`FsOut::Entry`].
    pub fn mkdir(&self, parent: u64, name: &[u8], mode: u32) -> (r: FsStep<F>)
        ensures
            r@ == self@.mkdir(parent, name@, mode),
    {
        match self.child(parent, name) {
            Ok(_) => Step::Call(
                SysCall::MakeDir { dir: parent, name: octets::copied(name), mode },
                Task::Make { parent, name: octets::copied(name) },
            ),
            Err(e) => failed(e),
        }
    }

    /// Creates a file that must not exist, looks it up, and opens a handle on
    /// it. Gives [`FsOut::Created`].
    pub fn create(&self, parent: u64, name: &[u8], flags: i32, mode: u32) -> (r: FsStep<F>)
        ensures
            r@ == self@.create(parent, name@, flags, mode),
    {
        match self.child(parent, name) {
            Ok(_) => Step::Call(
                SysCall::CreateChild {
                    dir: parent,
                    name: octets::copied(name),
                    flags: flags | self.platform.creat | self.platform.excl,
                    mode,
                },
                Task::Create { parent, name: octets::copied(name) },
            ),
            Err(e) => failed(e),
        }
    }

    fn remove(&self, parent: u64, name: &[u8], directory: bool) -> (r: FsStep<F>)
        ensures
            r@ == self@.remove(parent, name@, directory),
    {
        match self.child(parent, name) {
            Ok(_) => Step::Call(
                SysCall::Remove { dir: parent, name: octets::copied(name), directory },
                Task::Last,
            ),
            Err(e) => failed(e),
        }
    }

    /// Removes a file. Gives [`FsOut::Unit`].
    pub fn unlink(&self, parent: u64, name: &[u8]) -> (r: FsStep<F>)
        ensures
            r@ == self@.remove(parent, name@, false),
    {
        self.remove(parent, name, false)
    }

    /// Removes a directory. Gives [`FsOut::Unit`].
    pub fn rmdir(&self, parent: u64, name: &[u8]) -> (r: FsStep<F>)
        ensures
            r@ == self@.remove(parent, name@, true),
    {
        self.remove(parent, name, true)
    }

    /// Renames a file. Gives [`FsOut::Unit`].
    pub fn rename(&self, parent: u64, name: &[u8], new_parent: u64, new_name: &[u8]) -> (r: FsStep<
        F,
    >)
        ensures
            r@ == self@.rename(parent, name@, new_parent, new_name@),
    {
        if let Err(e) = self.inode(parent) {
            return failed(e);
        }
        if let Err(e) = self.inode(new_parent) {
            return failed(e);
        }
        if let Err(e) = check_name(name) {
            return failed(e);
        }
        if let Err(e) = check_name(new_name) {
            return failed(e);
        }
        Step::Call(
            SysCall::Rename {
                dir: parent,
                name: octets::copied(name),
                new_dir: new_parent,
                new_name: octets::copied(new_name),
            },
            Task::Rename {
                parent,
                name: octets::copied(name),
                new_parent,
                new_name: octets::copied(new_name),
            },
        )
    }

    /// Makes a symbolic link and looks it up. Gives [`FsOut::Entry`].
    pub fn symlink(&self, parent: u64, name: &[u8], target: &[u8]) -> (r: FsStep<F>)
        ensures
            r@ == self@.symlink(parent, name@, target@),
    {
        if let Err(e) = self.child(parent, name) {
            return failed(e);
        }
        if let Err(e) = check_name(target) {
            return failed(e);
        }
        Step::Call(
            SysCall::MakeSymlink {
                target: octets::copied(target),
                dir: parent,
                name: octets::copied(name),
            },
            Task::Make { parent, name: octets::copied(name) },
        )
    }

    /// The target of a symbolic link. Gives [`FsOut::Bytes`].
    pub fn readlink(&self, ino: u64) -> (r: FsStep<F>)
        ensures
            r@ == self@.readlink(ino),
    {
        match self.parent_and_name(ino) {
            Ok((dir, name)) => Step::Call(
                SysCall::ReadLink { dir, name, limit: READLINK_LIMIT },
                Task::Read { limit: READLINK_LIMIT },
            ),
            Err(e) => failed(e),
        }
    }

    /// Makes a hard link to the inode `ino`. Gives [`FsOut::Entry`], with the
    /// attributes after the change.
    pub fn link(&self, ino: u64, new_parent: u64, new_name: &[u8]) -> (r: FsStep<F>)
        ensures
            r@ == self@.link(ino, new_parent, new_name@),
    {
        if let Err(e) = self.inode(ino) {
            return failed(e);
        }
        if let Err(e) = self.child(new_parent, new_name) {
            return failed(e);
        }
        let new_name = octets::copied(new_name);
        if self.platform.link_by_descriptor {
            return Step::Call(
                SysCall::LinkInode { ino, new_dir: new_parent, new_name },
                Task::Link { ino },
            );
        }
        match self.parent_and_name(ino) {
            Ok((dir, name)) => Step::Call(
                SysCall::LinkChild { dir, name, new_dir: new_parent, new_name },
                Task::Link { ino },
            ),
            Err(e) => failed(e),
        }
    }

    /// Opens a handle on the inode `ino`. Gives [`FsOut::Handle`].
    pub fn open(&self, ino: u64, flags: i32) -> (r: FsStep<F>)
        ensures
            r@ == self@.open(ino, flags),
    {
        match self.reopen_via_parent(ino, flags) {
            Ok(call) => Step::Call(call, Task::Open),
            Err(e) => failed(e),
        }
    }

    /// Reads up to `size` bytes at `offset`. Gives [`FsOut::Bytes`].
    pub fn read(&self, handle: u64, offset: u64, size: usize) -> (r: FsStep<F>)
        ensures
            r@ == self@.read(handle, offset, size),
    {
        match self.handles.file(handle) {
            Ok(_) => Step::Call(
                SysCall::Read { handle, offset, len: size },
                Task::Read { limit: size },
            ),
            Err(e) => failed(e),
        }
    }

    /// Writes `data` at `offset`. Gives [`FsOut::Count`].
    pub fn write(&self, handle: u64, offset: u64, data: &[u8]) -> (r: FsStep<F>)
        ensures
            r@ == self@.write(handle, offset, data@),
    {
        match self.handles.file(handle) {
            Ok(_) => Step::Call(
                SysCall::Write { handle, offset, data: octets::copied(data) },
                Task::Write,
            ),
            Err(e) => failed(e),
        }
    }

    /// Writes the buffers one after another at `offset`, as one write. Gives
    /// [`FsOut::Count`].
    pub fn write_vectored(&self, handle: u64, offset: u64, parts: &[Vec<u8>]) -> (r: FsStep<F>)
        ensures
            r@ == self@.write(handle, offset, joined(parts@)),
    {
        let mut data: Vec<u8> = Vec::new();
        let mut i: usize = 0;
        assert(parts@.take(0) =~= Seq::empty());
        while i < parts.len()
            invariant
                i <= parts.len(),
                data@ == joined(parts@.take(i as int)),
            decreases parts.len() - i,
        {
            assert(parts@.take(i as int + 1).drop_last() =~= parts@.take(i as int));
            octets::append(&mut data, parts[i].as_slice());
            i += 1;
        }
        assert(parts@.take(i as int) =~= parts@);
        self.write(handle, offset, data.as_slice())
    }

    /// Reads at `offset` what fits in buffers of these sizes, as one read.
    /// Gives [`FsOut::Bytes`], to be put into the buffers by [`scatter`].
    pub fn read_vectored(&self, handle: u64, offset: u64, sizes: &[usize]) -> (r: FsStep<F>)
        requires
            total(sizes@) <= usize::MAX,
        ensures
            r@ == self@.read(handle, offset, total(sizes@) as usize),
    {
        let mut sum: usize = 0;
        let mut i: usize = 0;
        assert(sizes@.take(0) =~= Seq::empty());
        while i < sizes.len()
            invariant
                i <= sizes.len(),
                sum == total(sizes@.take(i as int)),
                total(sizes@) <= usize::MAX,
            decreases sizes.len() - i,
        {
            proof {
                assert(sizes@.take(i as int + 1).drop_last() =~= sizes@.take(i as int));
                lemma_total_grows(sizes@, i as int + 1);
            }
            sum = sum + sizes[i];
            i += 1;
        }
        assert(sizes@.take(i as int) =~= sizes@);
        self.read(handle, offset, sum)
    }

    /// Makes an open file's data durable. Gives [`FsOut::Unit`].
    pub fn fsync(&self, handle: u64) -> (r: FsStep<F>)
        ensures
            r@ == self@.fsync(handle),
    {
        match self.handles.file(handle) {
            Ok(_) => Step::Call(SysCall::Sync { handle }, Task::Last),
            Err(e) => failed(e),
        }
    }

    /// Closes a handle.
    pub fn release(&mut self, handle: u64) -> (r: FsResult<()>)
        requires
            old(self).wf(),
        ensures
            final(self).wf(),
            r == old(self)@.released(handle),
            final(self)@ == (FsState {
                handles: old(self)@.handles.removed(handle),
                ..old(self)@
            }),
    {
        self.handles.remove(handle)?;
        Ok(())
    }

    /// Opens a handle on the directory `ino`. Gives [`FsOut::Handle`].
    pub fn opendir(&self, ino: u64) -> (r: FsStep<F>)
        ensures
            r@ == self@.opendir(ino),
    {
        match self.reopen_via_parent(ino, self.platform.rdonly | self.platform.directory) {
            Ok(call) => Step::Call(call, Task::Opendir),
            Err(e) => failed(e),
        }
    }

    /// The entries of an open directory, without `.` and `..`. Gives
    /// [`FsOut::Entries`].
    pub fn readdir(&self, handle: u64) -> (r: FsStep<F>)
        ensures
            r@ == self@.readdir(handle),
    {
        match self.handles.dir(handle) {
            Ok(_) => Step::Call(SysCall::ReadDir { handle }, Task::Readdir),
            Err(e) => failed(e),
        }
    }

    /// Closes a directory handle.
    pub fn releasedir(&mut self, handle: u64) -> (r: FsResult<()>)
        requires
            old(self).wf(),
        ensures
            final(self).wf(),
            r == old(self)@.released(handle),
            final(self)@ == (FsState {
                handles: old(self)@.handles.removed(handle),
                ..old(self)@
            }),
    {
        self.handles.remove(handle)?;
        Ok(())
    }

    /// The state of the filesystem that holds the inode `ino`. Gives
    /// [`FsOut::Vfs`].
    pub fn statfs(&self, ino: u64) -> (r: FsStep<F>)
        ensures
            r@ == self@.statfs(ino),
    {
        match self.inode(ino) {
            Ok(_) => Step::Call(SysCall::StatFs { ino }, Task::Statfs),
            Err(e) => failed(e),
        }
    }

    /// Goes on with an operation: `result` is what the call of `task` gave. A
    /// failed call ends the operation with the call's errno, and so does an
    /// outcome of another kind than was asked for, with `EIO`.
    pub fn resume(&mut self, task: Task<F, Vec<u8>>, result: HostResult<F, D>) -> (r: FsStep<F>)
        requires
            old(self).wf(),
            old(self)@.inodes.next_id < u64::MAX,
        ensures
            final(self).wf(),
            old(self)@.becomes(task@, result@, final(self)@),
            r@ == old(self)@.resumed(task@, result@).1,
    {
        match (task, result) {
            (Task::LookupStat { parent, name, after }, SysResult::Stat(st)) => {
                let kind = FileKind::from_mode(st.mode);
                let flags: i32 = reference_open_flags(
                    &self.platform,
                    kind == FileKind::Dir,
                    kind == FileKind::Symlink,
                );
                let again = octets::copied(name.as_slice());
                Step::Call(
                    SysCall::OpenChild { dir: parent, name, flags },
                    Task::LookupOpen { parent, name: again, st, after },
                )
            },
            (Task::LookupOpen { parent, name, st, after }, SysResult::Fd(fd)) => {
                let ino: u64 = self.inodes.register(parent, name, fd, &st);
                let attr = Attr::from_stat(&st);
                match after {
                    After::Entry => Step::Done(Ok(FsOut::Entry { ino, attr })),
                    After::Create(file) => {
                        let handle: u64 = self.handles.insert(HandleData::File(file));
                        Step::Done(Ok(FsOut::Created { ino, handle, attr }))
                    },
                }
            },
            (Task::Getattr, SysResult::Stat(st)) => Step::Done(
                Ok(FsOut::Attr(Attr::from_stat(&st))),
            ),
            (Task::SetattrOpen { ino, set, size }, SysResult::Fd(fd)) => Step::Call(
                SysCall::Truncate { fd, size },
                Task::SetattrSize { ino, set },
            ),
            (Task::SetattrSize { ino, set }, SysResult::Done) => self.setattr_rest(ino, set),
            (Task::SetattrRest { ino, set, dir, name, stage }, SysResult::Done) => self.setattr_at(
                ino,
                set,
                dir,
                name,
                stage,
            ),
            (Task::Make { parent, name }, SysResult::Done) => self.lookup_for(
                parent,
                name.as_slice(),
                After::Entry,
            ),
            (Task::Create { parent, name }, SysResult::Fd(fd)) => self.lookup_for(
                parent,
                name.as_slice(),
                After::Create(fd),
            ),
            (Task::Last, SysResult::Done) => Step::Done(Ok(FsOut::Unit)),
            (Task::Rename { parent, name, new_parent, new_name }, SysResult::Done) => {
                self.inodes.note_rename(parent, name.as_slice(), new_parent, new_name);
                Step::Done(Ok(FsOut::Unit))
            },
            (Task::Link { ino }, SysResult::Done) => match self.inode(ino) {
                Ok(_) => Step::Call(SysCall::StatInode { ino }, Task::LinkStat { ino }),
                Err(e) => failed(e),
            },
            (Task::LinkStat { ino }, SysResult::Stat(st)) => Step::Done(
                Ok(FsOut::Entry { ino, attr: Attr::from_stat(&st) }),
            ),
            (Task::Open, SysResult::Fd(fd)) => {
                let handle: u64 = self.handles.insert(HandleData::File(fd));
                Step::Done(Ok(FsOut::Handle(handle)))
            },
            (Task::Opendir, SysResult::Fd(fd)) => Step::Call(
                SysCall::OpenDirStream { fd },
                Task::OpendirStream,
            ),
            (Task::OpendirStream, SysResult::Dir(dir)) => {
                let handle: u64 = self.handles.insert(HandleData::Dir(dir));
                Step::Done(Ok(FsOut::Handle(handle)))
            },
            (Task::Read { limit }, SysResult::Bytes(b)) => {
                let mut b = b;
                if b.len() > limit {
                    b.truncate(limit);
                }
                Step::Done(Ok(FsOut::Bytes(b)))
            },
            (Task::Write, SysResult::Count(n)) => Step::Done(Ok(FsOut::Count(n))),
            (Task::Readdir, SysResult::Entries(es)) => Step::Done(
                Ok(FsOut::Entries(without_dots(es.as_slice()))),
            ),
            (Task::Statfs, SysResult::Vfs(st)) => Step::Done(Ok(FsOut::Vfs(st))),
            (_, SysResult::Failed { errno }) => failed(FsError::Io { errno }),
            _ => failed(FsError::Io { errno: self.platform.errnos.numbers[AT_EIO] }),
        }
    }
}

/// Fewer buffers hold no more.
proof fn lemma_total_grows(sizes: Seq<usize>, k: int)
    requires
        0 <= k <= sizes.len(),
    ensures
        0 <= total(sizes.take(k)) <= total(sizes),
    decreases sizes.len(),
{
    if k < sizes.len() {
        lemma_total_grows(sizes.drop_last(), k);
        assert(sizes.drop_last().take(k) =~= sizes.take(k));
    } else {
        assert(sizes.take(k) =~= sizes);
        if sizes.len() > 0 {
            lemma_total_grows(sizes.drop_last(), 0);
            assert(sizes.drop_last().take(0) =~= Seq::empty());
        }
    }
}

/// Puts `data` into buffers of these sizes, in order: each is filled before
/// the next, and when the data runs out the last one is short and the rest are
/// empty.
pub fn scatter(data: &[u8], sizes: &[usize]) -> (r: Vec<Vec<u8>>)
    ensures
        r@.len() == sizes@.len(),
        forall|k: int| 0 <= k < sizes@.len() ==> (#[trigger] r@[k])@ == share(data@, sizes@, k),
{
    let mut out: Vec<Vec<u8>> = Vec::new();
    let mut from: usize = 0;
    let mut i: usize = 0;
    assert(sizes@.take(0) =~= Seq::empty());
    while i < sizes.len()
        invariant
            i <= sizes.len(),
            out@.len() == i,
            from <= data@.len(),
            from == if total(sizes@.take(i as int)) < data@.len() {
                total(sizes@.take(i as int))
            } else {
                data@.len() as int
            },
            forall|k: int| 0 <= k < i ==> (#[trigger] out@[k])@ == share(data@, sizes@, k),
        decreases sizes.len() - i,
    {
        proof {
            assert(sizes@.take(i as int + 1).drop_last() =~= sizes@.take(i as int));
        }
        let left: usize = data.len() - from;
        let n: usize = if sizes[i] < left { sizes[i] } else { left };
        let part = octets::copied(slice_subrange(data, from, from + n));
        assert(part@ =~= share(data@, sizes@, i as int));
        out.push(part);
        from = from + n;
        i += 1;
    }
    out
}

/// Whether a name is `.` or `..`.
fn names_dot(name: &[u8]) -> (r: bool)
    ensures
        r == is_dot(name@),
{
    let r = (name.len() == 1 && name[0] == 46) || (name.len() == 2 && name[0] == 46 && name[1]
        == 46);
    assert(r ==> name@ =~= seq![46u8] || name@ =~= seq![46u8, 46u8]);
    r
}

/// The entries without `.` and `..`.
fn without_dots(entries: &[DirEntry<Vec<u8>>]) -> (r: Vec<DirEntry<Vec<u8>>>)
    ensures
        entries_view(r@) == listed(entries_view(entries@)),
{
    let mut out: Vec<DirEntry<Vec<u8>>> = Vec::new();
    let mut i: usize = 0;
    let ghost all = entries_view(entries@);
    assert(all.take(0) =~= Seq::empty());
    proof {
        lemma_listed_step(all, 0);
    }
    while i < entries.len()
        invariant
            i <= entries.len(),
            all == entries_view(entries@),
            entries_view(out@) == listed(all.take(i as int)),
        decreases entries.len() - i,
    {
        proof {
            lemma_listed_step(all, i as int + 1);
        }
        let entry = &entries[i];
        if !names_dot(entry.name.as_slice()) {
            let kept = DirEntry {
                name: octets::copied(entry.name.as_slice()),
                ino: entry.ino,
                kind: entry.kind,
                next_offset: 0,
            };
            let ghost was = out@;
            out.push(kept);
            assert(entries_view(out@) =~= entries_view(was).push(kept@));
        }
        i += 1;
    }
    assert(all.take(i as int) =~= all);
    out
}

/// How the list grows with one more entry.
proof fn lemma_listed_step(all: Seq<DirEntry<Seq<u8>>>, n: int)
    requires
        0 <= n <= all.len(),
    ensures
        n == 0 ==> listed(all.take(0)) == Seq::<DirEntry<Seq<u8>>>::empty(),
        n > 0 ==> listed(all.take(n)) == if is_dot(all[n - 1].name) {
            listed(all.take(n - 1))
        } else {
            listed(all.take(n - 1)).push(DirEntry { next_offset: 0, ..all[n - 1] })
        },
{
    reveal(Seq::filter);
    if n > 0 {
        assert(all.take(n).drop_last() =~= all.take(n - 1));
        assert(all.take(n).last() == all[n - 1]);
        let keep = |e: DirEntry<Seq<u8>>| !is_dot(e.name);
        let zero = |e: DirEntry<Seq<u8>>| DirEntry { next_offset: 0, ..e };
        if !is_dot(all[n - 1].name) {
            assert(all.take(n).filter(keep) == all.take(n - 1).filter(keep).push(all[n - 1]));
            assert(all.take(n - 1).filter(keep).push(all[n - 1]).map_values(zero)
                =~= all.take(n - 1).filter(keep).map_values(zero).push(zero(all[n - 1])));
        }
    } else {
        assert(listed(all.take(0)) =~= Seq::empty());
    }
}

/// Whether a name can be handed to the host.
pub open spec fn is_name(name: Seq<u8>) -> bool {
    !name.contains(0u8)
}

impl<F, D> FsState<F, D> {
    /// Whether a call is confined to the tables: every directory and inode that
    /// it goes by is tracked, every handle is open for it, and no name has a
    /// NUL in it.
    pub open spec fn confines(self, call: SysCall<F, Seq<u8>>) -> bool {
        match call {
            SysCall::StatChild { dir, name } => self.inodes.tracks(dir) && is_name(name),
            SysCall::OpenChild { dir, name, .. } => self.inodes.tracks(dir) && is_name(name),
            SysCall::CreateChild { dir, name, .. } => self.inodes.tracks(dir) && is_name(name),
            SysCall::Duplicate { ino } => self.inodes.tracks(ino),
            SysCall::StatInode { ino } => self.inodes.tracks(ino),
            SysCall::Truncate { .. } => true,
            SysCall::ChangeMode { dir, name, .. } => self.inodes.tracks(dir) && is_name(name),
            SysCall::ChangeOwner { dir, name, .. } => self.inodes.tracks(dir) && is_name(name),
            SysCall::SetTimes { dir, name, .. } => self.inodes.tracks(dir) && is_name(name),
            SysCall::MakeDir { dir, name, .. } => self.inodes.tracks(dir) && is_name(name),
            SysCall::Remove { dir, name, .. } => self.inodes.tracks(dir) && is_name(name),
            SysCall::Rename { dir, name, new_dir, new_name } => self.inodes.tracks(dir) && is_name(
                name,
            ) && self.inodes.tracks(new_dir) && is_name(new_name),
            SysCall::MakeSymlink { target, dir, name } => self.inodes.tracks(dir) && is_name(name)
                && is_name(target),
            SysCall::ReadLink { dir, name, .. } => self.inodes.tracks(dir) && is_name(name),
            SysCall::LinkInode { ino, new_dir, new_name } => self.inodes.tracks(ino)
                && self.inodes.tracks(new_dir) && is_name(new_name),
            SysCall::LinkChild { dir, name, new_dir, new_name } => self.inodes.tracks(dir)
                && is_name(name) && self.inodes.tracks(new_dir) && is_name(new_name),
            SysCall::Read { handle, .. } => self.handles.file(handle) is Ok,
            SysCall::Write { handle, .. } => self.handles.file(handle) is Ok,
            SysCall::Sync { handle } => self.handles.file(handle) is Ok,
            SysCall::OpenDirStream { .. } => true,
            SysCall::ReadDir { handle } => self.handles.dir(handle) is Ok,
            SysCall::StatFs { ino } => self.inodes.tracks(ino),
        }
    }

    /// Whether the directories and names that a task still holds are good.
    pub open spec fn supports(self, task: Task<F, Seq<u8>>) -> bool {
        match task {
            Task::LookupStat { parent, name, .. } => self.inodes.tracks(parent) && is_name(name),
            Task::LookupOpen { parent, name, .. } => self.inodes.tracks(parent) && is_name(name),
            Task::SetattrRest { dir, name, .. } => self.inodes.tracks(dir) && is_name(name),
            Task::Make { parent, name } => self.inodes.tracks(parent) && is_name(name),
            Task::Create { parent, name } => self.inodes.tracks(parent) && is_name(name),
            Task::Rename { new_parent, new_name, .. } => self.inodes.tracks(new_parent) && is_name(
                new_name,
            ),
            _ => true,
        }
    }

    /// Whether a step is confined to the tables.
    pub open spec fn confines_step(self, step: StepView<F>) -> bool {
        match step {
            Step::Call(call, task) => self.confines(call) && self.supports(task),
            Step::Done(_) => true,
        }
    }

    /// Runs an operation from `step` on, with these outcomes of its calls.
    pub open spec fn run(self, step: StepView<F>, results: Seq<ResultView<F, D>>) -> (
        Self,
        StepView<F>,
    )
        decreases results.len(),
    {
        match step {
            Step::Call(_, task) if results.len() > 0 => {
                let (after, next) = self.resumed(task, results[0]);
                after.run(next, results.skip(1))
            },
            _ => (self, step),
        }
    }
}

/// Every operation starts with a call that is confined to the tables, if with
/// one at all: it is relative to a directory that the engine holds open, or on
/// a descriptor of the engine's own.
pub proof fn law_operations_start_confined<F, D>(
    fs: FsState<F, D>,
    ino: u64,
    name: Seq<u8>,
    other: u64,
    other_name: Seq<u8>,
    set: SetAttr,
    flags: i32,
    mode: u32,
    offset: u64,
    size: usize,
    after: After<F>,
)
    ensures
        fs.confines_step(fs.lookup(ino, name, after)),
        fs.confines_step(fs.getattr(ino)),
        fs.confines_step(fs.setattr(ino, set)),
        fs.confines_step(fs.mkdir(ino, name, mode)),
        fs.confines_step(fs.create(ino, name, flags, mode)),
        fs.confines_step(fs.remove(ino, name, true)),
        fs.confines_step(fs.remove(ino, name, false)),
        fs.confines_step(fs.rename(ino, name, other, other_name)),
        fs.confines_step(fs.symlink(ino, name, other_name)),
        fs.confines_step(fs.readlink(ino)),
        fs.confines_step(fs.link(ino, other, other_name)),
        fs.confines_step(fs.open(ino, flags)),
        fs.confines_step(fs.read(ino, offset, size)),
        fs.confines_step(fs.write(ino, offset, name)),
        fs.confines_step(fs.fsync(ino)),
        fs.confines_step(fs.opendir(ino)),
        fs.confines_step(fs.readdir(ino)),
        fs.confines_step(fs.statfs(ino)),
{
}

/// Whatever its calls give, an operation whose calls are confined to the tables
/// goes on with calls that are.
pub proof fn law_operations_stay_confined<F, D>(
    fs: FsState<F, D>,
    task: Task<F, Seq<u8>>,
    result: ResultView<F, D>,
    after: FsState<F, D>,
)
    requires
        fs.supports(task),
        fs.becomes(task, result, after),
    ensures
        after.confines_step(fs.resumed(task, result).1),
{
}

/// A call that fails ends its operation with the call's errno, and leaves the
/// engine as it was.
pub proof fn law_failed_call_changes_nothing<F, D>(
    fs: FsState<F, D>,
    task: Task<F, Seq<u8>>,
    errno: i32,
    after: FsState<F, D>,
)
    requires
        fs.becomes(task, SysResult::Failed { errno }, after),
    ensures
        after == fs,
        fs.resumed(task, SysResult::Failed { errno }).1 == fs.fails(FsError::Io { errno }),
{
}

/// A lookup whose file is there tracks it at its place, and gives its id and
/// attributes.
pub proof fn law_lookup_tracks_file<F, D>(
    fs: FsState<F, D>,
    parent: u64,
    name: Seq<u8>,
    st: Stat,
    fd: F,
)
    requires
        fs.inodes.wf(),
        fs.child(parent, name) is Ok,
    ensures
        ({
            let ino = fs.inodes.registered_id(st);
            let (after, end) = fs.run(
                fs.lookup(parent, name, After::Entry),
                seq![SysResult::Stat(st), SysResult::Fd(fd)],
            );
            &&& end == Step::<F, Seq<u8>, Seq<DirEntry<Seq<u8>>>>::Done(
                Ok(FsOut::Entry { ino, attr: attr_of(st) }),
            )
            &&& after == fs.registered(parent, name, fd, st)
            &&& after.inodes.seen_at(ino, parent, name)
            &&& after.inodes.inodes[ino].key == (st.dev, st.ino)
        }),
{
    reveal_with_fuel(FsState::run, 3);
    let results: Seq<ResultView<F, D>> = seq![SysResult::Stat(st), SysResult::Fd(fd)];
    assert(results.skip(1)[0] == results[1]);
    if let Some(x) = fs.inodes.holder((st.dev, st.ino)) {
        assert(fs.inodes.holds(x, (st.dev, st.ino)));
    }
}

/// A file that is created is tracked at its place, and open under a handle
/// that reads and writes through the descriptor it was created with.
pub proof fn law_create_opens_file<F, D>(
    fs: FsState<F, D>,
    parent: u64,
    name: Seq<u8>,
    flags: i32,
    mode: u32,
    file: F,
    st: Stat,
    fd: F,
)
    requires
        fs.inodes.wf(),
        fs.child(parent, name) is Ok,
    ensures
        ({
            let ino = fs.inodes.registered_id(st);
            let handle = fs.handles.next_id;
            let (after, end) = fs.run(
                fs.create(parent, name, flags, mode),
                seq![SysResult::Fd(file), SysResult::Stat(st), SysResult::Fd(fd)],
            );
            &&& end == Step::<F, Seq<u8>, Seq<DirEntry<Seq<u8>>>>::Done(
                Ok(FsOut::Created { ino, handle, attr: attr_of(st) }),
            )
            &&& after.inodes == fs.inodes.registered(parent, name, fd, st)
            &&& after.inodes.seen_at(ino, parent, name)
            &&& after.handles.file(handle) == Ok::<F, FsError>(file)
        }),
{
    reveal_with_fuel(FsState::run, 4);
    let results: Seq<ResultView<F, D>> = seq![
        SysResult::Fd(file),
        SysResult::Stat(st),
        SysResult::Fd(fd),
    ];
    assert(results.skip(1)[0] == results[1]);
    assert(results.skip(1).skip(1)[0] == results[2]);
    if let Some(x) = fs.inodes.holder((st.dev, st.ino)) {
        assert(fs.inodes.holds(x, (st.dev, st.ino)));
    }
}

/// What is made, be it a directory or a symbolic link, is then looked up.
pub proof fn law_made_is_looked_up<F, D>(
    fs: FsState<F, D>,
    parent: u64,
    name: Seq<u8>,
    mode: u32,
    target: Seq<u8>,
    st: Stat,
    fd: F,
)
    requires
        fs.child(parent, name) is Ok,
        is_name(target),
    ensures
        ({
            let found = fs.run(
                fs.lookup(parent, name, After::Entry),
                seq![SysResult::Stat(st), SysResult::Fd(fd)],
            );
            let results = seq![SysResult::Done, SysResult::Stat(st), SysResult::Fd(fd)];
            &&& fs.run(fs.mkdir(parent, name, mode), results) == found
            &&& fs.run(fs.symlink(parent, name, target), results) == found
        }),
{
    reveal_with_fuel(FsState::run, 2);
    let results: Seq<ResultView<F, D>> = seq![
        SysResult::Done,
        SysResult::Stat(st),
        SysResult::Fd(fd),
    ];
    assert(results.skip(1) =~= seq![SysResult::Stat(st), SysResult::Fd(fd)]);
}

/// An opened handle works through the descriptor it was opened with until it
/// is closed, and is unknown after that.
pub proof fn law_handle_lifetime<F, D>(fs: FsState<F, D>, ino: u64, flags: i32, fd: F)
    requires
        fs.reopen(ino, flags) is Ok,
    ensures
        ({
            let handle = fs.handles.next_id;
            let (after, end) = fs.run(fs.open(ino, flags), seq![SysResult::Fd(fd)]);
            let closed = FsState { handles: after.handles.removed(handle), ..after };
            &&& end == Step::<F, Seq<u8>, Seq<DirEntry<Seq<u8>>>>::Done(
                Ok(FsOut::Handle(handle)),
            )
            &&& after.handles.file(handle) == Ok::<F, FsError>(fd)
            &&& after.released(handle) is Ok
            &&& closed.handles.file(handle) == Err::<F, _>(FsError::UnknownHandle(handle))
            &&& closed.released(handle) == Err::<(), _>(FsError::UnknownHandle(handle))
        }),
{
    reveal_with_fuel(FsState::run, 2);
}

/// After a rename, a change of attributes acts on the new name.
pub proof fn law_setattr_follows_rename<F, D>(
    fs: FsState<F, D>,
    after: FsState<F, D>,
    ino: u64,
    parent: u64,
    name: Seq<u8>,
    new_parent: u64,
    new_name: Seq<u8>,
    mode: u32,
)
    requires
        fs.rename(parent, name, new_parent, new_name) is Call,
        fs.becomes(
            Task::Rename { parent, name, new_parent, new_name },
            SysResult::Done,
            after,
        ),
        fs.inodes.seen_at(ino, parent, name),
        forall|x: u64| fs.inodes.seen_at(x, parent, name) ==> x == ino,
    ensures
        ({
            let set = SetAttr {
                size: None,
                mode: Some(mode),
                uid: None,
                gid: None,
                atime: None,
                mtime: None,
            };
            &&& after.setattr(ino, set) matches Step::Call(call, _)
            &&& call == SysCall::<F, Seq<u8>>::ChangeMode { dir: new_parent, name: new_name, mode }
        }),
{
}

/// A change of everything makes its calls in order (size, mode, owner, times)
/// on the place where the file was last seen, and then reports the attributes.
pub proof fn law_setattr_changes_everything<F, D>(
    fs: FsState<F, D>,
    ino: u64,
    set: SetAttr,
    fd: F,
    st: Stat,
)
    requires
        fs.inodes.tracks(ino),
        ino != ROOT_ID,
        fs.located(ino) is Ok,
        set.size is Some,
        set.mode is Some,
        set.uid is Some,
        set.gid is Some,
        set.atime is Some,
        set.mtime is Some,
    ensures
        ({
            let (dir, name) = fs.located(ino)->Ok_0;
            let first = fs.setattr(ino, set);
            let sized = fs.run(first, seq![SysResult::Fd(fd)]).1;
            let moded = fs.run(sized, seq![SysResult::Done]).1;
            let owned = fs.run(moded, seq![SysResult::Done]).1;
            let timed = fs.run(owned, seq![SysResult::Done]).1;
            let report = fs.run(timed, seq![SysResult::Done]).1;
            let end = fs.run(report, seq![SysResult::Stat(st)]);
            &&& first->Call_0 == SysCall::<F, Seq<u8>>::OpenChild {
                dir,
                name,
                flags: fs.platform.wronly,
            }
            &&& sized->Call_0 == SysCall::<F, Seq<u8>>::Truncate { fd, size: set.size->0 }
            &&& moded->Call_0 == SysCall::<F, Seq<u8>>::ChangeMode {
                dir,
                name,
                mode: set.mode->0,
            }
            &&& owned->Call_0 == SysCall::<F, Seq<u8>>::ChangeOwner {
                dir,
                name,
                uid: set.uid->0,
                gid: set.gid->0,
            }
            &&& timed->Call_0 == SysCall::<F, Seq<u8>>::SetTimes {
                dir,
                name,
                atime: set.atime,
                mtime: set.mtime,
            }
            &&& report->Call_0 == SysCall::<F, Seq<u8>>::StatInode { ino }
            &&& end == (
                fs,
                Step::<F, Seq<u8>, Seq<DirEntry<Seq<u8>>>>::Done(
                    Ok(FsOut::Attr(attr_of(st))),
                ),
            )
        }),
{
    reveal_with_fuel(FsState::run, 2);
}

/// What is written from several buffers at once and read into buffers of the
/// same sizes comes back buffer by buffer.
pub proof fn law_vectored_roundtrip(parts: Seq<Vec<u8>>, sizes: Seq<usize>, k: int)
    requires
        sizes.len() == parts.len(),
        forall|i: int| 0 <= i < parts.len() ==> sizes[i] == (#[trigger] parts[i])@.len(),
        0 <= k < parts.len(),
    ensures
        joined(parts).len() == total(sizes),
        share(joined(parts), sizes, k) == parts[k]@,
    decreases parts.len(),
{
    let before = parts.drop_last();
    let sizes_before = sizes.drop_last();
    lemma_joined_len(before, sizes_before);
    lemma_total_grows(sizes, k);
    lemma_total_grows(sizes, k + 1);
    let n = before.len() as int;
    if k < n {
        law_vectored_roundtrip(before, sizes_before, k);
        assert(sizes_before.take(k) =~= sizes.take(k));
        assert(sizes_before.take(k + 1) =~= sizes.take(k + 1));
        lemma_total_grows(sizes_before, k + 1);
        lemma_total_grows(sizes_before, k);
        assert(sizes.take(k + 1).drop_last() =~= sizes.take(k));
        assert(share(joined(parts), sizes, k) =~= share(joined(before), sizes_before, k));
    } else {
        assert(sizes.take(k) =~= sizes_before);
        assert(sizes.take(k + 1) =~= sizes);
        assert(share(joined(parts), sizes, k) =~= parts[k]@);
    }
}

proof fn lemma_joined_len(parts: Seq<Vec<u8>>, sizes: Seq<usize>)
    requires
        sizes.len() == parts.len(),
        forall|i: int| 0 <= i < parts.len() ==> sizes[i] == (#[trigger] parts[i])@.len(),
    ensures
        joined(parts).len() == total(sizes),
    decreases parts.len(),
{
    if parts.len() > 0 {
        lemma_joined_len(parts.drop_last(), sizes.drop_last());
    }
}

} // verus!
