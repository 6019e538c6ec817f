//! What each operation does to the host: which system calls it makes, with which
//! arguments, and what it makes of their outcomes. Everything is said of the
//! tables as they are, and of the arguments of the operation.
use crate::engine::attr::{attr_of, SetAttr, Stat};
use crate::engine::call::{
    After, DirEntry, FsOut, FsStep, HostResult, ResultView, Step, StepView, SysCall, SysResult, Task,
};
use crate::engine::error::FsError;
use crate::engine::handle::HandleData;
use crate::engine::inode::{kind_of, FileKind};
use crate::engine::passthrough::{is_dot, joined, listed, share, total, FsState};
use vstd::prelude::*;

verus! {

/// Whether the inode `ino` is tracked, and was last seen as `name` in the directory
/// `dir`, which is tracked too. What no lookup has led to is seen in the shared
/// directory itself, which has the id 1.
pub open spec fn seen<F, D>(fs: FsState<F, D>, ino: u64, dir: u64, name: Seq<u8>) -> bool {
    let inode = fs.inodes.inodes[ino];
    &&& fs.inodes.inodes.contains_key(ino)
    &&& inode.name == name
    &&& inode.parent == Some(dir) || inode.parent is None && dir == 1
    &&& fs.inodes.inodes.contains_key(dir)
    &&& !name.contains(0u8)
}

/// The kind of a file is in the upper four bits of its sixteen-bit mode.
pub proof fn law_file_kinds(mode: u32)
    ensures
        mode & 0o170_000 == 0o040_000 <==> kind_of(mode) == FileKind::Dir,
        mode & 0o170_000 == 0o120_000 <==> kind_of(mode) == FileKind::Symlink,
        mode & 0o170_000 == 0o100_000 <==> kind_of(mode) == FileKind::Regular,
{
}

/// A lookup looks at the name that it is given, in the directory that it is given,
/// and then opens a reference to that same name: with the flags for a symbolic link
/// if it is one, with those for a directory if it is one, and else with those for a
/// file. What it finds is the entry of the file that was looked at.
pub proof fn law_lookup_goes_by_its_name<F, D>(
    fs: FsState<F, D>,
    parent: u64,
    name: Seq<u8>,
    st: Stat,
    fd: F,
)
    requires
        fs.inodes.inodes.contains_key(parent),
        !name.contains(0u8),
    ensures
        ({
            let kind = st.mode & 0o170_000;
            let wanted = if kind == 0o120_000 {
                fs.platform.symlink
            } else if kind == 0o040_000 {
                fs.platform.directory | fs.platform.reference
            } else {
                fs.platform.reference
            };
            &&& fs.lookup(parent, name, After::Entry) matches Step::Call(look, t1)
            &&& look == SysCall::<F, Seq<u8>>::StatChild { dir: parent, name }
            &&& fs.resumed(t1, SysResult::Stat(st)).0 == fs
            &&& fs.resumed(t1, SysResult::Stat(st)).1 matches Step::Call(open, t2)
            &&& open == SysCall::<F, Seq<u8>>::OpenChild { dir: parent, name, flags: wanted }
            &&& fs.resumed(t2, SysResult::Fd(fd)).0.inodes == fs.inodes.registered(
                parent,
                name,
                fd,
                st,
            )
            &&& fs.resumed(t2, SysResult::Fd(fd)).0.handles == fs.handles
            &&& fs.resumed(t2, SysResult::Fd(fd)).1 == StepView::<F>::Done(
                Ok(FsOut::Entry { ino: fs.inodes.registered_id(st), attr: attr_of(st) }),
            )
        }),
{
}

/// A directory is made with the name and the mode that were asked for, a file is
/// created with them and with the flags that were asked for, so that it must be new,
/// and a symbolic link is made with its target. Each is then looked up. Files and
/// directories are removed each in its own way, by the name that was given.
pub proof fn law_children_are_made_as_asked<F, D>(
    fs: FsState<F, D>,
    parent: u64,
    name: Seq<u8>,
    mode: u32,
    flags: i32,
    target: Seq<u8>,
    file: F,
)
    requires
        fs.inodes.inodes.contains_key(parent),
        !name.contains(0u8),
        !target.contains(0u8),
    ensures
        fs.mkdir(parent, name, mode) matches Step::Call(call, task) && {
            &&& call == SysCall::<F, Seq<u8>>::MakeDir { dir: parent, name, mode }
            &&& fs.resumed(task, SysResult::Done) == (fs, fs.lookup(parent, name, After::Entry))
        },
        fs.create(parent, name, flags, mode) matches Step::Call(call, task) && {
            &&& call == SysCall::<F, Seq<u8>>::CreateChild {
                dir: parent,
                name,
                flags: flags | fs.platform.creat | fs.platform.excl,
                mode,
            }
            &&& fs.resumed(task, SysResult::Fd(file)) == (
                fs,
                fs.lookup(parent, name, After::Create(file)),
            )
        },
        fs.symlink(parent, name, target) matches Step::Call(call, task) && {
            &&& call == SysCall::<F, Seq<u8>>::MakeSymlink { target, dir: parent, name }
            &&& fs.resumed(task, SysResult::Done) == (fs, fs.lookup(parent, name, After::Entry))
        },
        fs.remove(parent, name, false) matches Step::Call(call, task) && {
            &&& call == SysCall::<F, Seq<u8>>::Remove { dir: parent, name, directory: false }
            &&& fs.resumed(task, SysResult::Done) == (fs, StepView::<F>::Done(Ok(FsOut::Unit)))
        },
        fs.remove(parent, name, true) matches Step::Call(call, task) && {
            &&& call == SysCall::<F, Seq<u8>>::Remove { dir: parent, name, directory: true }
            &&& fs.resumed(task, SysResult::Done) == (fs, StepView::<F>::Done(Ok(FsOut::Unit)))
        },
{
}

/// A file that is created is looked up like any other, and is then open, by the
/// descriptor that it was created with, under the next handle.
pub proof fn law_created_file_is_open<F, D>(
    fs: FsState<F, D>,
    parent: u64,
    name: Seq<u8>,
    file: F,
    st: Stat,
    fd: F,
)
    requires
        fs.inodes.inodes.contains_key(parent),
        !name.contains(0u8),
    ensures
        ({
            let handle = fs.handles.next_id;
            &&& fs.lookup(parent, name, After::Entry) matches Step::Call(plain, _)
            &&& fs.lookup(parent, name, After::Create(file)) matches Step::Call(look, t1)
            &&& look == plain
            &&& fs.resumed(t1, SysResult::Stat(st)).0 == fs
            &&& fs.resumed(t1, SysResult::Stat(st)).1 matches Step::Call(open, t2)
            &&& open matches SysCall::OpenChild { dir, name: n, .. } && dir == parent && n == name
            &&& fs.resumed(t2, SysResult::Fd(fd)).0.inodes == fs.inodes.registered(
                parent,
                name,
                fd,
                st,
            )
            &&& fs.resumed(t2, SysResult::Fd(fd)).0.handles.open == fs.handles.open.insert(
                handle,
                HandleData::File(file),
            )
            &&& fs.resumed(t2, SysResult::Fd(fd)).1 == StepView::<F>::Done(
                Ok(
                    FsOut::Created {
                        ino: fs.inodes.registered_id(st),
                        handle,
                        attr: attr_of(st),
                    },
                ),
            )
        }),
{
}

/// A rename goes from the old name in the old directory to the new name in the new
/// directory, and when it is done the table follows it.
pub proof fn law_rename_goes_from_old_to_new<F, D>(
    fs: FsState<F, D>,
    parent: u64,
    name: Seq<u8>,
    new_parent: u64,
    new_name: Seq<u8>,
    after: FsState<F, D>,
)
    requires
        fs.inodes.inodes.contains_key(parent),
        fs.inodes.inodes.contains_key(new_parent),
        !name.contains(0u8),
        !new_name.contains(0u8),
    ensures
        ({
            &&& fs.rename(parent, name, new_parent, new_name) matches Step::Call(call, task)
            &&& call == SysCall::<F, Seq<u8>>::Rename {
                dir: parent,
                name,
                new_dir: new_parent,
                new_name,
            }
            &&& fs.resumed(task, SysResult::Done).1 == StepView::<F>::Done(Ok(FsOut::Unit))
            &&& fs.becomes(task, SysResult::Done, after) ==> {
                &&& after.handles == fs.handles
                &&& after.platform == fs.platform
                &&& after.inodes.next_id == fs.inodes.next_id
                &&& after.inodes.inodes.dom() == fs.inodes.inodes.dom()
                &&& forall|x: u64|
                    #![trigger after.inodes.inodes[x]]
                    fs.inodes.inodes.contains_key(x) ==> {
                        let was = fs.inodes.inodes[x];
                        let is = after.inodes.inodes[x];
                        let moved = was.parent == Some(parent) && was.name == name && is.parent
                            == Some(new_parent) && is.name == new_name;
                        &&& moved || is.parent == was.parent && is.name == was.name
                        &&& is.id == was.id
                        &&& is.fd == was.fd
                        &&& is.kind == was.kind
                        &&& is.key == was.key
                        &&& is.lookups == was.lookups
                    }
                &&& (exists|x: u64|
                    #![trigger fs.inodes.inodes[x]]
                    fs.inodes.inodes.contains_key(x) && fs.inodes.inodes[x].parent == Some(parent)
                        && fs.inodes.inodes[x].name == name) ==> (exists|x: u64|
                    #![trigger after.inodes.inodes[x]]
                    fs.inodes.inodes.contains_key(x) && fs.inodes.inodes[x].parent == Some(parent)
                        && fs.inodes.inodes[x].name == name && after.inodes.inodes[x].parent
                        == Some(new_parent) && after.inodes.inodes[x].name == new_name)
            }
        }),
{
    let task = Task::<F, Seq<u8>>::Rename { parent, name, new_parent, new_name };
    if fs.becomes(task, SysResult::Done, after) {
        if exists|id: u64| fs.inodes.seen_at(id, parent, name) {
            let id = choose|id: u64| #[trigger]
                fs.inodes.seen_at(id, parent, name) && after.inodes == fs.inodes.moved(
                    id,
                    new_parent,
                    new_name,
                );
            assert(after.inodes.inodes[id].name == new_name);
            assert(after.inodes.inodes.dom() =~= fs.inodes.inodes.dom());
        } else {
            assert forall|x: u64|
                !(fs.inodes.inodes.contains_key(x) && #[trigger] fs.inodes.inodes[x].parent == Some(
                    parent,
                ) && fs.inodes.inodes[x].name == name) by {
                assert(!fs.inodes.seen_at(x, parent, name));
            }
        }
    }
}

/// A hard link to an inode is made in the new directory, under the new name: from
/// the inode's own descriptor, or from where it was last seen on a host that cannot
/// do that. Its attributes are then reported, under the id that it has.
pub proof fn law_link_is_made_to_its_inode<F, D>(
    fs: FsState<F, D>,
    ino: u64,
    dir: u64,
    name: Seq<u8>,
    new_parent: u64,
    new_name: Seq<u8>,
    st: Stat,
)
    requires
        seen(fs, ino, dir, name),
        fs.inodes.inodes.contains_key(new_parent),
        !new_name.contains(0u8),
    ensures
        ({
            &&& fs.link(ino, new_parent, new_name) matches Step::Call(call, t1)
            &&& fs.platform.link_by_descriptor ==> call == SysCall::<F, Seq<u8>>::LinkInode {
                ino,
                new_dir: new_parent,
                new_name,
            }
            &&& !fs.platform.link_by_descriptor ==> call == SysCall::<F, Seq<u8>>::LinkChild {
                dir,
                name,
                new_dir: new_parent,
                new_name,
            }
            &&& fs.resumed(t1, SysResult::Done).0 == fs
            &&& fs.resumed(t1, SysResult::Done).1 matches Step::Call(look, t2)
            &&& look == SysCall::<F, Seq<u8>>::StatInode { ino }
            &&& fs.resumed(t2, SysResult::Stat(st)) == (
                fs,
                StepView::<F>::Done(Ok(FsOut::Entry { ino, attr: attr_of(st) })),
            )
        }),
{
}

/// An inode is opened with exactly the flags that are asked for, by the name under
/// which it was last seen; the shared directory itself, which has no name, is opened
/// by its own descriptor. A directory is opened as one, for reading. What was opened
/// is under the next handle from then on, and the other handles are as they were.
pub proof fn law_open_takes_the_flags_asked_for<F, D>(
    fs: FsState<F, D>,
    ino: u64,
    dir: u64,
    name: Seq<u8>,
    flags: i32,
    fd: F,
    stream: D,
)
    requires
        seen(fs, ino, dir, name),
    ensures
        ({
            let handle = fs.handles.next_id;
            let done = StepView::<F>::Done(Ok(FsOut::Handle(handle)));
            &&& fs.open(ino, flags) matches Step::Call(call, task)
            &&& ino != 1 ==> call == SysCall::<F, Seq<u8>>::OpenChild { dir, name, flags }
            &&& ino == 1 ==> call == SysCall::<F, Seq<u8>>::Duplicate { ino: 1 }
            &&& fs.resumed(task, SysResult::Fd(fd)).1 == done
            &&& fs.resumed(task, SysResult::Fd(fd)).0.inodes == fs.inodes
            &&& fs.resumed(task, SysResult::Fd(fd)).0.handles.open == fs.handles.open.insert(
                handle,
                HandleData::File(fd),
            )
            &&& fs.resumed(task, SysResult::Fd(fd)).0.handles.next_id as int == (handle + 1)
                % 0x1_0000_0000_0000_0000
            &&& fs.opendir(ino) matches Step::Call(call, task)
            &&& ino != 1 ==> call == SysCall::<F, Seq<u8>>::OpenChild {
                dir,
                name,
                flags: fs.platform.rdonly | fs.platform.directory,
            }
            &&& ino == 1 ==> call == SysCall::<F, Seq<u8>>::Duplicate { ino: 1 }
            &&& fs.resumed(task, SysResult::Fd(fd)).0 == fs
            &&& fs.resumed(task, SysResult::Fd(fd)).1 matches Step::Call(call, task)
            &&& call == SysCall::<F, Seq<u8>>::OpenDirStream { fd }
            &&& fs.resumed(task, SysResult::Dir(stream)).1 == done
            &&& fs.resumed(task, SysResult::Dir(stream)).0.inodes == fs.inodes
            &&& fs.resumed(task, SysResult::Dir(stream)).0.handles.open == fs.handles.open.insert(
                handle,
                HandleData::Dir(stream),
            )
            &&& fs.resumed(task, SysResult::Dir(stream)).0.handles.next_id as int == (handle + 1)
                % 0x1_0000_0000_0000_0000
        }),
{
}

/// A read reads from the handle, at the offset and as many bytes as it is asked for,
/// and gives what the host gave, but no more than that many bytes. A write writes the
/// data that it is given to the handle, at the offset that it is given, and gives the
/// number of bytes that the host wrote. What is to be made durable is the handle that
/// was named. None of them changes the tables.
pub proof fn law_data_goes_where_it_is_asked_to<F, D>(
    fs: FsState<F, D>,
    handle: u64,
    fd: F,
    offset: u64,
    size: usize,
    data: Seq<u8>,
    got: Seq<u8>,
    n: usize,
)
    requires
        fs.handles.open.contains_key(handle),
        fs.handles.open[handle] == HandleData::<F, D>::File(fd),
    ensures
        fs.read(handle, offset, size) matches Step::Call(call, task) && {
            &&& call == SysCall::<F, Seq<u8>>::Read { handle, offset, len: size }
            &&& fs.resumed(task, SysResult::Bytes(got)).0 == fs
            &&& fs.resumed(task, SysResult::Bytes(got)).1 == StepView::<F>::Done(
                Ok(
                    FsOut::Bytes(
                        if got.len() <= size {
                            got
                        } else {
                            got.take(size as int)
                        },
                    ),
                ),
            )
        },
        fs.write(handle, offset, data) matches Step::Call(call, task) && {
            &&& call == SysCall::<F, Seq<u8>>::Write { handle, offset, data }
            &&& fs.resumed(task, SysResult::Count(n)) == (
                fs,
                StepView::<F>::Done(Ok(FsOut::Count(n))),
            )
        },
        fs.fsync(handle) matches Step::Call(call, task) && {
            &&& call == SysCall::<F, Seq<u8>>::Sync { handle }
            &&& fs.resumed(task, SysResult::Done) == (fs, StepView::<F>::Done(Ok(FsOut::Unit)))
        },
{
}

/// A file's bytes after `data` is written at `offset`: a hole before it is zero.
pub open spec fn overwritten(file: Seq<u8>, offset: int, data: Seq<u8>) -> Seq<u8> {
    let end = offset + data.len();
    Seq::new(
        if data.len() > 0 && end > file.len() {
            end as nat
        } else {
            file.len()
        },
        |i: int|
            if offset <= i < end {
                data[i - offset]
            } else if i < file.len() {
                file[i]
            } else {
                0
            },
    )
}

/// A file's bytes from `offset` on, `len` at most.
pub open spec fn excerpt(file: Seq<u8>, offset: int, len: int) -> Seq<u8> {
    let from = if offset < file.len() {
        offset
    } else {
        file.len() as int
    };
    let to = if offset + len < file.len() {
        offset + len
    } else {
        file.len() as int
    };
    file.subrange(from, to)
}

/// What is written to a file is what is read from it: if the host carries out the
/// write that a write asks for and then the read that a read asks for, on the file
/// of the handle, then a read of as many bytes at the same offset gives the data, and
/// a read that does not reach into it gives what it would have given before.
pub proof fn law_written_data_is_read_back<F, D>(
    fs: FsState<F, D>,
    handle: u64,
    fd: F,
    offset: u64,
    data: Seq<u8>,
    file: Seq<u8>,
    elsewhere: u64,
    size: usize,
)
    requires
        fs.handles.open.contains_key(handle),
        fs.handles.open[handle] == HandleData::<F, D>::File(fd),
        0 < data.len() <= usize::MAX,
    ensures
        ({
            &&& fs.write(handle, offset, data) matches Step::Call(
                SysCall::Write { handle: to, offset: at, data: written },
                _,
            )
            &&& fs.read(handle, offset, data.len() as usize) matches Step::Call(
                SysCall::Read { handle: from, offset: there, len },
                task,
            )
            &&& to == handle && from == handle
            &&& {
                let now = overwritten(file, at as int, written);
                &&& fs.resumed(
                    task,
                    SysResult::Bytes(excerpt(now, there as int, len as int)),
                ).1 == StepView::<F>::Done(Ok(FsOut::Bytes(data)))
                &&& fs.read(handle, elsewhere, size) matches Step::Call(
                    SysCall::Read { handle: from, offset: there, len },
                    _,
                )
                &&& from == handle
                &&& offset + data.len() <= elsewhere && elsewhere < file.len() || elsewhere + size
                    <= offset && elsewhere + size <= file.len() ==> excerpt(
                    now,
                    there as int,
                    len as int,
                ) == excerpt(file, elsewhere as int, size as int)
            }
        }),
{
    let now = overwritten(file, offset as int, data);
    assert(excerpt(now, offset as int, data.len() as int) =~= data);
    if offset + data.len() <= elsewhere && elsewhere < file.len() || elsewhere + size <= offset
        && elsewhere + size <= file.len() {
        assert(excerpt(now, elsewhere as int, size as int) =~= excerpt(
            file,
            elsewhere as int,
            size as int,
        ));
    }
}

/// A directory that is open is listed by its own handle, and what is given is the
/// host's list without `.` and `..`.
pub proof fn law_open_directory_is_listed<F, D>(
    fs: FsState<F, D>,
    handle: u64,
    stream: D,
    es: Seq<DirEntry<Seq<u8>>>,
)
    requires
        fs.handles.open.contains_key(handle),
        fs.handles.open[handle] == HandleData::<F, D>::Dir(stream),
    ensures
        fs.readdir(handle) matches Step::Call(call, task) && {
            &&& call == SysCall::<F, Seq<u8>>::ReadDir { handle }
            &&& fs.resumed(task, SysResult::Entries(es)) == (
                fs,
                StepView::<F>::Done(Ok(FsOut::Entries(listed(es)))),
            )
        },
{
}

/// A list grows with the host's: an entry more, unless it is `.` or `..`, is an entry
/// more at the end, with its own name, number and kind, and nothing else changes.
pub proof fn law_listing_keeps_all_but_the_dots(
    es: Seq<DirEntry<Seq<u8>>>,
    e: DirEntry<Seq<u8>>,
)
    ensures
        listed(Seq::<DirEntry<Seq<u8>>>::empty()).len() == 0,
        e.name == seq![0x2eu8] || e.name == seq![0x2eu8, 0x2eu8] ==> listed(es.push(e)) == listed(
            es,
        ),
        e.name != seq![0x2eu8] && e.name != seq![0x2eu8, 0x2eu8] ==> {
            let all = listed(es.push(e));
            &&& all.drop_last() == listed(es)
            &&& all.len() == listed(es).len() + 1
            &&& all.last().name == e.name
            &&& all.last().ino == e.ino
            &&& all.last().kind == e.kind
        },
{
    reveal(Seq::filter);
    let keep = |e: DirEntry<Seq<u8>>| !is_dot(e.name);
    let zero = |e: DirEntry<Seq<u8>>| DirEntry { next_offset: 0, ..e };
    assert(es.push(e).drop_last() =~= es);
    assert(listed(Seq::<DirEntry<Seq<u8>>>::empty()).len() == 0);
    if !is_dot(e.name) {
        assert(es.push(e).filter(keep) == es.filter(keep).push(e));
        assert(es.filter(keep).push(e).map_values(zero) =~= es.filter(keep).map_values(zero).push(
            zero(e),
        ));
        assert(listed(es.push(e)).drop_last() =~= listed(es));
    }
}

/// The attributes, the target of a link and the state of the filesystem are asked of
/// the inode that was named, and what the host says of it is given. The target has
/// 4096 bytes at most.
pub proof fn law_inode_is_looked_at<F, D>(
    fs: FsState<F, D>,
    ino: u64,
    dir: u64,
    name: Seq<u8>,
    st: Stat,
    target: Seq<u8>,
    vfs: crate::engine::attr::StatVfs,
)
    requires
        seen(fs, ino, dir, name),
    ensures
        fs.getattr(ino) matches Step::Call(call, task) && {
            &&& call == SysCall::<F, Seq<u8>>::StatInode { ino }
            &&& fs.resumed(task, SysResult::Stat(st)) == (
                fs,
                StepView::<F>::Done(Ok(FsOut::Attr(attr_of(st)))),
            )
        },
        fs.statfs(ino) matches Step::Call(call, task) && {
            &&& call == SysCall::<F, Seq<u8>>::StatFs { ino }
            &&& fs.resumed(task, SysResult::Vfs(vfs)) == (
                fs,
                StepView::<F>::Done(Ok(FsOut::Vfs(vfs))),
            )
        },
        fs.readlink(ino) matches Step::Call(call, task) && {
            &&& call == SysCall::<F, Seq<u8>>::ReadLink { dir, name, limit: 4096 }
            &&& target.len() <= 4096 ==> fs.resumed(task, SysResult::Bytes(target)) == (
                fs,
                StepView::<F>::Done(Ok(FsOut::Bytes(target))),
            )
            &&& target.len() > 4096 ==> fs.resumed(task, SysResult::Bytes(target)) == (
                fs,
                StepView::<F>::Done(Ok(FsOut::Bytes(target.take(4096)))),
            )
        },
{
}

/// The calls that an operation makes from `step` on, `n` at most, as long as each
/// succeeds with nothing to say.
pub open spec fn calls_made<F, D>(fs: FsState<F, D>, step: StepView<F>, n: nat) -> Seq<
    SysCall<F, Seq<u8>>,
>
    decreases n,
{
    match step {
        Step::Call(call, task) if n > 0 => seq![call] + calls_made(
            fs,
            fs.resumed(task, SysResult::Done).1,
            (n - 1) as nat,
        ),
        _ => Seq::empty(),
    }
}

/// A change of attributes makes a call for each kind of change that is asked for,
/// and none for the others: the mode, then owner and group, then the times, at the
/// place where the inode was last seen; then it looks at the inode. Of owner and
/// group, and of the two times, the one that is not asked for is left as it is: the
/// host is given `u32::MAX` for an owner or group, and no time.
pub proof fn law_setattr_leaves_the_rest_as_it_is<F, D>(
    fs: FsState<F, D>,
    ino: u64,
    set: SetAttr,
    dir: u64,
    name: Seq<u8>,
)
    requires
        seen(fs, ino, dir, name),
        set.size is None,
    ensures
        ({
            let mode: Seq<SysCall<F, Seq<u8>>> = match set.mode {
                Some(mode) => seq![SysCall::ChangeMode { dir, name, mode }],
                None => Seq::empty(),
            };
            let owner: Seq<SysCall<F, Seq<u8>>> = match (set.uid, set.gid) {
                (Some(uid), Some(gid)) => seq![SysCall::ChangeOwner { dir, name, uid, gid }],
                (Some(uid), None) => seq![
                    SysCall::ChangeOwner { dir, name, uid, gid: 0xffff_ffff },
                ],
                (None, Some(gid)) => seq![
                    SysCall::ChangeOwner { dir, name, uid: 0xffff_ffff, gid },
                ],
                (None, None) => Seq::empty(),
            };
            let times: Seq<SysCall<F, Seq<u8>>> = if set.atime is None && set.mtime is None {
                Seq::empty()
            } else {
                seq![SysCall::SetTimes { dir, name, atime: set.atime, mtime: set.mtime }]
            };
            calls_made(fs, fs.setattr(ino, set), 9) == mode + owner + times + seq![
                SysCall::<F, Seq<u8>>::StatInode { ino },
            ]
        }),
{
    reveal_with_fuel(calls_made, 6);
}

/// A change of the size opens the inode for writing, gives that descriptor the new
/// size, and goes on like a change of everything else that is asked for.
pub proof fn law_setattr_sets_the_size_first<F, D>(
    fs: FsState<F, D>,
    ino: u64,
    set: SetAttr,
    size: u64,
    dir: u64,
    name: Seq<u8>,
    fd: F,
)
    requires
        seen(fs, ino, dir, name),
        set.size == Some(size),
    ensures
        ({
            &&& fs.setattr(ino, set) matches Step::Call(open, t1)
            &&& ino != 1 ==> open == SysCall::<F, Seq<u8>>::OpenChild {
                dir,
                name,
                flags: fs.platform.wronly,
            }
            &&& ino == 1 ==> open == SysCall::<F, Seq<u8>>::Duplicate { ino: 1 }
            &&& fs.resumed(t1, SysResult::Fd(fd)).0 == fs
            &&& fs.resumed(t1, SysResult::Fd(fd)).1 matches Step::Call(cut, t2)
            &&& cut == SysCall::<F, Seq<u8>>::Truncate { fd, size }
            &&& fs.resumed(t2, SysResult::Done).0 == fs
            &&& calls_made(fs, fs.resumed(t2, SysResult::Done).1, 9) == calls_made(
                fs,
                fs.setattr(ino, SetAttr { size: None, ..set }),
                9,
            )
        }),
{
    law_setattr_leaves_the_rest_as_it_is(fs, ino, SetAttr { size: None, ..set }, dir, name);
    reveal_with_fuel(calls_made, 6);
}

/// A change of attributes ends with what the host then says of the inode.
pub proof fn law_setattr_reports_the_attributes<F, D>(
    fs: FsState<F, D>,
    ino: u64,
    dir: u64,
    name: Seq<u8>,
    st: Stat,
)
    requires
        seen(fs, ino, dir, name),
    ensures
        ({
            let nothing = SetAttr {
                size: None,
                mode: None,
                uid: None,
                gid: None,
                atime: None,
                mtime: None,
            };
            &&& fs.setattr(ino, nothing) == fs.getattr(ino)
            &&& fs.getattr(ino) matches Step::Call(_, task)
            &&& fs.resumed(task, SysResult::Stat(st)) == (
                fs,
                StepView::<F>::Done(Ok(FsOut::Attr(attr_of(st)))),
            )
        }),
{
}

/// An inode that is not tracked is refused as unknown, whatever is asked of it.
pub proof fn law_unknown_inodes_are_refused<F, D>(
    fs: FsState<F, D>,
    ino: u64,
    name: Seq<u8>,
    other: u64,
    other_name: Seq<u8>,
    set: SetAttr,
    flags: i32,
    mode: u32,
    directory: bool,
)
    requires
        !fs.inodes.inodes.contains_key(ino),
    ensures
        ({
            let unknown = StepView::<F>::Done(Err(FsError::UnknownInode(ino)));
            &&& fs.lookup(ino, name, After::Entry) == unknown
            &&& fs.getattr(ino) == unknown
            &&& fs.setattr(ino, set) == unknown
            &&& fs.mkdir(ino, name, mode) == unknown
            &&& fs.create(ino, name, flags, mode) == unknown
            &&& fs.remove(ino, name, directory) == unknown
            &&& fs.rename(ino, name, other, other_name) == unknown
            &&& fs.inodes.inodes.contains_key(other) ==> fs.rename(other, name, ino, other_name)
                == unknown
            &&& fs.symlink(ino, name, other_name) == unknown
            &&& fs.readlink(ino) == unknown
            &&& fs.link(ino, other, other_name) == unknown
            &&& fs.inodes.inodes.contains_key(other) ==> fs.link(other, ino, other_name) == unknown
            &&& fs.open(ino, flags) == unknown
            &&& fs.opendir(ino) == unknown
            &&& fs.statfs(ino) == unknown
        }),
{
}

/// A name with a NUL in it is refused as an invalid argument, and so is the target of
/// a symbolic link.
pub proof fn law_names_with_nul_are_refused<F, D>(
    fs: FsState<F, D>,
    dir: u64,
    bad: Seq<u8>,
    other: u64,
    good: Seq<u8>,
    flags: i32,
    mode: u32,
    directory: bool,
)
    requires
        fs.inodes.inodes.contains_key(dir),
        fs.inodes.inodes.contains_key(other),
        bad.contains(0u8),
        !good.contains(0u8),
    ensures
        is_invalid::<F>(fs.lookup(dir, bad, After::Entry)),
        is_invalid::<F>(fs.mkdir(dir, bad, mode)),
        is_invalid::<F>(fs.create(dir, bad, flags, mode)),
        is_invalid::<F>(fs.remove(dir, bad, directory)),
        is_invalid::<F>(fs.rename(dir, bad, other, good)),
        is_invalid::<F>(fs.rename(dir, good, other, bad)),
        is_invalid::<F>(fs.symlink(dir, bad, good)),
        is_invalid::<F>(fs.symlink(dir, good, bad)),
        is_invalid::<F>(fs.link(other, dir, bad)),
{
}

/// Whether a step is the refusal of an invalid argument.
pub open spec fn is_invalid<F>(step: StepView<F>) -> bool {
    step matches Step::Done(Err(FsError::InvalidArgument(_)))
}

/// An inode whose directory is not known any more cannot be found by its name: it cannot
/// be opened, unless it is the shared directory itself, nor its target be read, nor its
/// mode, owner or times be changed, nor can it be linked by its name.
pub proof fn law_lost_inodes_are_refused<F, D>(
    fs: FsState<F, D>,
    ino: u64,
    dir: u64,
    flags: i32,
    set: SetAttr,
    new_parent: u64,
    new_name: Seq<u8>,
)
    requires
        fs.inodes.inodes.contains_key(ino),
        fs.inodes.inodes[ino].parent == Some(dir),
        !fs.inodes.inodes.contains_key(dir),
        fs.inodes.inodes.contains_key(new_parent),
        !new_name.contains(0u8),
    ensures
        ({
            let lost = StepView::<F>::Done(Err(FsError::UnknownInode(dir)));
            &&& ino != 1 ==> fs.open(ino, flags) == lost
            &&& ino != 1 ==> fs.opendir(ino) == lost
            &&& fs.readlink(ino) == lost
            &&& ino != 1 && set.size is Some ==> fs.setattr(ino, set) == lost
            &&& set.size is None && (set.mode is Some || set.uid is Some || set.gid is Some
                || set.atime is Some || set.mtime is Some) ==> fs.setattr(ino, set) == lost
            &&& !fs.platform.link_by_descriptor ==> fs.link(ino, new_parent, new_name) == lost
        }),
{
}

/// A handle that is not open is refused as unknown. One that is open on a directory
/// cannot be read from, written to or made durable, and one that is open on a file
/// cannot be listed. Closing a handle succeeds exactly if it is open.
pub proof fn law_handles_are_for_what_they_are<F, D>(
    fs: FsState<F, D>,
    handle: u64,
    offset: u64,
    size: usize,
    data: Seq<u8>,
)
    ensures
        !fs.handles.open.contains_key(handle) ==> {
            let unknown = StepView::<F>::Done(Err(FsError::UnknownHandle(handle)));
            &&& fs.read(handle, offset, size) == unknown
            &&& fs.write(handle, offset, data) == unknown
            &&& fs.fsync(handle) == unknown
            &&& fs.readdir(handle) == unknown
            &&& fs.released(handle) == Err::<(), _>(FsError::UnknownHandle(handle))
        },
        fs.handles.open.contains_key(handle) && fs.handles.open[handle] is Dir ==> {
            &&& is_invalid::<F>(fs.read(handle, offset, size))
            &&& is_invalid::<F>(fs.write(handle, offset, data))
            &&& is_invalid::<F>(fs.fsync(handle))
        },
        fs.handles.open.contains_key(handle) && fs.handles.open[handle] is File ==> is_invalid::<
            F,
        >(fs.readdir(handle)),
        fs.handles.open.contains_key(handle) ==> fs.released(handle) == Ok::<(), FsError>(()),
        fs.handles.open.contains_key(handle) ==> match fs.handles.open[handle] {
            HandleData::File(fd) => fs.handles.file(handle) == Ok::<F, FsError>(fd),
            HandleData::Dir(stream) => fs.handles.dir(handle) == Ok::<D, FsError>(stream),
        },
        fs.handles.removed(handle).open == fs.handles.open.remove(handle),
        fs.handles.removed(handle).next_id == fs.handles.next_id,
{
}

/// Buffers that are written at once are written one after another, and in the order
/// in which they are given: with one more, its bytes come at the end.
pub proof fn law_buffers_are_joined_in_order(parts: Seq<Vec<u8>>, part: Vec<u8>)
    ensures
        joined(Seq::<Vec<u8>>::empty()) == Seq::<u8>::empty(),
        joined(parts.push(part)) == joined(parts) + part@,
{
    assert(parts.push(part).drop_last() =~= parts);
}

/// How many of `len` bytes the first `k` buffers of these sizes get, each filled
/// before the next.
pub open spec fn handed_out(len: int, sizes: Seq<usize>, k: int) -> int
    decreases k,
{
    if k <= 0 {
        0
    } else if handed_out(len, sizes, k - 1) + sizes[k - 1] <= len {
        handed_out(len, sizes, k - 1) + sizes[k - 1]
    } else {
        len
    }
}

/// What is read at once is handed out in order: each buffer gets what comes right
/// after what the buffers before it got, as much as it has room for, or what is left.
pub proof fn law_bytes_are_handed_out_in_order(data: Seq<u8>, sizes: Seq<usize>, k: int)
    requires
        0 <= k < sizes.len(),
    ensures
        ({
            let from = handed_out(data.len() as int, sizes, k);
            let to = handed_out(data.len() as int, sizes, k + 1);
            &&& 0 <= from <= to <= data.len()
            &&& share(data, sizes, k) == data.subrange(from, to)
        }),
{
    lemma_handed_out(data.len() as int, sizes, k);
    lemma_handed_out(data.len() as int, sizes, k + 1);
}

proof fn lemma_handed_out(len: int, sizes: Seq<usize>, k: int)
    requires
        0 <= k <= sizes.len(),
        0 <= len,
    ensures
        0 <= handed_out(len, sizes, k) <= len,
        0 <= total(sizes.take(k)),
        handed_out(len, sizes, k) == if total(sizes.take(k)) < len {
            total(sizes.take(k))
        } else {
            len
        },
    decreases k,
{
    if k > 0 {
        lemma_handed_out(len, sizes, k - 1);
        assert(sizes.take(k).drop_last() =~= sizes.take(k - 1));
    } else {
        assert(sizes.take(0).len() == 0);
    }
}

/// The room in some buffers is the sum of their sizes.
pub proof fn law_room_is_the_sum_of_the_sizes(sizes: Seq<usize>, size: usize)
    ensures
        total(Seq::<usize>::empty()) == 0,
        total(sizes.push(size)) == total(sizes) + size,
{
    assert(sizes.push(size).drop_last() =~= sizes);
}

/// A call that fails ends its operation with its errno, whatever it was for, and one
/// that gives something of another kind than was asked for ends it with the host's
/// `EIO`. Neither changes anything.
pub proof fn law_failures_end_the_operation<F, D>(
    fs: FsState<F, D>,
    task: Task<F, Seq<u8>>,
    errno: i32,
    n: usize,
)
    ensures
        fs.resumed(task, SysResult::Failed { errno }) == (
            fs,
            StepView::<F>::Done(Err(FsError::Io { errno })),
        ),
        !(task is Write) ==> fs.resumed(task, SysResult::Count(n)) == (
            fs,
            StepView::<F>::Done(Err(FsError::Io { errno: fs.platform.errnos.numbers@[4] })),
        ),
{
}

/// What becomes of the tables is fixed by the task and the outcome of its call, but for a
/// rename that succeeded: which inode moves then is open if several were last seen under
/// the old name.
pub proof fn law_tables_become_what_the_outcome_says<F, D>(
    fs: FsState<F, D>,
    task: Task<F, Seq<u8>>,
    result: ResultView<F, D>,
    after: FsState<F, D>,
)
    ensures
        !(task is Rename && result is Done) ==> (fs.becomes(task, result, after) <==> after
            == fs.resumed(task, result).0),
        fs.becomes(task, result, after) ==> after.platform == fs.platform,
        fs.resumed(task, result).0.platform == fs.platform,
{
}

/// What an operation gives at run time stands for itself, and so does a step of it.
pub proof fn law_steps_stand_for_themselves<F>(
    s: FsStep<F>,
    out: FsOut<Vec<u8>, Vec<DirEntry<Vec<u8>>>>,
)
    ensures
        s matches Step::Call(call, task) ==> s@ == StepView::<F>::Call(call@, task@),
        s matches Step::Done(Ok(o)) ==> s@ == StepView::<F>::Done(Ok(o@)),
        s matches Step::Done(Err(e)) ==> s@ == StepView::<F>::Done(Err(e)),
        out matches FsOut::Unit ==> out@ is Unit,
        out matches FsOut::Attr(a) ==> (out@ matches FsOut::Attr(b) && b == a),
        out matches FsOut::Entry { ino, attr } ==> (out@ matches FsOut::Entry { ino: i, attr: a }
            && i == ino && a == attr),
        out matches FsOut::Created { ino, handle, attr } ==> (out@ matches FsOut::Created {
            ino: i,
            handle: h,
            attr: a,
        } && i == ino && h == handle && a == attr),
        out matches FsOut::Handle(h) ==> (out@ matches FsOut::Handle(i) && i == h),
        out matches FsOut::Bytes(b) ==> (out@ matches FsOut::Bytes(c) && c == b@),
        out matches FsOut::Count(n) ==> (out@ matches FsOut::Count(m) && m == n),
        out matches FsOut::Vfs(a) ==> (out@ matches FsOut::Vfs(b) && b == a),
        out matches FsOut::Entries(es) ==> (out@ matches FsOut::Entries(all) && all.len()
            == es@.len() && forall|i: int|
            0 <= i < es@.len() ==> (#[trigger] all[i]).name == es@[i].name@ && all[i].ino
                == es@[i].ino && all[i].kind == es@[i].kind),
{
}

/// An outcome at run time stands for itself.
pub proof fn law_outcomes_stand_for_themselves<F, D>(r: HostResult<F, D>)
    ensures
        r matches SysResult::Failed { errno } ==> r@ == (ResultView::<F, D>::Failed { errno }),
        r matches SysResult::Done ==> r@ == ResultView::<F, D>::Done,
        r matches SysResult::Fd(fd) ==> r@ == ResultView::<F, D>::Fd(fd),
        r matches SysResult::Stat(st) ==> r@ == ResultView::<F, D>::Stat(st),
        r matches SysResult::Dir(dir) ==> r@ == ResultView::<F, D>::Dir(dir),
        r matches SysResult::Bytes(b) ==> r@ == ResultView::<F, D>::Bytes(b@),
        r matches SysResult::Count(n) ==> r@ == ResultView::<F, D>::Count(n),
        r matches SysResult::Vfs(st) ==> r@ == ResultView::<F, D>::Vfs(st),
        r matches SysResult::Entries(es) ==> (r@ matches SysResult::Entries(all) && all.len()
            == es@.len() && forall|i: int|
            0 <= i < es@.len() ==> (#[trigger] all[i]).name == es@[i].name@ && all[i].ino
                == es@[i].ino && all[i].kind == es@[i].kind),
{
}

/// A call at run time stands for itself: the same call, with the same arguments, and
/// each byte string by its bytes.
pub proof fn law_calls_stand_for_themselves<F>(c: SysCall<F, Vec<u8>>)
    ensures
        match c {
            SysCall::StatChild { dir, name } => c@ matches SysCall::StatChild { dir: d, name: n }
                && d == dir && n == name@,
            SysCall::OpenChild { dir, name, flags } => c@ matches SysCall::OpenChild {
                dir: d,
                name: n,
                flags: f,
            } && d == dir && n == name@ && f == flags,
            SysCall::CreateChild { dir, name, flags, mode } => c@ matches SysCall::CreateChild {
                dir: d,
                name: n,
                flags: f,
                mode: m,
            } && d == dir && n == name@ && f == flags && m == mode,
            SysCall::Duplicate { ino } => c@ matches SysCall::Duplicate { ino: i } && i == ino,
            SysCall::StatInode { ino } => c@ matches SysCall::StatInode { ino: i } && i == ino,
            SysCall::Truncate { fd, size } => c@ matches SysCall::Truncate { fd: f, size: s } && f
                == fd && s == size,
            SysCall::ChangeMode { dir, name, mode } => c@ matches SysCall::ChangeMode {
                dir: d,
                name: n,
                mode: m,
            } && d == dir && n == name@ && m == mode,
            SysCall::ChangeOwner { dir, name, uid, gid } => c@ matches SysCall::ChangeOwner {
                dir: d,
                name: n,
                uid: u,
                gid: g,
            } && d == dir && n == name@ && u == uid && g == gid,
            SysCall::SetTimes { dir, name, atime, mtime } => c@ matches SysCall::SetTimes {
                dir: d,
                name: n,
                atime: a,
                mtime: m,
            } && d == dir && n == name@ && a == atime && m == mtime,
            SysCall::MakeDir { dir, name, mode } => c@ matches SysCall::MakeDir {
                dir: d,
                name: n,
                mode: m,
            } && d == dir && n == name@ && m == mode,
            SysCall::Remove { dir, name, directory } => c@ matches SysCall::Remove {
                dir: d,
                name: n,
                directory: r,
            } && d == dir && n == name@ && r == directory,
            SysCall::Rename { dir, name, new_dir, new_name } => c@ matches SysCall::Rename {
                dir: d,
                name: n,
                new_dir: e,
                new_name: o,
            } && d == dir && n == name@ && e == new_dir && o == new_name@,
            SysCall::MakeSymlink { target, dir, name } => c@ matches SysCall::MakeSymlink {
                target: t,
                dir: d,
                name: n,
            } && t == target@ && d == dir && n == name@,
            SysCall::ReadLink { dir, name, limit } => c@ matches SysCall::ReadLink {
                dir: d,
                name: n,
                limit: l,
            } && d == dir && n == name@ && l == limit,
            SysCall::LinkInode { ino, new_dir, new_name } => c@ matches SysCall::LinkInode {
                ino: i,
                new_dir: d,
                new_name: n,
            } && i == ino && d == new_dir && n == new_name@,
            SysCall::LinkChild { dir, name, new_dir, new_name } => c@ matches SysCall::LinkChild {
                dir: d,
                name: n,
                new_dir: e,
                new_name: o,
            } && d == dir && n == name@ && e == new_dir && o == new_name@,
            SysCall::Read { handle, offset, len } => c@ matches SysCall::Read {
                handle: h,
                offset: o,
                len: l,
            } && h == handle && o == offset && l == len,
            SysCall::Write { handle, offset, data } => c@ matches SysCall::Write {
                handle: h,
                offset: o,
                data: d,
            } && h == handle && o == offset && d == data@,
            SysCall::Sync { handle } => c@ matches SysCall::Sync { handle: h } && h == handle,
            SysCall::OpenDirStream { fd } => c@ matches SysCall::OpenDirStream { fd: f } && f == fd,
            SysCall::ReadDir { handle } => c@ matches SysCall::ReadDir { handle: h } && h == handle,
            SysCall::StatFs { ino } => c@ matches SysCall::StatFs { ino: i } && i == ino,
        },
{
}

} // verus!
