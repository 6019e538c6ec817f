//! The engine, the session and the back-end, run against a host in memory.
use riftlessfs::engine::call::{FsOut, FsStep, HostResult, Step, SysCall, SysResult};
use riftlessfs::engine::handle::{HandleData, HandleStore};
use riftlessfs::engine::inode::{InodeStore, ROOT_ID};
use riftlessfs::engine::passthrough::scatter;
use riftlessfs::engine::platform::{reference_open_flags, Platform};
use riftlessfs::engine::{
    Attr, DirEntry, FileKind, FsError, FsResult, PassthroughFs, SetAttr, Stat, StatVfs,
};
use riftlessfs::fuse::bytes::Writer;
use riftlessfs::fuse::dispatch::{Progress, Reply, Session};
use riftlessfs::fuse::wire;
use riftlessfs::host::{HostErrnos, AT_EBADF, AT_EINVAL, AT_ENOSYS};
use riftlessfs::vhost_user::header::{MsgHeader, Request};
use riftlessfs::vhost_user::memory::{AddrSpace, GuestMemory};
use riftlessfs::vhost_user::payload::{
    MemoryRegion, MemoryRegions, U64Payload, VringAddr, VringFdPayload, VringState,
};
use riftlessfs::vhost_user::server::{
    after_control, after_failed_poll, take_fd, Action, Control, Server, ServerAction, Turn,
    NUM_QUEUES, VIRTIO_FEATURES,
};
use riftlessfs::vhost_user::virtqueue::VirtqueueError;
use riftlessfs::ProtoError;

/// A file of the host: its number is its place in the table.
struct Node {
    mode: u32,
    nlink: u64,
    uid: u32,
    gid: u32,
    mtime: (i64, u32),
    data: Vec<u8>,
    children: Vec<(Vec<u8>, usize)>,
}

/// A host with a filesystem in memory, which remembers the calls it got.
struct Host {
    nodes: Vec<Node>,
    log: Vec<String>,
}

/// An open descriptor: the file it refers to, and the flags it was opened with.
#[derive(Clone, Copy, Debug, PartialEq)]
struct Fd {
    node: usize,
    flags: i32,
}

/// An open directory stream.
struct Stream {
    node: usize,
}

type Fs = PassthroughFs<Fd, Stream>;
type Out = FsOut<Vec<u8>, Vec<DirEntry<Vec<u8>>>>;

fn platform() -> Platform {
    Platform {
        rdonly: libc::O_RDONLY,
        wronly: libc::O_WRONLY,
        creat: libc::O_CREAT,
        excl: libc::O_EXCL,
        directory: libc::O_DIRECTORY,
        reference: libc::O_PATH | libc::O_NOFOLLOW | libc::O_CLOEXEC,
        symlink: libc::O_PATH | libc::O_NOFOLLOW | libc::O_CLOEXEC,
        link_by_descriptor: true,
        errnos: HostErrnos::this_host(),
    }
}

fn node(mode: u32) -> Node {
    Node {
        mode,
        nlink: 1,
        uid: 0,
        gid: 0,
        mtime: (0, 0),
        data: vec![],
        children: vec![],
    }
}

impl Host {
    fn new() -> Self {
        Host {
            nodes: vec![node(0o040_755)],
            log: vec![],
        }
    }

    fn stat(&self, n: usize) -> Stat {
        let f = &self.nodes[n];
        Stat {
            dev: 5,
            ino: 100 + n as u64,
            mode: f.mode,
            nlink: f.nlink,
            uid: f.uid,
            gid: f.gid,
            rdev: 0,
            size: f.data.len() as i64,
            blksize: 4096,
            blocks: 1,
            atime: 0,
            atime_nsec: 0,
            mtime: f.mtime.0,
            mtime_nsec: f.mtime.1 as i64,
            ctime: 0,
            ctime_nsec: 0,
        }
    }

    fn child(&self, dir: usize, name: &[u8]) -> Option<usize> {
        self.nodes[dir]
            .children
            .iter()
            .find(|(n, _)| n == name)
            .map(|(_, i)| *i)
    }

    fn add(&mut self, dir: usize, name: &[u8], n: Node) -> usize {
        self.nodes.push(n);
        let i = self.nodes.len() - 1;
        self.nodes[dir].children.push((name.to_vec(), i));
        i
    }

    fn perform(
        &mut self,
        fs: &Fs,
        call: SysCall<Fd, Vec<u8>>,
    ) -> HostResult<Fd, Stream> {
        let at = |ino: u64| fs.inode_fd(ino).expect("a tracked inode").node;
        let failed = |errno: i32| SysResult::Failed { errno };
        match call {
            SysCall::StatChild { dir, name } => match self.child(at(dir), &name) {
                Some(n) => SysResult::Stat(self.stat(n)),
                None => failed(libc::ENOENT),
            },
            SysCall::OpenChild { dir, name, flags } => match self.child(at(dir), &name) {
                Some(n) => SysResult::Fd(Fd { node: n, flags }),
                None => failed(libc::ENOENT),
            },
            SysCall::CreateChild {
                dir,
                name,
                flags,
                mode,
            } => {
                assert_eq!(flags & libc::O_CREAT, libc::O_CREAT);
                assert_eq!(flags & libc::O_EXCL, libc::O_EXCL);
                if self.child(at(dir), &name).is_some() {
                    return failed(libc::EEXIST);
                }
                let n = self.add(at(dir), &name, node(0o100_000 | mode));
                SysResult::Fd(Fd { node: n, flags })
            }
            SysCall::Duplicate { ino } => SysResult::Fd(Fd {
                node: at(ino),
                flags: 0,
            }),
            SysCall::StatInode { ino } => SysResult::Stat(self.stat(at(ino))),
            SysCall::Truncate { fd, size } => {
                assert_eq!(fd.flags, libc::O_WRONLY);
                self.log.push(format!("truncate {size}"));
                self.nodes[fd.node].data.resize(size as usize, 0);
                SysResult::Done
            }
            SysCall::ChangeMode { dir, name, mode } => match self.child(at(dir), &name) {
                Some(n) => {
                    self.log
                        .push(format!("chmod {} {mode:o}", String::from_utf8_lossy(&name)));
                    self.nodes[n].mode = (self.nodes[n].mode & 0o170_000) | mode;
                    SysResult::Done
                }
                None => failed(libc::ENOENT),
            },
            SysCall::ChangeOwner {
                dir,
                name,
                uid,
                gid,
            } => match self.child(at(dir), &name) {
                Some(n) => {
                    self.log.push(format!("chown {uid} {gid}"));
                    if uid != u32::MAX {
                        self.nodes[n].uid = uid;
                    }
                    if gid != u32::MAX {
                        self.nodes[n].gid = gid;
                    }
                    SysResult::Done
                }
                None => failed(libc::ENOENT),
            },
            SysCall::SetTimes {
                dir,
                name,
                atime,
                mtime,
            } => match self.child(at(dir), &name) {
                Some(n) => {
                    self.log.push(format!("times {atime:?} {mtime:?}"));
                    if let Some(t) = mtime {
                        self.nodes[n].mtime = t;
                    }
                    SysResult::Done
                }
                None => failed(libc::ENOENT),
            },
            SysCall::MakeDir { dir, name, mode } => {
                if self.child(at(dir), &name).is_some() {
                    return failed(libc::EEXIST);
                }
                self.add(at(dir), &name, node(0o040_000 | mode));
                SysResult::Done
            }
            SysCall::Remove {
                dir,
                name,
                directory,
            } => match self.child(at(dir), &name) {
                None => failed(libc::ENOENT),
                Some(n) => {
                    let is_dir = self.nodes[n].mode & 0o170_000 == 0o040_000;
                    if is_dir != directory {
                        return failed(if is_dir { libc::EISDIR } else { libc::ENOTDIR });
                    }
                    if !self.nodes[n].children.is_empty() {
                        return failed(libc::ENOTEMPTY);
                    }
                    let d = at(dir);
                    self.nodes[d].children.retain(|(c, _)| *c != name);
                    self.nodes[n].nlink -= 1;
                    SysResult::Done
                }
            },
            SysCall::Rename {
                dir,
                name,
                new_dir,
                new_name,
            } => match self.child(at(dir), &name) {
                None => failed(libc::ENOENT),
                Some(n) => {
                    let d = at(dir);
                    self.nodes[d].children.retain(|(c, _)| *c != name);
                    let d = at(new_dir);
                    self.nodes[d].children.push((new_name, n));
                    SysResult::Done
                }
            },
            SysCall::MakeSymlink { target, dir, name } => {
                let mut link = node(0o120_777);
                link.data = target;
                self.add(at(dir), &name, link);
                SysResult::Done
            }
            SysCall::ReadLink { dir, name, limit } => match self.child(at(dir), &name) {
                Some(n) => {
                    let mut target = self.nodes[n].data.clone();
                    target.truncate(limit);
                    SysResult::Bytes(target)
                }
                None => failed(libc::ENOENT),
            },
            SysCall::LinkInode {
                ino,
                new_dir,
                new_name,
            } => {
                let n = at(ino);
                let d = at(new_dir);
                self.nodes[n].nlink += 1;
                self.nodes[d].children.push((new_name, n));
                SysResult::Done
            }
            SysCall::LinkChild {
                dir,
                name,
                new_dir,
                new_name,
            } => match self.child(at(dir), &name) {
                Some(n) => {
                    let d = at(new_dir);
                    self.nodes[n].nlink += 1;
                    self.nodes[d].children.push((new_name, n));
                    SysResult::Done
                }
                None => failed(libc::ENOENT),
            },
            SysCall::Read {
                handle,
                offset,
                len,
            } => {
                let data = &self.nodes[fs.file(handle).unwrap().node].data;
                let from = (offset as usize).min(data.len());
                let to = (from + len).min(data.len());
                SysResult::Bytes(data[from..to].to_vec())
            }
            SysCall::Write {
                handle,
                offset,
                data,
            } => {
                let file = &mut self.nodes[fs.file(handle).unwrap().node].data;
                let end = offset as usize + data.len();
                if file.len() < end {
                    file.resize(end, 0);
                }
                file[offset as usize..end].copy_from_slice(&data);
                SysResult::Count(data.len())
            }
            SysCall::Sync { .. } => SysResult::Done,
            SysCall::OpenDirStream { fd } => SysResult::Dir(Stream { node: fd.node }),
            SysCall::ReadDir { handle } => {
                let n = fs.dir(handle).unwrap().node;
                let mut entries = vec![];
                for dots in [".", ".."] {
                    entries.push(DirEntry {
                        name: dots.as_bytes().to_vec(),
                        ino: 1,
                        kind: FileKind::Dir,
                        next_offset: 7,
                    });
                }
                for (name, i) in &self.nodes[n].children {
                    entries.push(DirEntry {
                        name: name.clone(),
                        ino: 100 + *i as u64,
                        kind: FileKind::from_mode(self.nodes[*i].mode),
                        next_offset: 7,
                    });
                }
                SysResult::Entries(entries)
            }
            SysCall::StatFs { .. } => SysResult::Vfs(StatVfs {
                blocks: 1,
                bfree: 2,
                bavail: 3,
                files: 4,
                ffree: 5,
                bsize: 6,
                namemax: 7,
                frsize: 8,
            }),
        }
    }

    /// Runs an operation of the engine to its end.
    fn run(&mut self, fs: &mut Fs, step: FsStep<Fd>) -> FsResult<Out> {
        let mut step = step;
        loop {
            match step {
                Step::Done(result) => return result,
                Step::Call(call, task) => {
                    let result = self.perform(fs, call);
                    assert!(fs.has_room());
                    step = fs.resume(task, result);
                }
            }
        }
    }

    /// Serves a request to its end.
    fn serve(&mut self, session: &mut Session<Fd, Stream>, request: &[u8]) -> Reply<Vec<u8>> {
        let mut progress = session.handle(request, (1_700_000_000, 5));
        loop {
            match progress {
                Progress::Reply(reply) => return reply,
                Progress::Call(call, pending) => {
                    let result = self.perform(session.fs(), call);
                    assert!(session.fs().has_room());
                    progress = session.resume(pending, result);
                }
            }
        }
    }
}

fn fs_in_memory() -> (Host, Fs) {
    let host = Host::new();
    let fs = PassthroughFs::new(Fd { node: 0, flags: 0 }, &host.stat(0), platform());
    (host, fs)
}

fn entry(out: FsResult<Out>) -> (u64, Attr) {
    match out {
        Ok(FsOut::Entry { ino, attr }) => (ino, attr),
        _ => panic!("expected an entry"),
    }
}

fn attr_of(out: FsResult<Out>) -> Attr {
    match out {
        Ok(FsOut::Attr(attr)) => attr,
        _ => panic!("expected attributes"),
    }
}

fn bytes_of(out: FsResult<Out>) -> Vec<u8> {
    match out {
        Ok(FsOut::Bytes(b)) => b,
        _ => panic!("expected bytes"),
    }
}

fn handle_of(out: FsResult<Out>) -> u64 {
    match out {
        Ok(FsOut::Handle(h)) => h,
        _ => panic!("expected a handle"),
    }
}

fn unit_of(out: FsResult<Out>) {
    assert!(matches!(out, Ok(FsOut::Unit)));
}

fn count_of(out: FsResult<Out>) -> usize {
    match out {
        Ok(FsOut::Count(n)) => n,
        _ => panic!("expected a count"),
    }
}

fn err_of(out: FsResult<Out>) -> FsError {
    match out {
        Err(e) => e,
        Ok(_) => panic!("expected an error"),
    }
}

fn create(host: &mut Host, fs: &mut Fs, parent: u64, name: &str) -> (u64, u64, Attr) {
    let step = fs.create(parent, name.as_bytes(), libc::O_RDWR, 0o644);
    match host.run(fs, step) {
        Ok(FsOut::Created { ino, handle, attr }) => (ino, handle, attr),
        _ => panic!("expected a new file"),
    }
}

fn lookup(host: &mut Host, fs: &mut Fs, parent: u64, name: &str) -> FsResult<Out> {
    let step = fs.lookup(parent, name.as_bytes());
    host.run(fs, step)
}

#[test]
fn root_getattr_is_a_directory() {
    let (mut host, mut fs) = fs_in_memory();
    let step = fs.getattr(ROOT_ID);
    let attr = attr_of(host.run(&mut fs, step));
    assert!(attr.is_dir());
}

#[test]
fn create_write_read_roundtrip() {
    let (mut host, mut fs) = fs_in_memory();
    let (ino, handle, attr) = create(&mut host, &mut fs, ROOT_ID, "hello.txt");
    assert!(attr.is_regular());

    let step = fs.write(handle, 0, b"hello, riftlessfs");
    let n = count_of(host.run(&mut fs, step));
    assert_eq!(n, 17);
    let step = fs.fsync(handle);
    unit_of(host.run(&mut fs, step));

    let step = fs.read(handle, 0, 4096);
    let data = bytes_of(host.run(&mut fs, step));
    assert_eq!(&data, b"hello, riftlessfs");
    fs.release(handle).unwrap();

    let on_disk = &host.nodes[host.child(0, b"hello.txt").unwrap()].data;
    assert_eq!(on_disk, b"hello, riftlessfs");

    let (looked_up_ino, attr2) = entry(lookup(&mut host, &mut fs, ROOT_ID, "hello.txt"));
    assert_eq!(looked_up_ino, ino);
    assert_eq!(attr2.size, 17);
}

#[test]
fn write_vectored_gathers_multiple_iovecs_into_one_write() {
    let (mut host, mut fs) = fs_in_memory();
    let (_ino, handle, _) = create(&mut host, &mut fs, ROOT_ID, "vectored_write.txt");

    let a = b"hello, ".to_vec();
    let b = b"vectored ".to_vec();
    let c = b"world".to_vec();
    let expected: Vec<u8> = a.iter().chain(&b).chain(&c).copied().collect();

    // One write, of all of it.
    let step = fs.write_vectored(handle, 0, &[a, b, c]);
    assert!(matches!(&step, Step::Call(SysCall::Write { data, .. }, _) if *data == expected));
    let n = count_of(host.run(&mut fs, step));
    assert_eq!(n, expected.len());
    let step = fs.fsync(handle);
    unit_of(host.run(&mut fs, step));

    let on_disk = &host.nodes[host.child(0, b"vectored_write.txt").unwrap()].data;
    assert_eq!(*on_disk, expected);
    fs.release(handle).unwrap();
}

#[test]
fn read_vectored_scatters_one_read_into_multiple_iovecs() {
    let (mut host, mut fs) = fs_in_memory();
    let (_ino, handle, _) = create(&mut host, &mut fs, ROOT_ID, "vectored_read.txt");
    let full = b"0123456789abcdef";
    let step = fs.write(handle, 0, full);
    count_of(host.run(&mut fs, step));
    let step = fs.fsync(handle);
    unit_of(host.run(&mut fs, step));

    // Three separate buffers of 5, 5, and 6 bytes, filled in order by a
    // single read.
    let sizes = [5, 5, 6];
    let step = fs.read_vectored(handle, 0, &sizes);
    assert!(matches!(&step, Step::Call(SysCall::Read { len: 16, .. }, _)));
    let data = bytes_of(host.run(&mut fs, step));
    assert_eq!(data.len(), full.len());
    let bufs = scatter(&data, &sizes);
    assert_eq!(&bufs[0], &full[0..5]);
    assert_eq!(&bufs[1], &full[5..10]);
    assert_eq!(&bufs[2], &full[10..16]);
    fs.release(handle).unwrap();
}

#[test]
fn read_vectored_at_offset_and_past_eof_matches_read() {
    let (mut host, mut fs) = fs_in_memory();
    let (_ino, handle, _) = create(&mut host, &mut fs, ROOT_ID, "vectored_read_eof.txt");
    let step = fs.write(handle, 0, b"0123456789");
    count_of(host.run(&mut fs, step));

    // 8 bytes at offset 6: a short count, as a plain read gives.
    let step = fs.read_vectored(handle, 6, &[8]);
    let data = bytes_of(host.run(&mut fs, step));
    assert_eq!(data.len(), 4);
    let bufs = scatter(&data, &[8]);
    assert_eq!(&bufs[0][0..4], b"6789");
    assert_eq!(scatter(&data, &[3, 3, 3]), vec![&b"678"[..], b"9", b""]);
    fs.release(handle).unwrap();
}

#[test]
fn mkdir_lookup_readdir_rmdir() {
    let (mut host, mut fs) = fs_in_memory();
    let step = fs.mkdir(ROOT_ID, b"subdir", 0o755);
    let (sub_ino, attr) = entry(host.run(&mut fs, step));
    assert!(attr.is_dir());

    create(&mut host, &mut fs, sub_ino, "a");
    create(&mut host, &mut fs, sub_ino, "b");

    let step = fs.opendir(sub_ino);
    let dh = handle_of(host.run(&mut fs, step));
    let step = fs.readdir(dh);
    let entries = match host.run(&mut fs, step) {
        Ok(FsOut::Entries(entries)) => entries,
        _ => panic!("expected entries"),
    };
    assert!(entries.iter().all(|e| e.next_offset == 0));
    let mut names: Vec<String> = entries
        .into_iter()
        .map(|e| String::from_utf8_lossy(&e.name).into_owned())
        .collect();
    names.sort();
    fs.releasedir(dh).unwrap();
    assert_eq!(names, vec!["a", "b"]);

    for name in ["a", "b"] {
        let step = fs.unlink(sub_ino, name.as_bytes());
        unit_of(host.run(&mut fs, step));
    }
    let step = fs.rmdir(ROOT_ID, b"subdir");
    unit_of(host.run(&mut fs, step));

    assert!(lookup(&mut host, &mut fs, ROOT_ID, "subdir").is_err());
}

#[test]
fn rename_updates_tracked_location() {
    let (mut host, mut fs) = fs_in_memory();
    let (ino, _, _) = create(&mut host, &mut fs, ROOT_ID, "old.txt");
    let step = fs.rename(ROOT_ID, b"old.txt", ROOT_ID, b"new.txt");
    unit_of(host.run(&mut fs, step));

    assert!(host.child(0, b"old.txt").is_none());
    let new = host.child(0, b"new.txt").unwrap();

    let step = fs.setattr(
        ino,
        &SetAttr {
            mode: Some(0o600),
            ..Default::default()
        },
    );
    attr_of(host.run(&mut fs, step));
    assert_eq!(host.nodes[new].mode & 0o777, 0o600);
    assert_eq!(host.log, vec!["chmod new.txt 600"]);
}

#[test]
fn symlink_readlink() {
    let (mut host, mut fs) = fs_in_memory();
    let step = fs.symlink(ROOT_ID, b"link", b"target");
    let (ino, attr) = entry(host.run(&mut fs, step));
    assert!(attr.is_symlink());
    let step = fs.readlink(ino);
    let target = bytes_of(host.run(&mut fs, step));
    assert_eq!(target, b"target");
}

#[test]
fn setattr_truncate() {
    let (mut host, mut fs) = fs_in_memory();
    let (_ino, handle, _) = create(&mut host, &mut fs, ROOT_ID, "trunc.txt");
    let step = fs.write(handle, 0, b"0123456789");
    count_of(host.run(&mut fs, step));
    let (ino2, _) = entry(lookup(&mut host, &mut fs, ROOT_ID, "trunc.txt"));
    let step = fs.setattr(
        ino2,
        &SetAttr {
            size: Some(4),
            ..Default::default()
        },
    );
    let attr = attr_of(host.run(&mut fs, step));
    assert_eq!(attr.size, 4);
    let step = fs.read(handle, 0, 4096);
    let data = bytes_of(host.run(&mut fs, step));
    assert_eq!(&data, b"0123");
    fs.release(handle).unwrap();
}

#[test]
fn hardlink() {
    let (mut host, mut fs) = fs_in_memory();
    let (ino, _, _) = create(&mut host, &mut fs, ROOT_ID, "orig.txt");
    let step = fs.link(ino, ROOT_ID, b"linked.txt");
    let (linked, attr) = entry(host.run(&mut fs, step));
    assert_eq!(attr.nlink, 2);
    assert_eq!(linked, ino);
    assert!(host.child(0, b"linked.txt").is_some());

    let (ino_a, _) = entry(lookup(&mut host, &mut fs, ROOT_ID, "orig.txt"));
    let (ino_b, _) = entry(lookup(&mut host, &mut fs, ROOT_ID, "linked.txt"));
    assert_eq!(ino_a, ino_b);
    assert_eq!(ino_a, ino);
}

#[test]
fn forget_evicts_inode() {
    let (mut host, mut fs) = fs_in_memory();
    let (ino, _, _) = create(&mut host, &mut fs, ROOT_ID, "f.txt");
    let before = fs.inode_count();
    fs.forget(ino, 1);
    assert_eq!(fs.inode_count(), before - 1);
}

#[test]
fn a_link_without_descriptors_goes_by_name() {
    let mut host = Host::new();
    let platform = Platform {
        link_by_descriptor: false,
        ..platform()
    };
    let mut fs = PassthroughFs::new(Fd { node: 0, flags: 0 }, &host.stat(0), platform);
    let (ino, _, _) = create(&mut host, &mut fs, ROOT_ID, "orig.txt");
    let step = fs.link(ino, ROOT_ID, b"linked.txt");
    assert!(matches!(
        step,
        Step::Call(SysCall::LinkChild { dir: ROOT_ID, .. }, _)
    ));
    let (_, attr) = entry(host.run(&mut fs, step));
    assert_eq!(attr.nlink, 2);
}

#[test]
fn setattr_changes_everything_in_order() {
    let (mut host, mut fs) = fs_in_memory();
    let (ino, _, _) = create(&mut host, &mut fs, ROOT_ID, "f");
    let step = fs.setattr(
        ino,
        &SetAttr {
            size: Some(3),
            mode: Some(0o640),
            uid: Some(7),
            gid: None,
            atime: None,
            mtime: Some((11, 12)),
        },
    );
    let attr = attr_of(host.run(&mut fs, step));
    assert_eq!(
        host.log,
        vec![
            "truncate 3",
            "chmod f 640",
            "chown 7 4294967295",
            "times None Some((11, 12))"
        ]
    );
    assert_eq!(attr.size, 3);
    assert_eq!(attr.mode, 0o100_640);
    assert_eq!((attr.uid, attr.gid), (7, 0));
    assert_eq!(attr.mtime, (11, 12));
}

#[test]
fn unknown_ids_are_refused_without_a_call() {
    let (_host, mut fs) = fs_in_memory();
    let unknown = FsError::UnknownInode(77);
    let steps = [
        fs.lookup(77, b"x"),
        fs.getattr(77),
        fs.setattr(77, &SetAttr::default()),
        fs.mkdir(77, b"x", 0),
        fs.create(77, b"x", 0, 0),
        fs.unlink(77, b"x"),
        fs.rmdir(77, b"x"),
        fs.rename(ROOT_ID, b"x", 77, b"y"),
        fs.symlink(77, b"x", b"y"),
        fs.readlink(77),
        fs.link(77, ROOT_ID, b"y"),
        fs.link(ROOT_ID, 77, b"y"),
        fs.open(77, 0),
        fs.opendir(77),
        fs.statfs(77),
    ];
    for step in steps {
        assert!(matches!(step, Step::Done(Err(e)) if e == unknown));
    }
    let unknown = FsError::UnknownHandle(78);
    let steps = [
        fs.read(78, 0, 1),
        fs.write(78, 0, b"x"),
        fs.fsync(78),
        fs.readdir(78),
    ];
    for step in steps {
        assert!(matches!(step, Step::Done(Err(e)) if e == unknown));
    }
    assert_eq!(fs.release(78), Err(unknown));
    assert_eq!(fs.releasedir(78), Err(unknown));
}

#[test]
fn names_with_nul_are_refused_without_a_call() {
    let (_host, fs) = fs_in_memory();
    let steps = [
        fs.lookup(ROOT_ID, b"a\0b"),
        fs.mkdir(ROOT_ID, b"\0", 0),
        fs.create(ROOT_ID, b"a\0", 0, 0),
        fs.unlink(ROOT_ID, b"\0a"),
        fs.rmdir(ROOT_ID, b"a\0"),
        fs.rename(ROOT_ID, b"a", ROOT_ID, b"b\0"),
        fs.rename(ROOT_ID, b"a\0", ROOT_ID, b"b"),
        fs.symlink(ROOT_ID, b"a\0", b"b"),
        fs.symlink(ROOT_ID, b"a", b"b\0"),
        fs.link(ROOT_ID, ROOT_ID, b"b\0"),
    ];
    for step in steps {
        assert!(matches!(
            step,
            Step::Done(Err(FsError::InvalidArgument("name contains NUL")))
        ));
    }
}

#[test]
fn a_handle_is_for_what_it_was_opened_for() {
    let (mut host, mut fs) = fs_in_memory();
    let (ino, fh, _) = create(&mut host, &mut fs, ROOT_ID, "f");
    let step = fs.opendir(ROOT_ID);
    let dh = handle_of(host.run(&mut fs, step));
    let step = fs.open(ino, libc::O_RDONLY);
    let fh2 = handle_of(host.run(&mut fs, step));
    assert_eq!((fh, dh, fh2), (1, 2, 3));
    assert_eq!(fs.handle_count(), 3);
    assert!(matches!(
        fs.read(dh, 0, 1),
        Step::Done(Err(FsError::InvalidArgument(
            "handle is a directory, not a file"
        )))
    ));
    assert!(matches!(
        fs.readdir(fh),
        Step::Done(Err(FsError::InvalidArgument(
            "handle is a file, not a directory"
        )))
    ));
    fs.release(fh).unwrap();
    assert!(matches!(
        fs.read(fh, 0, 1),
        Step::Done(Err(FsError::UnknownHandle(1)))
    ));
}

#[test]
fn a_failed_call_ends_the_operation_with_its_errno() {
    let (mut host, mut fs) = fs_in_memory();
    assert_eq!(
        err_of(lookup(&mut host, &mut fs, ROOT_ID, "missing")),
        FsError::Io {
            errno: libc::ENOENT
        }
    );
    create(&mut host, &mut fs, ROOT_ID, "f");
    let step = fs.create(ROOT_ID, b"f", 0, 0);
    assert_eq!(
        err_of(host.run(&mut fs, step)),
        FsError::Io {
            errno: libc::EEXIST
        }
    );
    assert_eq!(fs.inode_count(), 2);
    assert_eq!(fs.handle_count(), 1);
    // An outcome of another kind than was asked for.
    match fs.getattr(ROOT_ID) {
        Step::Call(_, task) => {
            let step = fs.resume(task, SysResult::Count(3));
            assert!(matches!(step, Step::Done(Err(FsError::Io { errno: 5 }))));
        }
        Step::Done(_) => panic!("expected a call"),
    }
}

#[test]
fn lookups_are_counted() {
    let (mut host, mut fs) = fs_in_memory();
    let (ino, _, _) = create(&mut host, &mut fs, ROOT_ID, "f");
    lookup(&mut host, &mut fs, ROOT_ID, "f").unwrap();
    lookup(&mut host, &mut fs, ROOT_ID, "f").unwrap();
    fs.forget(ino, 2);
    assert_eq!(fs.inode_count(), 2);
    fs.forget(ino, 100);
    assert_eq!(fs.inode_count(), 1);
    fs.forget(ROOT_ID, 100);
    fs.forget(12345, 1);
    assert_eq!(fs.inode_count(), 1);
    // A file that was forgotten gets a new id.
    let (again, _) = entry(lookup(&mut host, &mut fs, ROOT_ID, "f"));
    assert_eq!((ino, again), (2, 3));
}

#[test]
fn references_are_opened_with_the_flags_of_their_kind() {
    let platform = Platform {
        directory: 0x10,
        reference: 0x2,
        symlink: 0x4,
        ..platform()
    };
    assert_eq!(reference_open_flags(&platform, true, false), 0x12);
    assert_eq!(reference_open_flags(&platform, false, false), 0x2);
    assert_eq!(reference_open_flags(&platform, false, true), 0x4);
    assert_eq!(reference_open_flags(&platform, true, true), 0x4);

    let mut host = Host::new();
    let mut fs: Fs = PassthroughFs::new(Fd { node: 0, flags: 0 }, &host.stat(0), platform);
    let dir = host.add(0, b"d", node(0o040_700));
    let link = host.add(0, b"l", node(0o120_777));
    let pipe = host.add(0, b"p", node(0o010_600));
    for (name, n, flags) in [("d", dir, 0x12), ("l", link, 0x4), ("p", pipe, 0x2)] {
        let (ino, _) = entry(lookup(&mut host, &mut fs, ROOT_ID, name));
        assert_eq!(fs.inode_fd(ino), Ok(&Fd { node: n, flags }));
    }
}

#[test]
fn file_kinds_follow_the_mode() {
    assert_eq!(FileKind::from_mode(0o040_755), FileKind::Dir);
    assert_eq!(FileKind::from_mode(0o120_777), FileKind::Symlink);
    assert_eq!(FileKind::from_mode(0o100_644), FileKind::Regular);
    assert_eq!(FileKind::from_mode(0o140_644), FileKind::Other);
}

#[test]
fn attributes_are_cut_to_their_widths() {
    let mut st = Host::new().stat(0);
    st.nlink = 0x1_0000_0003;
    st.size = -1;
    st.mtime = -5;
    st.mtime_nsec = 999_999_999;
    let attr = Attr::from_stat(&st);
    assert_eq!(attr.nlink, 3);
    assert_eq!(attr.size, u64::MAX);
    assert_eq!(attr.mtime, (-5, 999_999_999));
    assert_eq!(attr.ino, 100);
    assert_eq!(Attr::default().mode, 0);
}

#[test]
fn the_inode_store_follows_a_rename() {
    let host = Host::new();
    let mut store: InodeStore<u8> = InodeStore::new(0, &host.stat(0));
    let mut st = host.stat(0);
    st.ino = 200;
    let a = store.register(ROOT_ID, b"a".to_vec(), 1, &st);
    st.ino = 201;
    let b = store.register(ROOT_ID, b"b".to_vec(), 2, &st);
    st.dev = 6;
    let c = store.register(ROOT_ID, b"c".to_vec(), 3, &st);
    assert_eq!((a, b, c), (2, 3, 4));
    assert_eq!(store.len(), 4);
    store.note_rename(ROOT_ID, b"a", b, b"z".to_vec());
    assert_eq!(store.get(a).unwrap().parent(), Some(b));
    assert_eq!(store.get(a).unwrap().name(), b"z");
    assert_eq!(store.get(b).unwrap().name(), b"b");
    store.note_rename(ROOT_ID, b"missing", b, b"y".to_vec());
    assert_eq!(store.get(c).unwrap().name(), b"c");
    assert_eq!(store.get(c).unwrap().raw_fd(), &3);
    assert!(matches!(store.get(9), Err(FsError::UnknownInode(9))));
    assert_eq!(store.get(ROOT_ID).unwrap().parent(), None);
}

#[test]
fn the_handle_store_gives_out_fresh_numbers() {
    let mut store: HandleStore<u8, char> = HandleStore::new();
    assert_eq!(store.insert(HandleData::File(7)), 1);
    assert_eq!(store.insert(HandleData::Dir('d')), 2);
    assert_eq!(store.with_file(1, |fd| Ok(*fd + 1)), Ok(8));
    assert_eq!(store.with_dir(2, |d| Ok(*d)), Ok('d'));
    assert_eq!(
        store.with_file(2, |fd| Ok(*fd)),
        Err(FsError::InvalidArgument("handle is a directory, not a file"))
    );
    assert_eq!(
        store.with_dir(1, |d| Ok(*d)),
        Err(FsError::InvalidArgument("handle is a file, not a directory"))
    );
    assert!(store.remove(1).is_ok());
    assert!(matches!(store.remove(1), Err(FsError::UnknownHandle(1))));
    assert_eq!(store.insert(HandleData::File(9)), 3);
    assert_eq!(store.len(), 2);
}

fn session_in_memory() -> (Host, Session<Fd, Stream>) {
    let (host, fs) = fs_in_memory();
    (host, Session::new(fs))
}

fn request(opcode: u32, unique: u64, nodeid: u64, body: &[u8]) -> Vec<u8> {
    let mut w = Writer::new();
    w.u32((wire::IN_HEADER_LEN + body.len()) as u32);
    w.u32(opcode);
    w.u64(unique);
    w.u64(nodeid);
    w.u32(0); // uid
    w.u32(0); // gid
    w.u32(0); // pid
    w.u32(0); // total_extlen + padding
    w.bytes(body);
    w.into_vec()
}

fn unwrap_ok(reply: Reply<Vec<u8>>) -> Vec<u8> {
    match reply {
        Reply::Bytes(b) => {
            let err = i32::from_le_bytes(b[4..8].try_into().unwrap());
            assert_eq!(err, 0, "expected success reply, got errno {err}");
            b[wire::OUT_HEADER_LEN..].to_vec()
        }
        Reply::Nothing => panic!("expected a reply"),
    }
}

fn unwrap_errno(reply: Reply<Vec<u8>>) -> i32 {
    match reply {
        Reply::Bytes(b) => {
            assert_eq!(b.len(), wire::OUT_HEADER_LEN);
            i32::from_le_bytes(b[4..8].try_into().unwrap())
        }
        Reply::Nothing => panic!("expected a reply"),
    }
}

#[test]
fn init_negotiates_version() {
    let (mut host, mut session) = session_in_memory();
    let mut body = Writer::new();
    body.u32(7).u32(45).u32(0).u32(0);
    let req = request(26 /* INIT */, 1, 0, &body.into_vec());
    let reply = unwrap_ok(host.serve(&mut session, &req));
    assert_eq!(reply.len(), wire::INIT_OUT_LEN);
    assert_eq!(u32::from_le_bytes(reply[0..4].try_into().unwrap()), 7);
    assert_eq!(
        u32::from_le_bytes(reply[4..8].try_into().unwrap()),
        wire::INIT_OUT_MINOR
    );
}

#[test]
fn create_write_read_via_dispatch() {
    let (mut host, mut session) = session_in_memory();

    let mut create_body = Writer::new();
    create_body
        .u32(libc::O_RDWR as u32)
        .u32(0o644)
        .u32(0)
        .u32(0);
    create_body.cstr(b"f.txt");
    let req = request(35 /* CREATE */, 1, ROOT_ID, &create_body.into_vec());
    let reply = unwrap_ok(host.serve(&mut session, &req));
    assert_eq!(reply.len(), wire::ENTRY_OUT_LEN + 16);
    let fh = u64::from_le_bytes(
        reply[wire::ENTRY_OUT_LEN..wire::ENTRY_OUT_LEN + 8]
            .try_into()
            .unwrap(),
    );

    let mut write_body = Writer::new();
    write_body.u64(fh).u64(0).u32(5).u32(0).u64(0).u32(0).u32(0);
    write_body.bytes(b"hello");
    let req = request(16 /* WRITE */, 2, 0, &write_body.into_vec());
    let reply = unwrap_ok(host.serve(&mut session, &req));
    assert_eq!(u32::from_le_bytes(reply[0..4].try_into().unwrap()), 5);

    let on_disk = &host.nodes[host.child(0, b"f.txt").unwrap()].data;
    assert_eq!(on_disk, b"hello");

    let mut read_body = Writer::new();
    read_body
        .u64(fh)
        .u64(0)
        .u32(4096)
        .u32(0)
        .u64(0)
        .u32(0)
        .u32(0);
    let req = request(15 /* READ */, 3, 0, &read_body.into_vec());
    let reply = unwrap_ok(host.serve(&mut session, &req));
    assert_eq!(reply, b"hello");
}

#[test]
fn forget_gets_no_reply() {
    let (mut host, mut session) = session_in_memory();
    let mut body = Writer::new();
    body.u64(1);
    let req = request(2 /* FORGET */, 1, ROOT_ID, &body.into_vec());
    assert!(matches!(host.serve(&mut session, &req), Reply::Nothing));
}

#[test]
fn unknown_opcode_is_enosys_not_a_panic() {
    let (mut host, mut session) = session_in_memory();
    let req = request(9999, 1, ROOT_ID, &[]);
    match host.serve(&mut session, &req) {
        Reply::Bytes(b) => {
            let err = i32::from_le_bytes(b[4..8].try_into().unwrap());
            // -38, Linux's ENOSYS, on the wire.
            assert_eq!(err, -38);
        }
        Reply::Nothing => panic!("expected an ENOSYS reply"),
    }
}

fn listed_names(reply: &[u8]) -> Vec<String> {
    let mut names = Vec::new();
    let mut off = 0;
    while off < reply.len() {
        let namelen = u32::from_le_bytes(reply[off + 16..off + 20].try_into().unwrap()) as usize;
        let name = &reply[off + 24..off + 24 + namelen];
        names.push(String::from_utf8_lossy(name).into_owned());
        let padded = (24 + namelen).div_ceil(8) * 8;
        off += padded;
    }
    names
}

fn create_request(name: &[u8]) -> Vec<u8> {
    let mut body = Writer::new();
    body.u32(libc::O_RDWR as u32).u32(0o644).u32(0).u32(0);
    body.cstr(name);
    request(35, 1, ROOT_ID, &body.into_vec())
}

fn readdir_request(dh: u64, offset: u64, size: u32) -> Vec<u8> {
    let mut body = Writer::new();
    body.u64(dh).u64(offset).u32(size).u32(0).u64(0).u32(0).u32(0);
    request(28 /* READDIR */, 3, ROOT_ID, &body.into_vec())
}

fn opendir(host: &mut Host, session: &mut Session<Fd, Stream>) -> u64 {
    let mut open_body = Writer::new();
    open_body.u32(0).u32(0);
    let req = request(27 /* OPENDIR */, 2, ROOT_ID, &open_body.into_vec());
    let reply = unwrap_ok(host.serve(session, &req));
    u64::from_le_bytes(reply[0..8].try_into().unwrap())
}

#[test]
fn readdir_lists_created_entries() {
    let (mut host, mut session) = session_in_memory();

    for name in ["a", "b", "c"] {
        unwrap_ok(host.serve(&mut session, &create_request(name.as_bytes())));
    }

    let dh = opendir(&mut host, &mut session);
    let reply = unwrap_ok(host.serve(&mut session, &readdir_request(dh, 0, 4096)));

    let mut names = listed_names(&reply);
    names.sort();
    assert_eq!(names, vec!["a", "b", "c"]);
}

#[test]
fn a_listing_is_paged_without_gaps() {
    let (mut host, mut session) = session_in_memory();
    for name in ["a", "bb", "a-long-name-of-its-own", "d"] {
        unwrap_ok(host.serve(&mut session, &create_request(name.as_bytes())));
    }
    let dh = opendir(&mut host, &mut session);
    let whole = unwrap_ok(host.serve(&mut session, &readdir_request(dh, 0, 4096)));
    assert_eq!(whole.len(), 32 + 32 + 48 + 32);

    // Pages of at most 80 bytes, each going on at the offset of the last entry
    // of the one before. Files that come and go meanwhile do not matter.
    let mut paged = vec![];
    let mut offset = 0;
    loop {
        let page = unwrap_ok(host.serve(&mut session, &readdir_request(dh, offset, 80)));
        assert!(page.len() <= 80);
        if page.is_empty() {
            break;
        }
        let mut off = 0;
        while off < page.len() {
            offset = u64::from_le_bytes(page[off + 8..off + 16].try_into().unwrap());
            let namelen = u32::from_le_bytes(page[off + 16..off + 20].try_into().unwrap());
            off += (24 + namelen as usize).div_ceil(8) * 8;
        }
        paged.extend_from_slice(&page);
        host.nodes[0].children.clear();
    }
    assert_eq!(paged, whole);
    assert_eq!(offset, 4);

    // Listing from the start again sees the directory as it is now.
    let again = unwrap_ok(host.serve(&mut session, &readdir_request(dh, 0, 4096)));
    assert!(again.is_empty());
}

#[test]
fn a_closed_directory_is_not_listed() {
    let (mut host, mut session) = session_in_memory();
    unwrap_ok(host.serve(&mut session, &create_request(b"a")));
    let dh = opendir(&mut host, &mut session);
    unwrap_ok(host.serve(&mut session, &readdir_request(dh, 0, 4096)));
    let mut body = Writer::new();
    body.u64(dh);
    let body = body.into_vec();
    let release = request(29 /* RELEASEDIR */, 4, ROOT_ID, &body);
    assert!(unwrap_ok(host.serve(&mut session, &release)).is_empty());
    assert_eq!(unwrap_errno(host.serve(&mut session, &release)), -9);
    assert_eq!(
        unwrap_errno(host.serve(&mut session, &readdir_request(dh, 1, 4096))),
        -9
    );
}

#[test]
fn replies_carry_the_request_they_answer() {
    let (mut host, mut session) = session_in_memory();
    let body = [0u8; 16];
    let req = request(3 /* GETATTR */, 0x1122_3344_5566_7788, ROOT_ID, &body);
    match host.serve(&mut session, &req) {
        Reply::Bytes(b) => {
            assert_eq!(b.len(), wire::OUT_HEADER_LEN + wire::ATTR_OUT_LEN);
            assert_eq!(
                u32::from_le_bytes(b[0..4].try_into().unwrap()) as usize,
                b.len()
            );
            assert_eq!(
                u64::from_le_bytes(b[8..16].try_into().unwrap()),
                0x1122_3344_5566_7788
            );
        }
        Reply::Nothing => panic!("expected a reply"),
    }
    // A request without a whole header has no id to answer.
    assert!(matches!(
        host.serve(&mut session, &req[..39]),
        Reply::Nothing
    ));
}

#[test]
fn short_bodies_are_einval() {
    let (mut host, mut session) = session_in_memory();
    for opcode in [
        26, 3, 4, 6, 9, 12, 45, 13, 14, 35, 15, 16, 25, 20, 18, 27, 28, 29, 34,
    ] {
        let req = request(opcode, 1, ROOT_ID, &[]);
        assert_eq!(
            unwrap_errno(host.serve(&mut session, &req)),
            -22,
            "opcode {opcode}"
        );
    }
    // Extended attributes are not served.
    for opcode in [21, 22, 23, 24] {
        let req = request(opcode, 1, ROOT_ID, &[0; 64]);
        assert_eq!(unwrap_errno(host.serve(&mut session, &req)), -38);
    }
    // These need no body, or look at none of it.
    for opcode in [38, 30] {
        let req = request(opcode, 1, ROOT_ID, &[]);
        assert!(unwrap_ok(host.serve(&mut session, &req)).is_empty());
    }
}

#[test]
fn requests_without_an_effect_succeed() {
    let (mut host, mut session) = session_in_memory();
    let flush = request(25, 1, ROOT_ID, &[0; 8]);
    assert!(unwrap_ok(host.serve(&mut session, &flush)).is_empty());
    let access = request(34, 1, ROOT_ID, &[0; 4]);
    assert!(unwrap_ok(host.serve(&mut session, &access)).is_empty());
}

#[test]
fn names_are_made_renamed_linked_and_removed_via_dispatch() {
    let (mut host, mut session) = session_in_memory();

    let mut body = Writer::new();
    body.u32(0o755).u32(0).cstr(b"dir");
    let mkdir = request(9, 1, ROOT_ID, &body.into_vec());
    let reply = unwrap_ok(host.serve(&mut session, &mkdir));
    assert_eq!(reply.len(), wire::ENTRY_OUT_LEN);
    let dir = u64::from_le_bytes(reply[0..8].try_into().unwrap());

    let symlink = request(6, 1, dir, b"link\0where\0");
    let reply = unwrap_ok(host.serve(&mut session, &symlink));
    let link = u64::from_le_bytes(reply[0..8].try_into().unwrap());
    let readlink = request(5, 1, link, &[]);
    assert_eq!(unwrap_ok(host.serve(&mut session, &readlink)), b"where");

    let mut body = Writer::new();
    body.u64(ROOT_ID).cstr(b"link").cstr(b"moved");
    let rename = request(12, 1, dir, &body.into_vec());
    assert!(unwrap_ok(host.serve(&mut session, &rename)).is_empty());
    assert_eq!(unwrap_ok(host.serve(&mut session, &readlink)), b"where");

    let mut body = Writer::new();
    body.u64(dir).u64(0).cstr(b"moved").cstr(b"back");
    let rename2 = request(45, 1, ROOT_ID, &body.into_vec());
    assert!(unwrap_ok(host.serve(&mut session, &rename2)).is_empty());
    assert_eq!(unwrap_ok(host.serve(&mut session, &readlink)), b"where");

    let mut body = Writer::new();
    body.u64(link).cstr(b"second");
    let hard = request(13, 1, ROOT_ID, &body.into_vec());
    let reply = unwrap_ok(host.serve(&mut session, &hard));
    assert_eq!(u64::from_le_bytes(reply[0..8].try_into().unwrap()), link);

    let lookup = request(1, 1, dir, b"back\0");
    let reply = unwrap_ok(host.serve(&mut session, &lookup));
    assert_eq!(u64::from_le_bytes(reply[0..8].try_into().unwrap()), link);

    let full = request(11, 1, ROOT_ID, b"dir\0");
    assert_eq!(
        unwrap_errno(host.serve(&mut session, &full)),
        -libc::ENOTEMPTY
    );
    let unlink = request(10, 1, dir, b"back\0");
    assert!(unwrap_ok(host.serve(&mut session, &unlink)).is_empty());
    assert!(unwrap_ok(host.serve(&mut session, &full)).is_empty());
    assert_eq!(
        unwrap_errno(host.serve(&mut session, &request(1, 1, ROOT_ID, b"dir"))),
        -2
    );
}

#[test]
fn setattr_via_dispatch_knows_the_time() {
    let (mut host, mut session) = session_in_memory();
    let reply = unwrap_ok(host.serve(&mut session, &create_request(b"f")));
    let ino = u64::from_le_bytes(reply[0..8].try_into().unwrap());

    let valid = wire::FATTR_MODE | wire::FATTR_ATIME | wire::FATTR_MTIME_NOW | wire::FATTR_SIZE;
    let mut body = Writer::new();
    body.u32(valid).u32(0).u64(0).u64(6).u64(0).u64(77).u64(88).u64(0);
    body.u32(9).u32(10).u32(0).u32(0o600).u32(0).u32(3).u32(4).u32(0);
    let body = body.into_vec();
    assert_eq!(body.len(), 88);
    let reply = unwrap_ok(host.serve(&mut session, &request(4, 1, ino, &body)));
    assert_eq!(reply.len(), wire::ATTR_OUT_LEN);
    assert_eq!(
        host.log,
        vec![
            "truncate 6",
            "chmod f 600",
            "times Some((77, 9)) Some((1700000000, 5))"
        ]
    );
}

#[test]
fn a_write_takes_no_more_than_it_says_or_has() {
    let (mut host, mut session) = session_in_memory();
    let reply = unwrap_ok(host.serve(&mut session, &create_request(b"f")));
    let fh = u64::from_le_bytes(reply[128..136].try_into().unwrap());
    for (size, data, expected) in [(2u32, "hello", 2u32), (9, "abc", 3)] {
        let mut body = Writer::new();
        body.u64(fh).u64(0).u32(size).u32(0).u64(0).u32(0).u32(0);
        body.bytes(data.as_bytes());
        let reply = unwrap_ok(host.serve(&mut session, &request(16, 2, 0, &body.into_vec())));
        assert_eq!(u32::from_le_bytes(reply[0..4].try_into().unwrap()), expected);
    }
    assert_eq!(host.nodes[1].data, b"abc");
    let mut body = Writer::new();
    body.u64(fh);
    let body = body.into_vec();
    assert!(unwrap_ok(host.serve(&mut session, &request(20, 2, 0, &body))).is_empty());
    assert!(unwrap_ok(host.serve(&mut session, &request(18, 2, 0, &body))).is_empty());
    assert_eq!(
        unwrap_errno(host.serve(&mut session, &request(20, 2, 0, &body))),
        -9
    );
}

#[test]
fn statfs_and_open_via_dispatch() {
    let (mut host, mut session) = session_in_memory();
    let reply = unwrap_ok(host.serve(&mut session, &request(17, 2, ROOT_ID, &[])));
    let mut expected = Writer::new();
    expected.u64(1).u64(2).u64(3).u64(4).u64(5).u32(6).u32(7).u32(8);
    expected.pad_to(80);
    assert_eq!(reply, expected.into_vec());

    let reply = unwrap_ok(host.serve(&mut session, &create_request(b"f")));
    let ino = u64::from_le_bytes(reply[0..8].try_into().unwrap());
    let mut body = Writer::new();
    body.u32(libc::O_RDONLY as u32).u32(0);
    let reply = unwrap_ok(host.serve(&mut session, &request(14, 2, ino, &body.into_vec())));
    assert_eq!(reply, [2, 0, 0, 0, 0, 0, 0, 0, 0, 0, 0, 0, 0, 0, 0, 0]);
}

#[test]
fn a_batch_forget_forgets_all_of_it() {
    let (mut host, mut session) = session_in_memory();
    for name in ["a", "b", "c"] {
        unwrap_ok(host.serve(&mut session, &create_request(name.as_bytes())));
    }
    assert_eq!(session.fs().inode_count(), 4);
    let mut body = Writer::new();
    body.u32(2).u32(0).u64(2).u64(1).u64(4).u64(1);
    let req = request(42, 1, 0, &body.into_vec());
    assert!(matches!(host.serve(&mut session, &req), Reply::Nothing));
    assert_eq!(session.fs().inode_count(), 2);
}

type Back<'a> = Server<'a, i32, Fd, Stream>;

/// Sends a message to the back-end.
fn tell(
    server: &mut Back<'_>,
    request: Request,
    payload: &[u8],
    fds: Vec<i32>,
) -> Result<ServerAction<i32>, ProtoError> {
    let header = MsgHeader::new(request, 0, payload.len() as u32);
    server.handle_one_message(header, payload, fds)
}

fn nothing(r: Result<ServerAction<i32>, ProtoError>) {
    assert!(matches!(r, Ok(Action::Nothing)));
}

/// The payload of a reply message.
fn reply_to(request: Request, r: Result<ServerAction<i32>, ProtoError>) -> Vec<u8> {
    match r {
        Ok(Action::Reply(message)) => {
            let header = MsgHeader::from_bytes(&message[..12].try_into().unwrap());
            assert!(header.is_reply());
            assert_eq!(header.request().unwrap(), request);
            assert_eq!(header.size as usize, message.len() - 12);
            message[12..].to_vec()
        }
        _ => panic!("expected a reply"),
    }
}

fn state(index: u32, num: u32) -> [u8; 8] {
    VringState { index, num }.to_bytes()
}

/// Looks through a vring, and gives the number of requests that were served.
fn process(host: &mut Host, server: &mut Back<'_>, vring: usize) -> Result<u64, ProtoError> {
    let mut served = 0;
    loop {
        assert!(server.vring_ready(vring));
        let mut turn = server.next_request(vring, (0, 0))?;
        loop {
            match turn {
                Turn::Empty => return Ok(served),
                Turn::Served => break,
                Turn::Call(call, flight) => {
                    let result = host.perform(server.session().fs(), call);
                    turn = server.resume_request(flight, result)?;
                }
            }
        }
        served += 1;
    }
}

fn init_request(unique: u64) -> Vec<u8> {
    let mut body = Writer::new();
    body.u32(7).u32(45).u32(0).u32(0);
    request(26, unique, 0, &body.into_vec())
}

const GPA_BASE: u64 = 0x4000_0000;
const USER_BASE: u64 = 0x7f_0000_0000;
const QUEUE_SIZE: u16 = 8;
const DESC: u64 = USER_BASE + 0x1000;
const AVAIL: u64 = DESC + QUEUE_SIZE as u64 * 16;
const USED: u64 = AVAIL + 4 + QUEUE_SIZE as u64 * 2 + 64;
const REQ: u64 = GPA_BASE + 0x2000;
const RESP: u64 = REQ + 256;

fn put_desc(mem: &mut GuestMemory<'_>, i: u64, addr: u64, len: u32, flags: u16, next: u16) {
    let at = DESC + 16 * i;
    mem.write_slice(AddrSpace::User, at, &addr.to_le_bytes())
        .unwrap();
    mem.write_u32(AddrSpace::User, at + 8, len).unwrap();
    mem.write_u16(AddrSpace::User, at + 12, flags).unwrap();
    mem.write_u16(AddrSpace::User, at + 14, next).unwrap();
}

/// Guest memory with one request published in it, in descriptors 0 (the
/// request) and 1 (the reply).
fn publish(mem: &mut GuestMemory<'_>, req: &[u8]) {
    mem.write_slice(AddrSpace::Gpa, REQ, req).unwrap();
    put_desc(mem, 0, REQ, req.len() as u32, 1, 1);
    put_desc(mem, 1, RESP, 4096, 2, 0);
    mem.write_u16(AddrSpace::User, AVAIL + 4, 0).unwrap();
    mem.write_u16(AddrSpace::User, AVAIL + 2, 1).unwrap();
}

fn set_up_vring(server: &mut Back<'_>) {
    nothing(tell(
        server,
        Request::SetVringNum,
        &state(1, QUEUE_SIZE as u32),
        vec![],
    ));
    let addr = VringAddr {
        index: 1,
        flags: 0,
        descriptor: DESC,
        used: USED,
        avail: AVAIL,
        log: 0,
    };
    nothing(tell(
        server,
        Request::SetVringAddr,
        &addr.to_bytes(),
        vec![],
    ));
    nothing(tell(server, Request::SetVringBase, &state(1, 0), vec![]));
}

#[test]
fn full_handshake_and_one_request() {
    let (mut host, session) = session_in_memory();
    let mut bytes = vec![0u8; 1 << 20];
    let mut mem = GuestMemory::new();
    mem.add_region(GPA_BASE, USER_BASE, &mut bytes);
    publish(&mut mem, &init_request(1));
    let mut server: Back<'_> = Server::new(session);

    // --- feature negotiation ---
    let p = reply_to(
        Request::GetFeatures,
        tell(&mut server, Request::GetFeatures, &[], vec![]),
    );
    assert_eq!(U64Payload::from_bytes(&p).unwrap().0, VIRTIO_FEATURES);
    assert_eq!(VIRTIO_FEATURES, (1 << 30) | (1 << 32));
    nothing(tell(
        &mut server,
        Request::SetFeatures,
        &U64Payload(VIRTIO_FEATURES).to_bytes(),
        vec![],
    ));
    let p = reply_to(
        Request::GetProtocolFeatures,
        tell(&mut server, Request::GetProtocolFeatures, &[], vec![]),
    );
    assert_eq!(U64Payload::from_bytes(&p).unwrap().0, 0);
    nothing(tell(
        &mut server,
        Request::SetProtocolFeatures,
        &U64Payload(0).to_bytes(),
        vec![],
    ));
    nothing(tell(&mut server, Request::SetOwner, &[], vec![]));
    let p = reply_to(
        Request::GetQueueNum,
        tell(&mut server, Request::GetQueueNum, &[], vec![]),
    );
    assert_eq!(U64Payload::from_bytes(&p).unwrap().0, NUM_QUEUES as u64);

    // --- shared memory ---
    let table = MemoryRegions {
        regions: vec![MemoryRegion {
            guest_phys_addr: GPA_BASE,
            memory_size: 1 << 20,
            userspace_addr: USER_BASE,
            mmap_offset: 0,
        }],
    };
    match tell(
        &mut server,
        Request::SetMemTable,
        &table.to_bytes(),
        vec![33],
    ) {
        Ok(Action::MapMemory { regions, fds }) => {
            assert_eq!(regions, table.regions);
            assert_eq!(fds, vec![33]);
        }
        _ => panic!("expected memory to be mapped"),
    }
    server.set_memory(mem);

    // --- one virtqueue, with its descriptors ---
    set_up_vring(&mut server);
    let fd = VringFdPayload {
        index: 1,
        no_fd: false,
    };
    nothing(tell(
        &mut server,
        Request::SetVringKick,
        &fd.to_bytes(),
        vec![10],
    ));
    nothing(tell(
        &mut server,
        Request::SetVringCall,
        &fd.to_bytes(),
        vec![11],
    ));
    assert!(server.kick_slots().is_empty());
    nothing(tell(&mut server, Request::SetVringEnable, &state(1, 1), vec![]));
    assert_eq!(server.kick_slots(), vec![1]);
    assert_eq!(server.kick_fd(1), Some(&10));

    // --- the request is served, and the guest is to be notified ---
    assert_eq!(process(&mut host, &mut server, 1), Ok(1));
    assert_eq!(server.notify_fd(1, 1), Some(&11));
    assert_eq!(server.notify_fd(1, 0), None);
    assert_eq!(server.notify_fd(0, 1), None);
    assert_eq!(process(&mut host, &mut server, 1), Ok(0));

    let p = reply_to(
        Request::GetVringBase,
        tell(&mut server, Request::GetVringBase, &state(1, 0), vec![]),
    );
    assert_eq!(
        VringState::from_bytes(&p).unwrap(),
        VringState { index: 1, num: 1 }
    );
    drop(server);

    let mut guest_mem = GuestMemory::new();
    guest_mem.add_region(GPA_BASE, USER_BASE, &mut bytes);
    assert_eq!(guest_mem.read_u16(AddrSpace::User, USED + 2), Some(1));
    assert_eq!(guest_mem.read_u32(AddrSpace::User, USED + 4), Some(0));
    let used_len = guest_mem.read_u32(AddrSpace::User, USED + 8).unwrap();
    assert_eq!(used_len as usize, wire::INIT_OUT_LEN + wire::OUT_HEADER_LEN);
    let reply = guest_mem
        .get_slice(AddrSpace::Gpa, RESP, used_len as u64)
        .unwrap();
    let err = i32::from_le_bytes(reply[4..8].try_into().unwrap());
    assert_eq!(err, 0);
    let major = u32::from_le_bytes(
        reply[wire::OUT_HEADER_LEN..wire::OUT_HEADER_LEN + 4]
            .try_into()
            .unwrap(),
    );
    assert_eq!(major, 7);
}

#[test]
fn a_request_with_calls_is_answered_in_its_own_chain() {
    let (mut host, session) = session_in_memory();
    host.add(0, b"f", node(0o100_600));
    let mut bytes = vec![0u8; 1 << 16];
    let mut mem = GuestMemory::new();
    mem.add_region(GPA_BASE, USER_BASE, &mut bytes);
    publish(&mut mem, &request(1, 9, ROOT_ID, b"f\0"));
    let mut server: Back<'_> = Server::new(session);
    server.set_memory(mem);
    set_up_vring(&mut server);
    assert_eq!(process(&mut host, &mut server, 1), Ok(1));
    assert_eq!(server.session().fs().inode_count(), 2);
    drop(server);
    let mut guest_mem = GuestMemory::new();
    guest_mem.add_region(GPA_BASE, USER_BASE, &mut bytes);
    assert_eq!(
        guest_mem.read_u32(AddrSpace::User, USED + 8),
        Some((wire::OUT_HEADER_LEN + wire::ENTRY_OUT_LEN) as u32)
    );
    assert_eq!(guest_mem.read_u64(AddrSpace::Gpa, RESP + 8), Some(9));
    assert_eq!(guest_mem.read_u64(AddrSpace::Gpa, RESP + 16), Some(2));
}

#[test]
fn a_forget_is_published_without_bytes() {
    let (mut host, session) = session_in_memory();
    let mut bytes = vec![0u8; 1 << 16];
    let mut mem = GuestMemory::new();
    mem.add_region(GPA_BASE, USER_BASE, &mut bytes);
    publish(&mut mem, &request(2, 9, ROOT_ID, &[1, 0, 0, 0, 0, 0, 0, 0]));
    let mut server: Back<'_> = Server::new(session);
    server.set_memory(mem);
    set_up_vring(&mut server);
    assert_eq!(process(&mut host, &mut server, 1), Ok(1));
    drop(server);
    let mut guest_mem = GuestMemory::new();
    guest_mem.add_region(GPA_BASE, USER_BASE, &mut bytes);
    assert_eq!(guest_mem.read_u16(AddrSpace::User, USED + 2), Some(1));
    assert_eq!(guest_mem.read_u32(AddrSpace::User, USED + 8), Some(0));
    assert_eq!(guest_mem.read_u64(AddrSpace::Gpa, RESP), Some(0));
}

#[test]
fn a_vring_that_is_not_set_up_has_no_requests() {
    let (mut host, session) = session_in_memory();
    let mut server: Back<'_> = Server::new(session);
    assert_eq!(process(&mut host, &mut server, 0), Ok(0));
    set_up_vring(&mut server);
    assert_eq!(process(&mut host, &mut server, 1), Ok(0));
    server.set_memory(GuestMemory::new());
    assert_eq!(process(&mut host, &mut server, 0), Ok(0));
    assert_eq!(
        process(&mut host, &mut server, 1),
        Err(ProtoError::Virtqueue(VirtqueueError::OutOfBounds))
    );
}

#[test]
fn a_waiting_chain_on_a_vring_of_size_zero_is_not_ready() {
    let (_host, session) = session_in_memory();
    let mut bytes = vec![0u8; 1 << 16];
    let mut mem = GuestMemory::new();
    mem.add_region(GPA_BASE, USER_BASE, &mut bytes);
    publish(&mut mem, &init_request(1));
    let mut server: Back<'_> = Server::new(session);
    server.set_memory(mem);
    nothing(tell(
        &mut server,
        Request::SetVringNum,
        &state(1, 0x1_0000),
        vec![],
    ));
    let addr = VringAddr {
        index: 1,
        flags: 0,
        descriptor: DESC,
        used: USED,
        avail: AVAIL,
        log: 0,
    };
    nothing(tell(
        &mut server,
        Request::SetVringAddr,
        &addr.to_bytes(),
        vec![],
    ));
    assert!(!server.vring_ready(1));
    assert!(server.vring_ready(0));
    nothing(tell(&mut server, Request::SetVringBase, &state(1, 1), vec![]));
    assert!(server.vring_ready(1));
}

#[test]
fn messages_that_cannot_be_read_are_refused() {
    let (_host, session) = session_in_memory();
    let mut server: Back<'_> = Server::new(session);
    for request in [
        Request::SetFeatures,
        Request::SetMemTable,
        Request::SetVringNum,
        Request::SetVringAddr,
        Request::SetVringBase,
        Request::GetVringBase,
        Request::SetVringKick,
        Request::SetVringCall,
        Request::SetVringErr,
        Request::SetVringEnable,
    ] {
        assert!(matches!(
            tell(&mut server, request, &[0; 7], vec![]),
            Err(ProtoError::Truncated)
        ));
    }
    // A memory table with one region, and no descriptor for it.
    let mut table = vec![0u8; 40];
    table[0] = 1;
    assert!(matches!(
        tell(&mut server, Request::SetMemTable, &table, vec![]),
        Err(ProtoError::Truncated)
    ));
    // Messages that are not known, or that nothing depends on.
    let unknown = MsgHeader {
        request: 9999,
        flags: 1,
        size: 0,
    };
    nothing(server.handle_one_message(unknown, &[], vec![]));
    for request in [Request::ResetOwner, Request::SetLogBase, Request::SetLogFd] {
        nothing(tell(&mut server, request, &[], vec![]));
    }
    // A vring that there is not.
    for request in [
        Request::SetVringNum,
        Request::SetVringBase,
        Request::SetVringEnable,
    ] {
        nothing(tell(&mut server, request, &state(2, 1), vec![]));
    }
    let p = reply_to(
        Request::GetVringBase,
        tell(&mut server, Request::GetVringBase, &state(2, 5), vec![]),
    );
    assert_eq!(
        VringState::from_bytes(&p).unwrap(),
        VringState { index: 2, num: 0 }
    );
}

#[test]
fn a_vring_starts_at_its_base_whatever_comes_first() {
    for base_first in [false, true] {
        let (_host, session) = session_in_memory();
        let mut server: Back<'_> = Server::new(session);
        if base_first {
            nothing(tell(&mut server, Request::SetVringBase, &state(1, 6), vec![]));
        }
        nothing(tell(&mut server, Request::SetVringNum, &state(1, 8), vec![]));
        let addr = VringAddr {
            index: 1,
            flags: 0,
            descriptor: DESC,
            used: USED,
            avail: AVAIL,
            log: 0,
        };
        nothing(tell(
            &mut server,
            Request::SetVringAddr,
            &addr.to_bytes(),
            vec![],
        ));
        if !base_first {
            nothing(tell(&mut server, Request::SetVringBase, &state(1, 6), vec![]));
        }
        let p = reply_to(
            Request::GetVringBase,
            tell(&mut server, Request::GetVringBase, &state(1, 0), vec![]),
        );
        assert_eq!(VringState::from_bytes(&p).unwrap().num, 6);
    }
}

#[test]
fn descriptors_are_taken_from_the_front() {
    let mut fds = vec![4, 5];
    assert_eq!(take_fd(&mut fds, true), None);
    assert_eq!(take_fd(&mut fds, false), Some(4));
    assert_eq!(fds, vec![5]);
    assert_eq!(take_fd(&mut fds, false), Some(5));
    assert_eq!(take_fd(&mut fds, false), None);
}

#[test]
fn the_server_ends_when_its_front_end_is_gone() {
    assert_eq!(after_failed_poll(&HostErrnos::this_host(), libc::EINTR), Control::Continue);
    assert_eq!(
        after_failed_poll(&HostErrnos::this_host(), libc::ENOMEM),
        Control::Fail(ProtoError::Io {
            errno: libc::ENOMEM
        })
    );
    assert_eq!(after_control(Ok(()), false), Control::Continue);
    assert_eq!(after_control(Ok(()), true), Control::Stop);
    assert_eq!(
        after_control(Err(ProtoError::Disconnected), false),
        Control::Stop
    );
    assert_eq!(
        after_control(Err(ProtoError::Truncated), true),
        Control::Fail(ProtoError::Truncated)
    );
}

#[test]
fn forgets_get_no_reply_even_if_they_cannot_be_read() {
    let (mut host, mut session) = session_in_memory();
    host.add(0, b"f", node(0o100_600));
    let lookup = request(1, 1, ROOT_ID, b"f\0");
    unwrap_ok(host.serve(&mut session, &lookup));
    let mut batch = Writer::new();
    batch.u32(2).u32(0).u64(2).u64(1);
    let batch = batch.into_vec();
    let short: [(u32, &[u8]); 4] = [(2, &[]), (2, &[0; 7]), (42, &[]), (42, &batch)];
    for (opcode, body) in short {
        let req = request(opcode, 1, 2, body);
        assert!(matches!(host.serve(&mut session, &req), Reply::Nothing));
        assert_eq!(session.fs().inode_count(), 2);
    }
    let req = request(2, 1, 2, &[1, 0, 0, 0, 0, 0, 0, 0]);
    assert!(matches!(host.serve(&mut session, &req), Reply::Nothing));
    assert_eq!(session.fs().inode_count(), 1);
}

#[test]
fn a_single_read_or_write_is_at_most_what_is_advertised() {
    let (mut host, mut session) = session_in_memory();
    let reply = unwrap_ok(host.serve(&mut session, &create_request(b"f")));
    let fh = u64::from_le_bytes(reply[128..136].try_into().unwrap());
    let limit = wire::MAX_WRITE as usize;
    assert_eq!(limit, 131_072);

    let mut body = Writer::new();
    body.u64(fh).u64(0).u32(200_000).u32(0).u64(0).u32(0).u32(0);
    body.bytes(&[7; 200_000]);
    let reply = unwrap_ok(host.serve(&mut session, &request(16, 2, 0, &body.into_vec())));
    assert_eq!(u32::from_le_bytes(reply[0..4].try_into().unwrap()), 131_072);
    assert_eq!(host.nodes[1].data, vec![7; limit]);

    host.nodes[1].data = vec![8; 200_000];
    for (size, expected) in [(131_071, 131_071), (131_072, 131_072), (131_073, 131_072)] {
        let mut body = Writer::new();
        body.u64(fh).u64(0).u32(size).u32(0).u64(0).u32(0).u32(0);
        let reply = unwrap_ok(host.serve(&mut session, &request(15, 2, 0, &body.into_vec())));
        assert_eq!(reply, vec![8; expected]);
    }
}

#[test]
fn a_read_keeps_no_more_than_it_asked_for() {
    let (mut host, mut fs) = fs_in_memory();
    let (_, handle, _) = create(&mut host, &mut fs, ROOT_ID, "f");
    match fs.read(handle, 0, 3) {
        Step::Call(SysCall::Read { len: 3, .. }, task) => {
            let step = fs.resume(task, SysResult::Bytes(b"hello".to_vec()));
            assert!(matches!(step, Step::Done(Ok(FsOut::Bytes(b))) if b == b"hel"));
        }
        _ => panic!("expected a read"),
    }
}

#[test]
fn errors_are_linux_errnos_whatever_the_host_calls_them() {
    let mut host = Host::new();
    let mut errnos = HostErrnos::this_host();
    errnos.numbers[AT_ENOSYS] = 1078;
    errnos.numbers[AT_EINVAL] = 1022;
    errnos.numbers[AT_EBADF] = 1009;
    assert!(errnos.is_wf());
    let fs = PassthroughFs::new(
        Fd { node: 0, flags: 0 },
        &host.stat(0),
        Platform {
            errnos,
            ..platform()
        },
    );
    let mut session: Session<Fd, Stream> = Session::new(fs);
    let xattr = request(22, 1, ROOT_ID, &[0; 64]);
    assert_eq!(unwrap_errno(host.serve(&mut session, &xattr)), -38);
    let unknown = request(9999, 1, ROOT_ID, &[]);
    assert_eq!(unwrap_errno(host.serve(&mut session, &unknown)), -38);
    let short = request(3, 1, ROOT_ID, &[]);
    assert_eq!(unwrap_errno(host.serve(&mut session, &short)), -22);
    let stranger = request(3, 1, 77, &[0; 16]);
    assert_eq!(unwrap_errno(host.serve(&mut session, &stranger)), -9);
}

#[test]
fn a_vring_is_drained_of_every_request_in_order() {
    let (mut host, session) = session_in_memory();
    host.add(0, b"f", node(0o100_600));
    let mut bytes = vec![0u8; 1 << 16];
    let mut mem = GuestMemory::new();
    mem.add_region(GPA_BASE, USER_BASE, &mut bytes);
    let requests = [
        init_request(100),
        request(1, 101, ROOT_ID, b"f\0"),
        request(2, 102, 2, &[1, 0, 0, 0, 0, 0, 0, 0]),
        request(3, 103, 2, &[0; 16]),
    ];
    let heads = [4u64, 0, 6, 2];
    for (i, req) in requests.iter().enumerate() {
        let at = REQ + 1024 * i as u64;
        mem.write_slice(AddrSpace::Gpa, at, req).unwrap();
        put_desc(&mut mem, heads[i], at, req.len() as u32, 1, heads[i] as u16 + 1);
        put_desc(&mut mem, heads[i] + 1, at + 512, 512, 2, 0);
        mem.write_u16(AddrSpace::User, AVAIL + 4 + 2 * i as u64, heads[i] as u16)
            .unwrap();
    }
    mem.write_u16(AddrSpace::User, AVAIL + 2, 4).unwrap();
    let mut server: Back<'_> = Server::new(session);
    server.set_memory(mem);
    set_up_vring(&mut server);
    assert_eq!(process(&mut host, &mut server, 1), Ok(4));
    let p = reply_to(
        Request::GetVringBase,
        tell(&mut server, Request::GetVringBase, &state(1, 0), vec![]),
    );
    assert_eq!(VringState::from_bytes(&p).unwrap().num, 4);
    drop(server);

    let mut guest_mem = GuestMemory::new();
    guest_mem.add_region(GPA_BASE, USER_BASE, &mut bytes);
    assert_eq!(guest_mem.read_u16(AddrSpace::User, USED + 2), Some(4));
    let lengths = [80, 144, 0, 16];
    for i in 0..4 {
        let slot = USED + 4 + 8 * i as u64;
        assert_eq!(
            guest_mem.read_u32(AddrSpace::User, slot),
            Some(heads[i] as u32)
        );
        assert_eq!(guest_mem.read_u32(AddrSpace::User, slot + 4), Some(lengths[i]));
        let answered = if i == 2 { 0 } else { 100 + i as u64 };
        assert_eq!(
            guest_mem.read_u64(AddrSpace::Gpa, REQ + 1024 * i as u64 + 512 + 8),
            Some(answered)
        );
    }
}

#[test]
fn a_drain_goes_on_when_a_reply_is_cut_short() {
    let (mut host, session) = session_in_memory();
    host.add(0, b"f", node(0o100_600));
    let mut bytes = vec![0u8; 1 << 16];
    let mut mem = GuestMemory::new();
    mem.add_region(GPA_BASE, USER_BASE, &mut bytes);
    let requests = [
        init_request(100),
        request(1, 101, ROOT_ID, b"f\0"),
        request(3, 102, ROOT_ID, &[0; 16]),
    ];
    let heads = [2u64, 0, 4];
    // The lookup's reply has 144 bytes.
    let rooms = [512, 20, 512];
    for (i, req) in requests.iter().enumerate() {
        let at = REQ + 1024 * i as u64;
        mem.write_slice(AddrSpace::Gpa, at, req).unwrap();
        mem.write_slice(AddrSpace::Gpa, at + 512, &[0xee; 512]).unwrap();
        put_desc(&mut mem, heads[i], at, req.len() as u32, 1, heads[i] as u16 + 1);
        put_desc(&mut mem, heads[i] + 1, at + 512, rooms[i], 2, 0);
        mem.write_u16(AddrSpace::User, AVAIL + 4 + 2 * i as u64, heads[i] as u16)
            .unwrap();
    }
    mem.write_u16(AddrSpace::User, AVAIL + 2, 3).unwrap();
    let mut server: Back<'_> = Server::new(session);
    server.set_memory(mem);
    set_up_vring(&mut server);
    assert_eq!(process(&mut host, &mut server, 1), Ok(3));
    drop(server);

    let mut guest_mem = GuestMemory::new();
    guest_mem.add_region(GPA_BASE, USER_BASE, &mut bytes);
    assert_eq!(guest_mem.read_u16(AddrSpace::User, USED + 2), Some(3));
    let lengths = [80, 20, 120];
    for i in 0..3 {
        let slot = USED + 4 + 8 * i as u64;
        assert_eq!(
            guest_mem.read_u32(AddrSpace::User, slot),
            Some(heads[i] as u32)
        );
        assert_eq!(guest_mem.read_u32(AddrSpace::User, slot + 4), Some(lengths[i]));
        let reply = REQ + 1024 * i as u64 + 512;
        assert_eq!(
            guest_mem.read_u64(AddrSpace::Gpa, reply + 8),
            Some(100 + i as u64)
        );
        // Nothing is written behind what the used ring says.
        assert_eq!(
            guest_mem.read_u32(AddrSpace::Gpa, reply + lengths[i] as u64),
            Some(0xeeee_eeee)
        );
    }
}

#[test]
fn a_file_is_registered_once_however_often_it_is_looked_up() {
    let host = Host::new();
    let mut store: InodeStore<u8> = InodeStore::new(0, &host.stat(0));
    let mut st = host.stat(0);
    st.ino = 200;
    assert_eq!(store.register(ROOT_ID, b"a".to_vec(), 1, &st), 2);
    assert_eq!(store.len(), 2);
    assert_eq!(store.register(2, b"b".to_vec(), 9, &st), 2);
    assert_eq!(store.len(), 2);
    assert_eq!(store.get(2).unwrap().parent(), Some(2));
    assert_eq!(store.get(2).unwrap().name(), b"b");
    assert_eq!(store.get(2).unwrap().raw_fd(), &1);
    store.forget(2, 1);
    assert_eq!(store.len(), 2);
    store.forget(2, 1);
    assert_eq!(store.len(), 1);
    // The id of a file that is gone is not given out again.
    assert_eq!(store.register(ROOT_ID, b"a".to_vec(), 1, &st), 3);
}
