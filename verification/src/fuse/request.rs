//! What a FUSE request asks for, apart from how it is laid out.
use crate::engine::attr::SetAttr;
use crate::fuse::bytes::{cstr_at, find_nul, nul_at, Reader};
use crate::fuse::wire::{
    batch_forget, create_in, forget_in, has_batch, has_name,
    has_two_names, init_in, init_out, init_out_bytes, link_in, mkdir_in, open_in,
    parse_batch_forget, read_in, release_in, rename_in, setattr_in, write_in, AccessIn, CreateIn,
    FlushIn, ForgetIn, ForgetOne, GetattrIn, InitIn, LinkIn, MkdirIn, Opcode, OpenIn, ReadIn,
    ReleaseIn, RenameIn, SetattrIn, WriteIn, FATTR_ATIME, FATTR_ATIME_NOW, FATTR_GID, FATTR_MODE,
    FATTR_MTIME, FATTR_MTIME_NOW, FATTR_SIZE, FATTR_UID, MAX_WRITE, WRITE_IN_LEN,
};
use crate::host::{HostErrnos, AT_EINVAL, AT_ENOSYS};
use crate::le;
use crate::octets;
use vstd::prelude::*;
use vstd::slice::slice_subrange;

verus! {

/// A request. Byte strings have the type `B`, and lists the type `L`, as in
/// [`crate::engine::call`].
pub enum Request<B, L> {
    /// It is answered with this body, whatever the state.
    Answer(B),
    /// It is refused with this host errno, whatever the state.
    Refuse { errno: i32 },
    /// Lookups are dropped. There is no reply.
    Forget(L),
    Lookup { parent: u64, name: B },
    Getattr { ino: u64 },
    Setattr { ino: u64, set: SetAttr },
    Readlink { ino: u64 },
    Symlink { parent: u64, name: B, target: B },
    Mkdir { parent: u64, name: B, mode: u32 },
    Unlink { parent: u64, name: B },
    Rmdir { parent: u64, name: B },
    Rename { parent: u64, name: B, new_parent: u64, new_name: B },
    Link { ino: u64, new_parent: u64, new_name: B },
    Open { ino: u64, flags: i32 },
    Create { parent: u64, name: B, flags: i32, mode: u32 },
    Read { fh: u64, offset: u64, size: u32 },
    Write { fh: u64, offset: u64, data: B },
    Fsync { fh: u64 },
    Release { fh: u64 },
    Opendir { ino: u64 },
    Readdir { fh: u64, offset: u64, size: u32 },
    Releasedir { fh: u64 },
    Statfs { ino: u64 },
}

/// A request at run time.
pub type FuseRequest = Request<Vec<u8>, Vec<ForgetOne>>;

/// A request in contracts.
pub type RequestView = Request<Seq<u8>, Seq<ForgetOne>>;

impl View for Request<Vec<u8>, Vec<ForgetOne>> {
    type V = Request<Seq<u8>, Seq<ForgetOne>>;

    open spec fn view(&self) -> Request<Seq<u8>, Seq<ForgetOne>> {
        match *self {
            Request::Answer(body) => Request::Answer(body@),
            Request::Refuse { errno } => Request::Refuse { errno },
            Request::Forget(list) => Request::Forget(list@),
            Request::Lookup { parent, name } => Request::Lookup { parent, name: name@ },
            Request::Getattr { ino } => Request::Getattr { ino },
            Request::Setattr { ino, set } => Request::Setattr { ino, set },
            Request::Readlink { ino } => Request::Readlink { ino },
            Request::Symlink { parent, name, target } => Request::Symlink {
                parent,
                name: name@,
                target: target@,
            },
            Request::Mkdir { parent, name, mode } => Request::Mkdir { parent, name: name@, mode },
            Request::Unlink { parent, name } => Request::Unlink { parent, name: name@ },
            Request::Rmdir { parent, name } => Request::Rmdir { parent, name: name@ },
            Request::Rename { parent, name, new_parent, new_name } => Request::Rename {
                parent,
                name: name@,
                new_parent,
                new_name: new_name@,
            },
            Request::Link { ino, new_parent, new_name } => Request::Link {
                ino,
                new_parent,
                new_name: new_name@,
            },
            Request::Open { ino, flags } => Request::Open { ino, flags },
            Request::Create { parent, name, flags, mode } => Request::Create {
                parent,
                name: name@,
                flags,
                mode,
            },
            Request::Read { fh, offset, size } => Request::Read { fh, offset, size },
            Request::Write { fh, offset, data } => Request::Write { fh, offset, data: data@ },
            Request::Fsync { fh } => Request::Fsync { fh },
            Request::Release { fh } => Request::Release { fh },
            Request::Opendir { ino } => Request::Opendir { ino },
            Request::Readdir { fh, offset, size } => Request::Readdir { fh, offset, size },
            Request::Releasedir { fh } => Request::Releasedir { fh },
            Request::Statfs { ino } => Request::Statfs { ino },
        }
    }
}

/// What is before the first NUL, or everything.
pub open spec fn trimmed(b: Seq<u8>) -> Seq<u8> {
    cstr_at(b, 0)
}

/// The attributes that a request asks to change. `now` is the time of the
/// request, for the times that it wants set to the present.
pub open spec fn wanted(s: SetattrIn, now: (i64, u32)) -> SetAttr {
    SetAttr {
        size: if s.valid & FATTR_SIZE != 0 {
            Some(s.size)
        } else {
            None
        },
        mode: if s.valid & FATTR_MODE != 0 {
            Some(s.mode)
        } else {
            None
        },
        uid: if s.valid & FATTR_UID != 0 {
            Some(s.uid)
        } else {
            None
        },
        gid: if s.valid & FATTR_GID != 0 {
            Some(s.gid)
        } else {
            None
        },
        atime: if s.valid & FATTR_ATIME_NOW != 0 {
            Some(now)
        } else if s.valid & FATTR_ATIME != 0 {
            Some((le::signed64(s.atime), s.atimensec))
        } else {
            None
        },
        mtime: if s.valid & FATTR_MTIME_NOW != 0 {
            Some(now)
        } else if s.valid & FATTR_MTIME != 0 {
            Some((le::signed64(s.mtime), s.mtimensec))
        } else {
            None
        },
    }
}

/// A size, cut to the largest single read or write.
pub open spec fn capped(size: u32) -> u32 {
    if size <= MAX_WRITE {
        size
    } else {
        MAX_WRITE
    }
}

/// The bytes that a write request writes: as many as it says, or as there are,
/// or as a single write may have.
pub open spec fn written(body: Seq<u8>) -> Seq<u8> {
    let data = body.skip(WRITE_IN_LEN as int);
    let size = capped(write_in(body).size);
    data.take(
        if size < data.len() {
            size as int
        } else {
            data.len() as int
        },
    )
}

/// Whether a request drops lookups. The protocol has no reply to those.
pub open spec fn is_forget(opcode: Opcode) -> bool {
    opcode is Forget || opcode is BatchForget
}

/// Whether a request's body has all that a request with this opcode must have.
pub open spec fn readable(opcode: Opcode, body: Seq<u8>) -> bool {
    match opcode {
        Opcode::Open | Opcode::Opendir | Opcode::Access => body.len() >= 4,
        Opcode::Forget | Opcode::Flush | Opcode::Fsync | Opcode::Release | Opcode::Releasedir =>
            body.len() >= 8,
        Opcode::Init => body.len() >= 12,
        Opcode::Getattr => body.len() >= 16,
        Opcode::Read | Opcode::Readdir => body.len() >= 20,
        Opcode::Write => body.len() >= WRITE_IN_LEN,
        Opcode::Setattr => body.len() >= 84,
        Opcode::BatchForget => has_batch(body),
        Opcode::Mkdir | Opcode::Link => has_name(body, 8),
        Opcode::Create => has_name(body, 16),
        Opcode::Symlink => has_two_names(body, 0),
        Opcode::Rename => has_two_names(body, 8),
        Opcode::Rename2 => has_two_names(body, 16),
        _ => true,
    }
}

/// What a request with this opcode, node id and body asks for, if its body is
/// readable.
pub open spec fn asked(
    host: HostErrnos,
    opcode: Opcode,
    nodeid: u64,
    body: Seq<u8>,
    now: (i64, u32),
) -> RequestView {
    match opcode {
        Opcode::Init => Request::Answer(init_out_bytes(init_in(body).max_readahead)),
        Opcode::Destroy | Opcode::Fsyncdir | Opcode::Flush | Opcode::Access => Request::Answer(
            Seq::empty(),
        ),
        Opcode::Forget => Request::Forget(
            seq![ForgetOne { nodeid, nlookup: forget_in(body).nlookup }],
        ),
        Opcode::BatchForget => Request::Forget(batch_forget(body)),
        Opcode::Lookup => Request::Lookup { parent: nodeid, name: trimmed(body) },
        Opcode::Getattr => Request::Getattr { ino: nodeid },
        Opcode::Setattr => Request::Setattr { ino: nodeid, set: wanted(setattr_in(body), now) },
        Opcode::Readlink => Request::Readlink { ino: nodeid },
        Opcode::Symlink => Request::Symlink {
            parent: nodeid,
            name: cstr_at(body, 0),
            target: cstr_at(body, nul_at(body, 0) + 1),
        },
        Opcode::Mkdir => Request::Mkdir {
            parent: nodeid,
            name: cstr_at(body, 8),
            mode: mkdir_in(body).mode,
        },
        Opcode::Unlink => Request::Unlink { parent: nodeid, name: trimmed(body) },
        Opcode::Rmdir => Request::Rmdir { parent: nodeid, name: trimmed(body) },
        Opcode::Rename => Request::Rename {
            parent: nodeid,
            name: cstr_at(body, 8),
            new_parent: rename_in(body).newdir,
            new_name: cstr_at(body, nul_at(body, 8) + 1),
        },
        Opcode::Rename2 => Request::Rename {
            parent: nodeid,
            name: cstr_at(body, 16),
            new_parent: rename_in(body).newdir,
            new_name: cstr_at(body, nul_at(body, 16) + 1),
        },
        Opcode::Link => Request::Link {
            ino: link_in(body).oldnodeid,
            new_parent: nodeid,
            new_name: cstr_at(body, 8),
        },
        Opcode::Open => Request::Open { ino: nodeid, flags: le::signed32(open_in(body).flags) },
        Opcode::Create => Request::Create {
            parent: nodeid,
            name: cstr_at(body, 16),
            flags: le::signed32(create_in(body).flags),
            mode: create_in(body).mode,
        },
        Opcode::Read => Request::Read {
            fh: read_in(body).fh,
            offset: read_in(body).offset,
            size: capped(read_in(body).size),
        },
        Opcode::Write => Request::Write {
            fh: write_in(body).fh,
            offset: write_in(body).offset,
            data: written(body),
        },
        Opcode::Fsync => Request::Fsync { fh: le::le64_at(body, 0) },
        Opcode::Release => Request::Release { fh: release_in(body).fh },
        Opcode::Opendir => Request::Opendir { ino: nodeid },
        Opcode::Readdir => Request::Readdir {
            fh: read_in(body).fh,
            offset: read_in(body).offset,
            size: read_in(body).size,
        },
        Opcode::Releasedir => Request::Releasedir { fh: release_in(body).fh },
        Opcode::Statfs => Request::Statfs { ino: nodeid },
        Opcode::Getxattr | Opcode::Listxattr | Opcode::Setxattr | Opcode::Removexattr
        | Opcode::Unknown(_) => Request::Refuse { errno: host.number(AT_ENOSYS) },
    }
}

/// What a request with this opcode, node id and body asks for. One whose body
/// cannot be read is refused with `EINVAL`, or asks for nothing if it is a
/// forget, which there is no reply to.
pub open spec fn decoded(
    host: HostErrnos,
    opcode: Opcode,
    nodeid: u64,
    body: Seq<u8>,
    now: (i64, u32),
) -> RequestView {
    if readable(opcode, body) {
        asked(host, opcode, nodeid, body, now)
    } else if is_forget(opcode) {
        Request::Forget(Seq::empty())
    } else {
        Request::Refuse { errno: host.number(AT_EINVAL) }
    }
}

/// What is before the first NUL, or everything.
pub fn trim_nul(buf: &[u8]) -> (r: &[u8])
    ensures
        r@ == trimmed(buf@),
{
    let end: usize = find_nul(buf, 0);
    slice_subrange(buf, 0, end)
}

/// Splits a buffer that starts with two NUL-terminated strings.
pub fn split_two_cstrs(buf: &[u8]) -> (r: Option<(&[u8], &[u8])>)
    ensures
        has_two_names(buf@, 0) ==> (r matches Some((a, b)) && a@ == cstr_at(buf@, 0) && b@
            == cstr_at(buf@, nul_at(buf@, 0) + 1)),
        !has_two_names(buf@, 0) ==> r is None,
{
    let first: usize = find_nul(buf, 0);
    if first == buf.len() {
        return None;
    }
    let second: usize = find_nul(buf, first + 1);
    if second == buf.len() {
        return None;
    }
    Some((slice_subrange(buf, 0, first), slice_subrange(buf, first + 1, second)))
}

/// The attributes that a request asks to change.
pub fn set_attr(s: &SetattrIn, now: (i64, u32)) -> (set: SetAttr)
    ensures
        set == wanted(*s, now),
{
    let mut set = SetAttr::default();
    if s.valid & FATTR_SIZE != 0 {
        set.size = Some(s.size);
    }
    if s.valid & FATTR_MODE != 0 {
        set.mode = Some(s.mode);
    }
    if s.valid & FATTR_UID != 0 {
        set.uid = Some(s.uid);
    }
    if s.valid & FATTR_GID != 0 {
        set.gid = Some(s.gid);
    }
    if s.valid & FATTR_ATIME_NOW != 0 {
        set.atime = Some(now);
    } else if s.valid & FATTR_ATIME != 0 {
        set.atime = Some((le::to_signed64(s.atime), s.atimensec));
    }
    if s.valid & FATTR_MTIME_NOW != 0 {
        set.mtime = Some(now);
    } else if s.valid & FATTR_MTIME != 0 {
        set.mtime = Some((le::to_signed64(s.mtime), s.mtimensec));
    }
    set
}

/// The refusal of a request whose body cannot be read.
fn unreadable(host: &HostErrnos) -> (r: FuseRequest)
    ensures
        r@ == (Request::<Seq<u8>, Seq<ForgetOne>>::Refuse { errno: host.number(AT_EINVAL) }),
{
    Request::Refuse { errno: host.numbers[AT_EINVAL] }
}

/// A size, cut to the largest single read or write.
fn cap(size: u32) -> (r: u32)
    ensures
        r == capped(size),
{
    if size <= MAX_WRITE {
        size
    } else {
        MAX_WRITE
    }
}

/// Reads what a request asks for. `host` is what the host calls its errors.
#[verifier::rlimit(40)]
pub fn decode(host: &HostErrnos, opcode: Opcode, nodeid: u64, body: &[u8], now: (i64, u32)) -> (r:
    FuseRequest)
    ensures
        r@ == decoded(*host, opcode, nodeid, body@, now),
{
    match opcode {
        Opcode::Init => match InitIn::from_bytes(body) {
            Ok(init) => Request::Answer(init_out(init.max_readahead)),
            Err(_) => unreadable(host),
        },
        Opcode::Destroy => Request::Answer(Vec::new()),
        Opcode::Fsyncdir => Request::Answer(Vec::new()),
        Opcode::Forget => match ForgetIn::from_bytes(body) {
            Ok(f) => {
                let mut list: Vec<ForgetOne> = Vec::new();
                list.push(ForgetOne { nodeid, nlookup: f.nlookup });
                assert(list@ =~= seq![ForgetOne { nodeid, nlookup: f.nlookup }]);
                Request::Forget(list)
            },
            Err(_) => Request::Forget(Vec::new()),
        },
        Opcode::BatchForget => match parse_batch_forget(body) {
            Ok(list) => Request::Forget(list),
            Err(_) => Request::Forget(Vec::new()),
        },
        Opcode::Lookup => Request::Lookup { parent: nodeid, name: octets::copied(trim_nul(body)) },
        Opcode::Getattr => match GetattrIn::from_bytes(body) {
            Ok(_) => Request::Getattr { ino: nodeid },
            Err(_) => unreadable(host),
        },
        Opcode::Setattr => match SetattrIn::from_bytes(body) {
            Ok(s) => Request::Setattr { ino: nodeid, set: set_attr(&s, now) },
            Err(_) => unreadable(host),
        },
        Opcode::Readlink => Request::Readlink { ino: nodeid },
        Opcode::Symlink => match split_two_cstrs(body) {
            Some((name, target)) => Request::Symlink {
                parent: nodeid,
                name: octets::copied(name),
                target: octets::copied(target),
            },
            None => unreadable(host),
        },
        Opcode::Mkdir => match MkdirIn::from_bytes(body) {
            Ok((m, name)) => Request::Mkdir {
                parent: nodeid,
                name: octets::copied(name),
                mode: m.mode,
            },
            Err(_) => unreadable(host),
        },
        Opcode::Unlink => Request::Unlink { parent: nodeid, name: octets::copied(trim_nul(body)) },
        Opcode::Rmdir => Request::Rmdir { parent: nodeid, name: octets::copied(trim_nul(body)) },
        Opcode::Rename => match RenameIn::from_bytes(body) {
            Ok((r, old_name, new_name)) => Request::Rename {
                parent: nodeid,
                name: octets::copied(old_name),
                new_parent: r.newdir,
                new_name: octets::copied(new_name),
            },
            Err(_) => unreadable(host),
        },
        Opcode::Rename2 => match RenameIn::from_bytes_v2(body) {
            Ok((r, old_name, new_name)) => Request::Rename {
                parent: nodeid,
                name: octets::copied(old_name),
                new_parent: r.newdir,
                new_name: octets::copied(new_name),
            },
            Err(_) => unreadable(host),
        },
        Opcode::Link => match LinkIn::from_bytes(body) {
            Ok((l, name)) => Request::Link {
                ino: l.oldnodeid,
                new_parent: nodeid,
                new_name: octets::copied(name),
            },
            Err(_) => unreadable(host),
        },
        Opcode::Open => match OpenIn::from_bytes(body) {
            Ok(o) => Request::Open { ino: nodeid, flags: le::to_signed32(o.flags) },
            Err(_) => unreadable(host),
        },
        Opcode::Create => match CreateIn::from_bytes(body) {
            Ok((c, name)) => Request::Create {
                parent: nodeid,
                name: octets::copied(name),
                flags: le::to_signed32(c.flags),
                mode: c.mode,
            },
            Err(_) => unreadable(host),
        },
        Opcode::Read => match ReadIn::from_bytes(body) {
            Ok(r) => Request::Read { fh: r.fh, offset: r.offset, size: cap(r.size) },
            Err(_) => unreadable(host),
        },
        Opcode::Write => match WriteIn::from_bytes(body) {
            Ok((w, data)) => {
                let size: u32 = cap(w.size);
                let n: usize = if (size as usize) < data.len() {
                    size as usize
                } else {
                    data.len()
                };
                let sent = slice_subrange(data, 0, n);
                assert(sent@ =~= written(body@));
                Request::Write { fh: w.fh, offset: w.offset, data: octets::copied(sent) }
            },
            Err(_) => unreadable(host),
        },
        Opcode::Flush => match FlushIn::from_bytes(body) {
            Ok(_) => Request::Answer(Vec::new()),
            Err(_) => unreadable(host),
        },
        Opcode::Fsync => {
            let mut r = Reader::new(body);
            match r.u64() {
                Ok(fh) => Request::Fsync { fh },
                Err(_) => unreadable(host),
            }
        },
        Opcode::Release => match ReleaseIn::from_bytes(body) {
            Ok(r) => Request::Release { fh: r.fh },
            Err(_) => unreadable(host),
        },
        Opcode::Opendir => match OpenIn::from_bytes(body) {
            Ok(_) => Request::Opendir { ino: nodeid },
            Err(_) => unreadable(host),
        },
        Opcode::Readdir => match ReadIn::from_bytes(body) {
            Ok(r) => Request::Readdir { fh: r.fh, offset: r.offset, size: r.size },
            Err(_) => unreadable(host),
        },
        Opcode::Releasedir => match ReleaseIn::from_bytes(body) {
            Ok(r) => Request::Releasedir { fh: r.fh },
            Err(_) => unreadable(host),
        },
        Opcode::Statfs => Request::Statfs { ino: nodeid },
        Opcode::Access => match AccessIn::from_bytes(body) {
            Ok(_) => Request::Answer(Vec::new()),
            Err(_) => unreadable(host),
        },
        Opcode::Getxattr | Opcode::Listxattr | Opcode::Setxattr | Opcode::Removexattr
        | Opcode::Unknown(_) => Request::Refuse { errno: host.numbers[AT_ENOSYS] },
    }
}

} // verus!
