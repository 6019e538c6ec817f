//! What each FUSE request comes to, from its bytes to the operation that serves it,
//! and from what the operation gives to the bytes of the reply. The numbers are
//! those of the FUSE protocol.
//!
//! A request has a header of 40 bytes: its length, the opcode at 4, its own id at 8,
//! the inode that it is about at 16, and who makes it. The body comes after it.
use crate::engine::attr::{attr_of, SetAttr, Stat, StatVfs};
use crate::engine::call::{
    After, DirEntry, FsOut, ResultView, Step, StepView, SysCall, SysResult,
};
use crate::engine::error::FsError;
use crate::engine::handle::HandleData;
use crate::engine::inode::{FileKind, InodeTable};
use crate::fuse::bytes::{cstr_at, law_read_back, lemma_nul_at, lemma_nul_at_is, nul_at};
use crate::fuse::dispatch::{
    all_forgotten, body_of, page, progress_of, success, Pending, Progress, Reply,
    SessionState,
};
use crate::fuse::layout::{
    law_entries_and_attributes_read_back, law_filesystem_state_reads_back,
    law_init_answer_reads_back, law_written_count_reads_back, shows_attributes, shows_entry,
    shows_handle,
};
use crate::fuse::linux_errno::{law_engine_errnos_become_linux, linux_errno};
use crate::fuse::wire::{law_dirent_reads_back, law_reply_reads_back, ForgetOne};
use crate::host::HostErrnos;
use crate::le;
use vstd::prelude::*;

verus! {

/// Whether this is a request with this opcode.
pub open spec fn is_request(request: Seq<u8>, opcode: u32) -> bool {
    request.len() >= 40 && le::le32_at(request, 4) == opcode
}

/// Whether a request is served by the operation whose first step this is: the
/// session stays as it is, and the request has come as far as the step.
pub open spec fn served_by<F, D>(
    s: SessionState<F, D>,
    request: Seq<u8>,
    now: (i64, u32),
    step: StepView<F>,
) -> bool {
    s.handled(request, now) == (
        s,
        progress_of::<F>(s.fs.platform.errnos, le::le64_at(request, 8), step),
    )
}

/// Whether a request has come to a reply that tells of success with this body: the
/// length of the whole reply, a zero, the id of the request, and the body.
#[verifier::opaque]
pub open spec fn is_success<F>(progress: Progress<F, Seq<u8>>, unique: u64, body: Seq<u8>) -> bool {
    &&& progress matches Progress::Reply(Reply::Bytes(b))
    &&& b.len() == 16 + body.len()
    &&& b.len() < 0x1_0000_0000 ==> le::le32_at(b, 0) == b.len()
    &&& le::le32_at(b, 4) == 0
    &&& le::le64_at(b, 8) == unique
    &&& b.skip(16) == body
}

/// Whether a request has come to a reply that tells of this error: the length of the
/// reply, which is all header, the negative errno, and the id of the request.
#[verifier::opaque]
pub open spec fn is_error<F>(progress: Progress<F, Seq<u8>>, unique: u64, errno: int) -> bool {
    &&& progress matches Progress::Reply(Reply::Bytes(b))
    &&& b.len() == 16
    &&& le::le32_at(b, 0) == 16
    &&& le::le32_at(b, 4) as int == (-errno) % 0x1_0000_0000
    &&& le::le64_at(b, 8) == unique
}

proof fn lemma_success<F>(unique: u64, body: Seq<u8>)
    ensures
        is_success::<F>(success::<F>(unique, body), unique, body),
{
    reveal(is_success);
    law_reply_reads_back(unique, 0, body);
}

proof fn lemma_error<F>(unique: u64, errno: i32)
    requires
        0 < errno,
    ensures
        is_error::<F>(
            Progress::Reply(
                Reply::Bytes(
                    crate::fuse::wire::reply_bytes(unique, (-errno) as i32, Seq::<u8>::empty()),
                ),
            ),
            unique,
            errno as int,
        ),
{
    reveal(is_error);
    law_reply_reads_back(unique, (-errno) as i32, Seq::<u8>::empty());
    let w = crate::fuse::wire::reply_bytes(unique, (-errno) as i32, Seq::<u8>::empty());
    le::law_i32_roundtrip(0, le::le32_at(w, 4));
}

/// A request that needs a call waits for it under its own id. When an operation ends
/// with nothing to say, or with bytes, its request is answered with those.
pub proof fn law_bytes_are_told<F>(
    host: HostErrnos,
    unique: u64,
    call: SysCall<F, Seq<u8>>,
    task: crate::engine::call::Task<F, Seq<u8>>,
    bytes: Seq<u8>,
)
    ensures
        progress_of::<F>(host, unique, Step::Call(call, task)) == Progress::<F, Seq<u8>>::Call(
            call,
            Pending::Answer { unique, task },
        ),
        is_success(
            progress_of::<F>(host, unique, Step::Done(Ok(FsOut::Unit))),
            unique,
            Seq::<u8>::empty(),
        ),
        is_success(
            progress_of::<F>(host, unique, Step::Done(Ok(FsOut::Bytes(bytes)))),
            unique,
            bytes,
        ),
{
    lemma_success::<F>(unique, Seq::empty());
    lemma_success::<F>(unique, bytes);
}

/// When an operation ends with what is known of a file, its request is answered with
/// that: its attributes; an entry, with the inode's id; or an entry and then the handle
/// under which it is open.
pub proof fn law_files_are_told<F>(
    host: HostErrnos,
    unique: u64,
    st: Stat,
    ino: u64,
    handle: u64,
)
    ensures
        ({
            let p = progress_of::<F>(host, unique, Step::Done(Ok(FsOut::Attr(attr_of(st)))));
            exists|body: Seq<u8>| #[trigger]
                is_success(p, unique, body) && shows_attributes(body, st)
        }),
        ({
            let out = FsOut::Entry { ino, attr: attr_of(st) };
            let p = progress_of::<F>(host, unique, Step::Done(Ok(out)));
            exists|body: Seq<u8>| #[trigger]
                is_success(p, unique, body) && body.len() == 128 && shows_entry(body, ino, st)
        }),
        ({
            let out = FsOut::Created { ino, handle, attr: attr_of(st) };
            let p = progress_of::<F>(host, unique, Step::Done(Ok(out)));
            exists|body: Seq<u8>| #[trigger]
                is_success(p, unique, body) && shows_entry(body, ino, st) && shows_handle(
                    body,
                    128,
                    handle,
                )
        }),
        ({
            let p = progress_of::<F>(host, unique, Step::Done(Ok(FsOut::Handle(handle))));
            exists|body: Seq<u8>| #[trigger]
                is_success(p, unique, body) && shows_handle(body, 0, handle)
        }),
{
    law_entries_and_attributes_read_back(ino, st, handle);
    lemma_success::<F>(unique, body_of(FsOut::Attr(attr_of(st))));
    lemma_success::<F>(unique, body_of(FsOut::Entry { ino, attr: attr_of(st) }));
    lemma_success::<F>(unique, body_of(FsOut::Created { ino, handle, attr: attr_of(st) }));
    lemma_success::<F>(unique, body_of(FsOut::Handle(handle)));
}

/// When an operation ends with a number of bytes written, its request is answered with
/// that, modulo 2^32, and when it ends with the state of a filesystem, with that.
pub proof fn law_numbers_are_told<F>(host: HostErrnos, unique: u64, n: usize, vfs: StatVfs)
    ensures
        ({
            let p = progress_of::<F>(host, unique, Step::Done(Ok(FsOut::Count(n))));
            exists|body: Seq<u8>| #[trigger]
                is_success(p, unique, body) && body.len() == 8 && le::le32_at(body, 0) as int
                    == n as int % 0x1_0000_0000 && le::le32_at(body, 4) == 0
        }),
        ({
            let p = progress_of::<F>(host, unique, Step::Done(Ok(FsOut::Vfs(vfs))));
            exists|body: Seq<u8>| #[trigger]
                is_success(p, unique, body) && body.len() == 80 && le::le64_at(body, 0)
                    == vfs.blocks && le::le64_at(body, 8) == vfs.bfree && le::le64_at(body, 16)
                    == vfs.bavail && le::le64_at(body, 24) == vfs.files && le::le64_at(body, 32)
                    == vfs.ffree && le::le32_at(body, 40) as int == vfs.bsize as int
                    % 0x1_0000_0000 && le::le32_at(body, 44) as int == vfs.namemax as int
                    % 0x1_0000_0000 && le::le32_at(body, 48) as int == vfs.frsize as int
                    % 0x1_0000_0000
        }),
{
    law_filesystem_state_reads_back(vfs);
    law_written_count_reads_back((n as int % 0x1_0000_0000) as u32);
    lemma_success::<F>(unique, body_of(FsOut::Count(n)));
    lemma_success::<F>(unique, body_of(FsOut::Vfs(vfs)));
}

/// An operation that fails has its request answered with the error: that of the call
/// that failed, as Linux numbers it; `EBADF` (9) for an inode or handle that is not
/// known; `ENOSYS` (38), `EINVAL` (22), `ENAMETOOLONG` (36) and `EACCES` (13) for what
/// is not supported, not valid, too long a name, or leads out of the shared directory.
pub proof fn law_failures_are_told<F>(
    host: HostErrnos,
    unique: u64,
    errno: i32,
    i: int,
    id: u64,
    text: &'static str,
)
    requires
        host.wf(),
        0 <= i < 71,
    ensures
        ({
            let tells = |e: FsError, number: int|
                is_error(progress_of::<F>(host, unique, Step::Done(Err(e))), unique, number);
            &&& host.numbers@[i] == errno ==> tells(
                FsError::Io { errno },
                crate::host::linux_numbers()[i] as int,
            )
            &&& tells(FsError::UnknownInode(id), 9)
            &&& tells(FsError::UnknownHandle(id), 9)
            &&& tells(FsError::Unsupported(text), 38)
            &&& tells(FsError::InvalidArgument(text), 22)
            &&& tells(FsError::NameTooLong, 36)
            &&& tells(FsError::PathEscape, 13)
        }),
{
    law_engine_errnos_become_linux(host);
    crate::fuse::linux_errno::law_host_numbers_become_linux(host, errno);
    lemma_error::<F>(unique, linux_errno(host, errno));
    lemma_error::<F>(unique, 9);
    lemma_error::<F>(unique, 38);
    lemma_error::<F>(unique, 22);
    lemma_error::<F>(unique, 36);
    lemma_error::<F>(unique, 13);
}

/// A request that waits goes on with the operation that it is of, under its own id:
/// what the operation makes of the outcome is how far the request comes.
pub proof fn law_waiting_request_goes_on<F, D>(
    s: SessionState<F, D>,
    unique: u64,
    task: crate::engine::call::Task<F, Seq<u8>>,
    result: ResultView<F, D>,
)
    ensures
        s.resumed(Pending::Answer { unique, task }, result) == progress_of::<F>(
            s.fs.platform.errnos,
            unique,
            s.fs.resumed(task, result).1,
        ),
        s.listings_after(Pending::Answer { unique, task }, result) == s.listings,
{
}

/// A name that stands between some bytes and a NUL is what is read there.
proof fn lemma_name(body: Seq<u8>, fixed: Seq<u8>, name: Seq<u8>, rest: Seq<u8>)
    requires
        body == fixed + name + seq![0u8] + rest,
        !name.contains(0u8),
    ensures
        nul_at(body, fixed.len() as int) == fixed.len() + name.len(),
        nul_at(body, fixed.len() as int) < body.len(),
        cstr_at(body, fixed.len() as int) == name,
{
    law_read_back(fixed, rest, 0, 0, 0, 0, name);
}

/// Two names that stand one after another are what is read there.
proof fn lemma_names(
    body: Seq<u8>,
    fixed: Seq<u8>,
    name: Seq<u8>,
    second: Seq<u8>,
    rest: Seq<u8>,
)
    requires
        body == fixed + name + seq![0u8] + second + seq![0u8] + rest,
        !name.contains(0u8),
        !second.contains(0u8),
    ensures
        ({
            let n = fixed.len() as int;
            &&& nul_at(body, n) == n + name.len()
            &&& cstr_at(body, n) == name
            &&& nul_at(body, n + name.len() + 1) == n + name.len() + 1 + second.len()
            &&& n + name.len() + 1 + second.len() < body.len()
            &&& cstr_at(body, n + name.len() + 1) == second
        }),
{
    let more = second + seq![0u8] + rest;
    assert(body =~= fixed + name + seq![0u8] + more);
    lemma_name(body, fixed, name, more);
    lemma_name(body, fixed + name + seq![0u8], second, rest);
}

/// The name in a request that has nothing else in its body is all of it, up to the
/// first NUL if there is one.
proof fn lemma_only_name(body: Seq<u8>, name: Seq<u8>, rest: Seq<u8>)
    requires
        body == name + seq![0u8] + rest || body == name,
        !name.contains(0u8),
    ensures
        cstr_at(body, 0) == name,
{
    assert forall|j: int| 0 <= j < name.len() implies body[j] != 0 by {
        assert(name.contains(name[j]));
        assert(body[j] == name[j]);
    }
    lemma_nul_at_is(body, 0, name.len() as int);
    assert(cstr_at(body, 0) =~= name);
}

/// `LOOKUP` (1), `UNLINK` (10) and `RMDIR` (11) are about the name in their body, in
/// the directory of their header.
pub proof fn law_requests_with_a_name<F, D>(
    s: SessionState<F, D>,
    request: Seq<u8>,
    now: (i64, u32),
    name: Seq<u8>,
    rest: Seq<u8>,
)
    requires
        !name.contains(0u8),
        request.skip(40) == name + seq![0u8] + rest || request.skip(40) == name,
    ensures
        ({
            let dir = le::le64_at(request, 16);
            &&& is_request(request, 1) ==> served_by(
                s,
                request,
                now,
                s.fs.lookup(dir, name, After::Entry),
            )
            &&& is_request(request, 10) ==> served_by(
                s,
                request,
                now,
                s.fs.remove(dir, name, false),
            )
            &&& is_request(request, 11) ==> served_by(
                s,
                request,
                now,
                s.fs.remove(dir, name, true),
            )
        }),
{
    lemma_only_name(request.skip(40), name, rest);
}

/// `MKDIR` (9) has a mode, four bytes more, and the name. `LINK` (13) has the inode to
/// link to, and the new name, in the directory of its header. `CREATE` (35) has the
/// flags, the mode, eight bytes more, and the name.
pub proof fn law_requests_that_make_something<F, D>(
    s: SessionState<F, D>,
    request: Seq<u8>,
    now: (i64, u32),
    fixed: Seq<u8>,
    name: Seq<u8>,
    rest: Seq<u8>,
)
    requires
        !name.contains(0u8),
        request.skip(40) == fixed + name + seq![0u8] + rest,
    ensures
        ({
            let dir = le::le64_at(request, 16);
            let body = request.skip(40);
            &&& is_request(request, 9) && fixed.len() == 8 ==> served_by(
                s,
                request,
                now,
                s.fs.mkdir(dir, name, le::le32_at(body, 0)),
            )
            &&& is_request(request, 13) && fixed.len() == 8 ==> served_by(
                s,
                request,
                now,
                s.fs.link(le::le64_at(body, 0), dir, name),
            )
            &&& is_request(request, 35) && fixed.len() == 16 ==> served_by(
                s,
                request,
                now,
                s.fs.create(dir, name, le::le_i32_at(body, 0), le::le32_at(body, 4)),
            )
        }),
{
    lemma_name(request.skip(40), fixed, name, rest);
}

/// `SYMLINK` (6) has the name of the link and then its target. `RENAME` (12) has the
/// new directory, the old name and the new name, and `RENAME2` (45) has eight bytes
/// more before the names; the old directory is in the header.
pub proof fn law_requests_with_two_names<F, D>(
    s: SessionState<F, D>,
    request: Seq<u8>,
    now: (i64, u32),
    fixed: Seq<u8>,
    name: Seq<u8>,
    second: Seq<u8>,
    rest: Seq<u8>,
)
    requires
        !name.contains(0u8),
        !second.contains(0u8),
        request.skip(40) == fixed + name + seq![0u8] + second + seq![0u8] + rest,
    ensures
        ({
            let dir = le::le64_at(request, 16);
            let body = request.skip(40);
            &&& is_request(request, 6) && fixed.len() == 0 ==> served_by(
                s,
                request,
                now,
                s.fs.symlink(dir, name, second),
            )
            &&& is_request(request, 12) && fixed.len() == 8 ==> served_by(
                s,
                request,
                now,
                s.fs.rename(dir, name, le::le64_at(body, 0), second),
            )
            &&& is_request(request, 45) && fixed.len() == 16 ==> served_by(
                s,
                request,
                now,
                s.fs.rename(dir, name, le::le64_at(body, 0), second),
            )
        }),
{
    lemma_names(request.skip(40), fixed, name, second, rest);
}

/// `GETATTR` (3), `READLINK` (5) and `STATFS` (17) are about the inode of their header,
/// and so are `OPEN` (14), whose flags are the first four bytes of its body, and
/// `OPENDIR` (27).
pub proof fn law_requests_about_an_inode<F, D>(
    s: SessionState<F, D>,
    request: Seq<u8>,
    now: (i64, u32),
)
    ensures
        ({
            let ino = le::le64_at(request, 16);
            let body = request.skip(40);
            &&& is_request(request, 3) && body.len() >= 16 ==> served_by(
                s,
                request,
                now,
                s.fs.getattr(ino),
            )
            &&& is_request(request, 5) ==> served_by(s, request, now, s.fs.readlink(ino))
            &&& is_request(request, 17) ==> served_by(s, request, now, s.fs.statfs(ino))
            &&& is_request(request, 14) && body.len() >= 4 ==> served_by(
                s,
                request,
                now,
                s.fs.open(ino, le::le_i32_at(body, 0)),
            )
            &&& is_request(request, 27) && body.len() >= 4 ==> served_by(
                s,
                request,
                now,
                s.fs.opendir(ino),
            )
        }),
{
}

/// `SETATTR` (4) asks for what the bits of its first four bytes say, of the inode of
/// its header: the mode (bit 0, at 68), the owner (bit 1, at 76), the group (bit 2, at
/// 80), the size (bit 3, at 16), the access time (bit 4, at 32 and 56) and the
/// modification time (bit 5, at 40 and 60); the present for the access time (bit 7) or
/// the modification time (bit 8). What no bit asks for is not changed.
pub proof fn law_setattr_asks_for_what_its_bits_say<F, D>(
    s: SessionState<F, D>,
    request: Seq<u8>,
    now: (i64, u32),
)
    requires
        is_request(request, 4),
        request.len() >= 40 + 84,
    ensures
        ({
            let body = request.skip(40);
            let valid = le::le32_at(body, 0);
            let set = SetAttr {
                mode: if valid & 0x1 != 0 {
                    Some(le::le32_at(body, 68))
                } else {
                    None
                },
                uid: if valid & 0x2 != 0 {
                    Some(le::le32_at(body, 76))
                } else {
                    None
                },
                gid: if valid & 0x4 != 0 {
                    Some(le::le32_at(body, 80))
                } else {
                    None
                },
                size: if valid & 0x8 != 0 {
                    Some(le::le64_at(body, 16))
                } else {
                    None
                },
                atime: if valid & 0x80 != 0 {
                    Some(now)
                } else if valid & 0x10 != 0 {
                    Some((le::signed64(le::le64_at(body, 32)), le::le32_at(body, 56)))
                } else {
                    None
                },
                mtime: if valid & 0x100 != 0 {
                    Some(now)
                } else if valid & 0x20 != 0 {
                    Some((le::signed64(le::le64_at(body, 40)), le::le32_at(body, 60)))
                } else {
                    None
                },
            };
            served_by(s, request, now, s.fs.setattr(le::le64_at(request, 16), set))
        }),
{
}

/// `READ` (15) and `WRITE` (16) have the handle at 0, the offset at 8 and a size at 16,
/// which counts for 128 KiB at most. The data to write comes after 40 bytes, as many as
/// the size says, or as there are. `FSYNC` (20) has the handle at 0.
pub proof fn law_requests_for_data<F, D>(s: SessionState<F, D>, request: Seq<u8>, now: (i64, u32))
    ensures
        ({
            let body = request.skip(40);
            let fh = le::le64_at(body, 0);
            let offset = le::le64_at(body, 8);
            let asked = le::le32_at(body, 16);
            let size: u32 = if asked <= 131072 {
                asked
            } else {
                131072
            };
            let n: int = if size as int <= body.len() - 40 {
                size as int
            } else {
                body.len() - 40
            };
            &&& is_request(request, 15) && body.len() >= 20 ==> served_by(
                s,
                request,
                now,
                s.fs.read(fh, offset, size as usize),
            )
            &&& is_request(request, 16) && body.len() >= 40 ==> served_by(
                s,
                request,
                now,
                s.fs.write(fh, offset, body.subrange(40, 40 + n)),
            )
            &&& is_request(request, 20) && body.len() >= 8 ==> served_by(
                s,
                request,
                now,
                s.fs.fsync(fh),
            )
        }),
{
    let body = request.skip(40);
    if is_request(request, 16) && body.len() >= 40 {
        let asked = le::le32_at(body, 16);
        let size: u32 = if asked <= 131072 {
            asked
        } else {
            131072
        };
        let n: int = if size as int <= body.len() - 40 {
            size as int
        } else {
            body.len() - 40
        };
        assert(crate::fuse::request::written(body) =~= body.subrange(40, 40 + n));
    }
}

/// A `WRITE` request (16) on a handle that is open on a file has the host write its
/// data at its offset in that file, and a `READ` request (15) has it read there; the
/// guest is told how many bytes were written, or is given what was read.
pub proof fn law_write_and_read_reach_the_file<F, D>(
    s: SessionState<F, D>,
    then: SessionState<F, D>,
    request: Seq<u8>,
    now: (i64, u32),
    fd: F,
    n: usize,
    got: Seq<u8>,
)
    requires
        request.len() >= 40 + 40,
        s.fs.handles.open.contains_key(le::le64_at(request.skip(40), 0)),
        s.fs.handles.open[le::le64_at(request.skip(40), 0)] == HandleData::<F, D>::File(fd),
    ensures
        ({
            let body = request.skip(40);
            let unique = le::le64_at(request, 8);
            let asked = le::le32_at(body, 16);
            let p = s.handled(request, now).1;
            &&& is_request(request, 16) ==> {
                &&& s.handled(request, now).0 == s
                &&& p matches Progress::Call(SysCall::Write { handle, offset, data }, pending)
                &&& handle == le::le64_at(body, 0)
                &&& offset == le::le64_at(body, 8)
                &&& data.len() <= asked && data.len() <= 131072 && data.len() <= body.len() - 40
                &&& data.len() == asked || data.len() == 131072 || data.len() == body.len() - 40
                &&& forall|i: int| 0 <= i < data.len() ==> data[i] == body[40 + i]
                &&& exists|told: Seq<u8>| #[trigger]
                    is_success(then.resumed(pending, SysResult::Count(n)), unique, told)
                        && told.len() == 8 && le::le32_at(told, 0) as int == n as int
                        % 0x1_0000_0000
            }
            &&& is_request(request, 15) ==> {
                &&& s.handled(request, now).0 == s
                &&& p matches Progress::Call(SysCall::Read { handle, offset, len }, pending)
                &&& handle == le::le64_at(body, 0)
                &&& offset == le::le64_at(body, 8)
                &&& len == if asked <= 131072 {
                    asked as int
                } else {
                    131072
                }
                &&& got.len() <= len ==> is_success(
                    then.resumed(pending, SysResult::Bytes(got)),
                    unique,
                    got,
                )
                &&& got.len() > len ==> is_success(
                    then.resumed(pending, SysResult::Bytes(got)),
                    unique,
                    got.take(len as int),
                )
            }
        }),
{
    let body = request.skip(40);
    let unique = le::le64_at(request, 8);
    law_requests_for_data(s, request, now);
    lemma_success::<F>(unique, body_of(FsOut::Count(n)));
    law_written_count_reads_back((n as int % 0x1_0000_0000) as u32);
    lemma_success::<F>(unique, got);
    if let Progress::Call(SysCall::Read { len, .. }, _) = s.handled(request, now).1 {
        lemma_success::<F>(unique, got.take(len as int));
    }
}

/// `RELEASE` (18) and `RELEASEDIR` (29) close the handle in the first eight bytes of
/// their body: it is not open after that, and the others are as they were. The guest is
/// told that it worked exactly if it was open. What was kept of a directory's listing
/// goes when it is closed.
pub proof fn law_release_closes_its_handle<F, D>(
    s: SessionState<F, D>,
    request: Seq<u8>,
    now: (i64, u32),
)
    requires
        is_request(request, 18) || is_request(request, 29),
        request.len() >= 48,
    ensures
        ({
            let fh = le::le64_at(request.skip(40), 0);
            let unique = le::le64_at(request, 8);
            let (after, p) = s.handled(request, now);
            &&& after.fs.handles.open == s.fs.handles.open.remove(fh)
            &&& after.fs.handles.next_id == s.fs.handles.next_id
            &&& after.fs.inodes == s.fs.inodes
            &&& after.fs.platform == s.fs.platform
            &&& is_request(request, 18) ==> after.listings == s.listings
            &&& is_request(request, 29) ==> after.listings == s.listings.remove(fh)
            &&& s.fs.handles.open.contains_key(fh) ==> is_success(p, unique, Seq::<u8>::empty())
            &&& !s.fs.handles.open.contains_key(fh) ==> p == progress_of::<F>(
                s.fs.platform.errnos,
                unique,
                Step::Done(Err(FsError::UnknownHandle(fh))),
            )
        }),
{
    lemma_success::<F>(le::le64_at(request, 8), Seq::empty());
}

/// `INIT` (26) is answered with what the session offers and with the readahead that the
/// guest asked for, at 8. `DESTROY` (38), `FSYNCDIR` (30), `FLUSH` (25) and `ACCESS` (34)
/// succeed without an effect. None of them changes the session.
pub proof fn law_requests_without_a_call<F, D>(
    s: SessionState<F, D>,
    request: Seq<u8>,
    now: (i64, u32),
)
    ensures
        ({
            let unique = le::le64_at(request, 8);
            let body = request.skip(40);
            let (after, p) = s.handled(request, now);
            &&& is_request(request, 26) && body.len() >= 12 ==> {
                &&& after == s
                &&& exists|told: Seq<u8>| #[trigger]
                    is_success(p, unique, told) && told.len() == 64 && le::le32_at(told, 0) == 7
                        && le::le32_at(told, 4) == 31 && le::le32_at(told, 8) == le::le32_at(
                        body,
                        8,
                    ) && le::le32_at(told, 12) == 0x1_0000 && le::le32_at(told, 20) == 131072
                        && le::le32_at(told, 24) == 1
            }
            &&& is_request(request, 38) || is_request(request, 30) || is_request(request, 25)
                && body.len() >= 8 || is_request(request, 34) && body.len() >= 4 ==> {
                &&& after == s
                &&& is_success(p, unique, Seq::<u8>::empty())
            }
        }),
{
    let unique = le::le64_at(request, 8);
    let body = request.skip(40);
    let told = crate::fuse::wire::init_out_bytes(le::le32_at(body, 8));
    law_init_answer_reads_back(le::le32_at(body, 8));
    lemma_success::<F>(unique, told);
    lemma_success::<F>(unique, Seq::empty());
}

/// How long a body must be at least for its request to be read, where that is all
/// there is to it.
pub open spec fn least_body(opcode: u32) -> int {
    if opcode == 14 || opcode == 27 || opcode == 34 {
        4
    } else if opcode == 18 || opcode == 20 || opcode == 25 || opcode == 29 {
        8
    } else if opcode == 26 {
        12
    } else if opcode == 3 {
        16
    } else if opcode == 15 || opcode == 28 {
        20
    } else if opcode == 16 {
        40
    } else if opcode == 4 {
        84
    } else {
        0
    }
}

/// A request whose body is too short, or lacks a name that it must have, is refused
/// with `EINVAL` (22). Extended attributes (21 to 24), and what has no meaning here, are
/// refused with `ENOSYS` (38). Neither changes the session.
pub proof fn law_refused_requests<F, D>(
    s: SessionState<F, D>,
    request: Seq<u8>,
    now: (i64, u32),
    opcode: u32,
)
    requires
        s.fs.platform.errnos.wf(),
        is_request(request, opcode),
    ensures
        ({
            let unique = le::le64_at(request, 8);
            let body = request.skip(40);
            let (after, p) = s.handled(request, now);
            let nameless = |from: int|
                body.len() < from || forall|j: int| from <= j < body.len() ==> body[j] != 0;
            let short = body.len() < least_body(opcode);
            let unnamed = (opcode == 9 || opcode == 12 || opcode == 13) && nameless(8) || (opcode
                == 35 || opcode == 45) && nameless(16) || opcode == 6 && nameless(0);
            let known = 1 <= opcode <= 6 || 9 <= opcode <= 18 || 20 <= opcode <= 30 || opcode == 34
                || opcode == 35 || opcode == 38 || opcode == 42 || opcode == 45;
            &&& short || unnamed ==> after == s && is_error(p, unique, 22)
            &&& 21 <= opcode <= 24 || !known ==> after == s && is_error(p, unique, 38)
        }),
{
    let unique = le::le64_at(request, 8);
    let body = request.skip(40);
    law_engine_errnos_become_linux(s.fs.platform.errnos);
    lemma_error::<F>(unique, 22);
    lemma_error::<F>(unique, 38);
    if body.len() >= 0 {
        lemma_nul_at(body, 0);
    }
    if body.len() >= 8 {
        lemma_nul_at(body, 8);
    }
    if body.len() >= 16 {
        lemma_nul_at(body, 16);
    }
}

/// `SYMLINK` (6), `RENAME` (12) and `RENAME2` (45) are refused with `EINVAL` (22) too if
/// the second of their names is not ended by a NUL.
pub proof fn law_second_name_must_end<F, D>(
    s: SessionState<F, D>,
    request: Seq<u8>,
    now: (i64, u32),
    fixed: Seq<u8>,
    name: Seq<u8>,
    rest: Seq<u8>,
)
    requires
        s.fs.platform.errnos.wf(),
        !name.contains(0u8),
        !rest.contains(0u8),
        request.skip(40) == fixed + name + seq![0u8] + rest,
        is_request(request, 6) && fixed.len() == 0 || is_request(request, 12) && fixed.len() == 8
            || is_request(request, 45) && fixed.len() == 16,
    ensures
        s.handled(request, now).0 == s,
        is_error(s.handled(request, now).1, le::le64_at(request, 8), 22),
{
    let body = request.skip(40);
    law_engine_errnos_become_linux(s.fs.platform.errnos);
    lemma_error::<F>(le::le64_at(request, 8), 22);
    lemma_name(body, fixed, name, rest);
    let n = fixed.len() + name.len() + 1;
    assert forall|j: int| n <= j < body.len() implies body[j] != 0 by {
        assert(body[j] == rest[j - n]);
        assert(rest.contains(rest[j - n]));
    }
    lemma_nul_at_is(body, n as int, body.len() as int);
}

/// A request without a whole header, and a forget whose body is too short for what it
/// says, get no reply and change nothing.
pub proof fn law_unreadable_requests_in_silence<F, D>(
    s: SessionState<F, D>,
    request: Seq<u8>,
    now: (i64, u32),
)
    requires
        ({
            let body = request.skip(40);
            ||| request.len() < 40
            ||| is_request(request, 2) && body.len() < 8
            ||| is_request(request, 42) && (body.len() < 8 || body.len() < 8 + 16 * le::le32_at(
                body,
                0,
            ))
        }),
    ensures
        s.handled(request, now) == (s, Progress::<F, Seq<u8>>::Reply(Reply::Nothing)),
{
}

/// How many lookups of `id` a list of forgets drops.
pub open spec fn dropped(list: Seq<ForgetOne>, id: u64) -> int
    decreases list.len(),
{
    if list.len() == 0 {
        0
    } else if list.last().nodeid == id {
        dropped(list.drop_last(), id) + list.last().nlookup
    } else {
        dropped(list.drop_last(), id)
    }
}

/// What a list of forgets makes of an inode.
proof fn lemma_all_forgotten<F>(table: InodeTable<F>, list: Seq<ForgetOne>, id: u64)
    ensures
        ({
            let after = all_forgotten(table, list);
            let was = table.inodes[id];
            let left = was.lookups - dropped(list, id);
            &&& 0 <= dropped(list, id)
            &&& after.next_id == table.next_id
            &&& !table.inodes.contains_key(id) ==> !after.inodes.contains_key(id)
            &&& table.inodes.contains_key(id) && (id == 1 || left > 0) ==> {
                &&& after.inodes.contains_key(id)
                &&& after.inodes[id].lookups == if id == 1 {
                    was.lookups as int
                } else {
                    left
                }
                &&& after.inodes[id].id == was.id
                &&& after.inodes[id].fd == was.fd
                &&& after.inodes[id].kind == was.kind
                &&& after.inodes[id].key == was.key
                &&& after.inodes[id].parent == was.parent
                &&& after.inodes[id].name == was.name
            }
            &&& table.inodes.contains_key(id) && id != 1 && left <= 0 && (exists|i: int|
                0 <= i < list.len() && (#[trigger] list[i]).nodeid == id)
                ==> !after.inodes.contains_key(id)
            &&& !(exists|i: int| 0 <= i < list.len() && (#[trigger] list[i]).nodeid == id) ==> {
                &&& dropped(list, id) == 0
                &&& after.inodes.contains_key(id) == table.inodes.contains_key(id)
                &&& table.inodes.contains_key(id) ==> after.inodes[id] == was
            }
        }),
    decreases list.len(),
{
    if list.len() > 0 {
        let before = list.drop_last();
        lemma_all_forgotten(table, before, id);
        let n = before.len() as int;
        assert(list[n] == list.last());
        assert forall|i: int| 0 <= i < n implies before[i] == #[trigger] list[i] by {}
        if exists|i: int| 0 <= i < before.len() && (#[trigger] before[i]).nodeid == id {
            let i = choose|i: int| 0 <= i < before.len() && (#[trigger] before[i]).nodeid == id;
            assert(list[i].nodeid == id);
        }
    }
}

/// `FORGET` (2) drops as many lookups as its body says of the inode of its header.
/// `BATCH_FORGET` (42) has a count, four bytes more, and that many pairs of an inode
/// and a number of lookups, and drops them all: an inode keeps its lookups less those
/// that are dropped, and goes when none is left; the shared directory itself (1) and
/// those that are not named stay as they are. Neither gets a reply, or changes anything
/// else.
pub proof fn law_forgets_drop_lookups<F, D>(
    s: SessionState<F, D>,
    request: Seq<u8>,
    now: (i64, u32),
    list: Seq<ForgetOne>,
    id: u64,
)
    requires
        ({
            let body = request.skip(40);
            ||| is_request(request, 2) && body.len() >= 8 && list == seq![
                ForgetOne { nodeid: le::le64_at(request, 16), nlookup: le::le64_at(body, 0) },
            ]
            ||| is_request(request, 42) && body.len() >= 8 && le::le32_at(body, 0) == list.len()
                && body.len() >= 8 + 16 * list.len() && forall|i: int|
                0 <= i < list.len() ==> (#[trigger] list[i]).nodeid == le::le64_at(
                    body,
                    8 + 16 * i,
                ) && list[i].nlookup == le::le64_at(body, 16 + 16 * i)
        }),
    ensures
        ({
            let (after, p) = s.handled(request, now);
            let was = s.fs.inodes.inodes[id];
            let named = exists|i: int| 0 <= i < list.len() && (#[trigger] list[i]).nodeid == id;
            let left = was.lookups - dropped(list, id);
            let known = s.fs.inodes.inodes.contains_key(id);
            let is = after.fs.inodes.inodes[id];
            &&& p == Progress::<F, Seq<u8>>::Reply(Reply::Nothing)
            &&& after.listings == s.listings
            &&& after.fs.handles == s.fs.handles
            &&& after.fs.platform == s.fs.platform
            &&& after.fs.inodes.next_id == s.fs.inodes.next_id
            &&& !known ==> !after.fs.inodes.inodes.contains_key(id)
            &&& known && !named ==> after.fs.inodes.inodes.contains_key(id) && is == was
            &&& known && named && id != 1 && left <= 0 ==> !after.fs.inodes.inodes.contains_key(
                id,
            )
            &&& known && named && id != 1 && left > 0 ==> {
                &&& after.fs.inodes.inodes.contains_key(id)
                &&& is.lookups == left
                &&& is.fd == was.fd
                &&& is.kind == was.kind
                &&& is.key == was.key
                &&& is.parent == was.parent
                &&& is.name == was.name
            }
            &&& known && id == 1 ==> after.fs.inodes.inodes.contains_key(1) && is.lookups
                == was.lookups && is.fd == was.fd && is.key == was.key && is.parent == was.parent
                && is.name == was.name
        }),
{
    let body = request.skip(40);
    if is_request(request, 42) {
        assert(crate::fuse::wire::batch_forget(body) =~= list);
    }
    lemma_all_forgotten(s.fs.inodes, list, id);
}

/// The type of a directory entry on the wire.
pub open spec fn type_of(kind: FileKind) -> int {
    match kind {
        FileKind::Dir => 4,
        FileKind::Regular => 8,
        FileKind::Symlink => 10,
        FileKind::Other => 0,
    }
}

/// A page of a listing starts with the entry at its offset, if that fits: the number of
/// the file, the offset of the next entry, the length of the name, the type, the name,
/// and zeroes up to a multiple of eight bytes. What follows it is the page from the next
/// entry on, in the room that is left. If it does not fit, or there is none, the page is
/// empty.
pub proof fn law_page_goes_entry_by_entry(
    entries: Seq<DirEntry<Seq<u8>>>,
    i: int,
    room: int,
)
    requires
        0 <= i < u64::MAX,
        i < entries.len() ==> entries[i].name.len() < 0x1_0000_0000,
    ensures
        ({
            let e = entries[i];
            let n = e.name.len() as int;
            let size = (24 + n + 7) / 8 * 8;
            let p = page(entries, i, room);
            &&& i >= entries.len() || size > room ==> p.len() == 0
            &&& i < entries.len() && size <= room ==> {
                &&& p.len() >= size >= 24 + n
                &&& le::le64_at(p, 0) == e.ino
                &&& le::le64_at(p, 8) == i + 1
                &&& le::le32_at(p, 16) == n
                &&& le::le32_at(p, 20) as int == type_of(e.kind)
                &&& p.subrange(24, 24 + n) == e.name
                &&& forall|k: int| 24 + n <= k < size ==> p[k] == 0
                &&& p.skip(size) == page(entries, i + 1, room - size)
            }
        }),
{
    let e = entries[i];
    let n = e.name.len() as int;
    let size = (24 + n + 7) / 8 * 8;
    let p = page(entries, i, room);
    if i < entries.len() && size <= room {
        let kind = crate::fuse::dispatch::dt_of(e.kind);
        let w = crate::fuse::wire::dirent_bytes(e.ino, (i + 1) as u64, kind, e.name);
        let rest = page(entries, i + 1, room - size);
        law_dirent_reads_back(e.ino, (i + 1) as u64, kind, e.name);
        assert(p == w + rest);
        assert(p.subrange(0, size) =~= w);
        le::lemma_le_shift(p, 0, size, 0);
        le::lemma_le_shift(p, 0, size, 8);
        le::lemma_le_shift(p, 0, size, 16);
        le::lemma_le_shift(p, 0, size, 20);
        assert(p.subrange(24, 24 + n) =~= w.subrange(24, 24 + n));
        assert(p.skip(size) =~= rest);
        assert forall|k: int| 24 + n <= k < size implies p[k] == 0 by {
            assert(w[k] == 0);
        }
    }
}

/// `READDIR` (28) has the handle at 0, the offset at 8 and the room at 16. From the
/// front, or on a handle that was not listed yet, the open directory is listed, and what
/// comes of it is kept and answered from; further on, the answer is from what was kept.
pub proof fn law_readdir_reads_its_request<F, D>(
    s: SessionState<F, D>,
    request: Seq<u8>,
    now: (i64, u32),
    stream: D,
    es: Seq<DirEntry<Seq<u8>>>,
    errno: i32,
)
    requires
        is_request(request, 28),
        request.len() >= 60,
    ensures
        ({
            let body = request.skip(40);
            let unique = le::le64_at(request, 8);
            let fh = le::le64_at(body, 0);
            let offset = le::le64_at(body, 8) as int;
            let room = le::le32_at(body, 16) as int;
            let (after, p) = s.handled(request, now);
            let kept = offset != 0 && s.listings.contains_key(fh);
            &&& after == s
            &&& kept ==> is_success(p, unique, page(s.listings[fh], offset, room))
            &&& !kept && s.fs.handles.open.contains_key(fh) && s.fs.handles.open[fh]
                == HandleData::<F, D>::Dir(stream) ==> {
                let list = crate::engine::passthrough::listed(es);
                &&& p matches Progress::Call(call, pending)
                &&& call == SysCall::<F, Seq<u8>>::ReadDir { handle: fh }
                &&& is_success(
                    s.resumed(pending, SysResult::Entries(es)),
                    unique,
                    page(list, offset, room),
                )
                &&& s.listings_after(pending, SysResult::Entries(es)) == s.listings.insert(
                    fh,
                    list,
                )
                &&& s.resumed(pending, SysResult::Failed { errno }) == progress_of::<F>(
                    s.fs.platform.errnos,
                    unique,
                    Step::Done(Err(FsError::Io { errno })),
                )
                &&& s.listings_after(pending, SysResult::Failed { errno }) == s.listings
            }
            &&& !kept && !s.fs.handles.open.contains_key(fh) ==> p == progress_of::<F>(
                s.fs.platform.errnos,
                unique,
                Step::Done(Err(FsError::UnknownHandle(fh))),
            )
        }),
{
    let body = request.skip(40);
    let unique = le::le64_at(request, 8);
    let fh = le::le64_at(body, 0);
    let offset = le::le64_at(body, 8) as int;
    let room = le::le32_at(body, 16) as int;
    lemma_success::<F>(unique, page(s.listings[fh], offset, room));
    lemma_success::<F>(
        unique,
        page(crate::engine::passthrough::listed(es), offset, room),
    );
}

/// A reply at run time stands for itself, and so does how far a request has come.
pub proof fn law_replies_stand_for_themselves<F>(r: Reply<Vec<u8>>, p: Progress<F, Vec<u8>>)
    ensures
        r matches Reply::Bytes(b) ==> r@ == Reply::Bytes(b@),
        r matches Reply::Nothing ==> r@ == Reply::<Seq<u8>>::Nothing,
        p matches Progress::Reply(reply) ==> p@ == Progress::<F, Seq<u8>>::Reply(reply@),
        p matches Progress::Call(call, pending) ==> p@ == Progress::<F, Seq<u8>>::Call(
            call@,
            pending@,
        ),
{
}

} // verus!
