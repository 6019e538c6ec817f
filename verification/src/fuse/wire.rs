//! FUSE-over-virtio wire structs, as the kernel ABI lays them out.
//!
//! Only the requests that the backend handles have a typed payload.
use crate::engine::attr::{Attr, StatVfs};
use crate::error::{ProtoError, ProtoResult};
use crate::fuse::bytes::{append_zeroes, cstr_at, nul_at, padded, zeroes, Reader, Writer};
use crate::fuse::linux_errno::{linux_errno, to_linux_errno};
use crate::host::HostErrnos;
use crate::le;
use crate::octets;
use vstd::prelude::*;
use vstd::slice::slice_subrange;
use vstd::std_specs::convert::FromSpecImpl;

verus! {

pub const IN_HEADER_LEN: usize = 40;

pub const OUT_HEADER_LEN: usize = 16;

/// The minor protocol version claimed in the `FUSE_INIT` reply.
pub const INIT_OUT_MINOR: u32 = 31;

pub const INIT_OUT_LEN: usize = 64;

/// The length of a `fuse_attr`.
pub const ATTR_LEN: usize = 88;

pub const ENTRY_OUT_LEN: usize = 128;

pub const ATTR_OUT_LEN: usize = 104;

/// For how many seconds the guest may use an attribute or entry it was given.
pub const CACHE_TIMEOUT_SECS: u64 = 1;

/// The largest single read or write, which is advertised and enforced: 128 KiB.
pub const MAX_WRITE: u32 = 128 * 1024;

/// Lets the guest kernel collect dirty pages before it sends a write.
pub const FUSE_WRITEBACK_CACHE: u32 = 0x1_0000;

pub const FATTR_MODE: u32 = 0x1;

pub const FATTR_UID: u32 = 0x2;

pub const FATTR_GID: u32 = 0x4;

pub const FATTR_SIZE: u32 = 0x8;

pub const FATTR_ATIME: u32 = 0x10;

pub const FATTR_MTIME: u32 = 0x20;

pub const FATTR_ATIME_NOW: u32 = 0x80;

pub const FATTR_MTIME_NOW: u32 = 0x100;

pub const DT_UNKNOWN: u32 = 0;

pub const DT_DIR: u32 = 4;

pub const DT_REG: u32 = 8;

pub const DT_LNK: u32 = 10;

/// `fuse_in_header`, which starts every request.
#[derive(Debug, Clone, Copy, PartialEq, Eq, Structural)]
pub struct InHeader {
    pub len: u32,
    pub opcode: u32,
    pub unique: u64,
    pub nodeid: u64,
    pub uid: u32,
    pub gid: u32,
    pub pid: u32,
}

/// The header at the front of `b`.
pub open spec fn in_header(b: Seq<u8>) -> InHeader {
    InHeader {
        len: le::le32_at(b, 0),
        opcode: le::le32_at(b, 4),
        unique: le::le64_at(b, 8),
        nodeid: le::le64_at(b, 16),
        uid: le::le32_at(b, 24),
        gid: le::le32_at(b, 28),
        pid: le::le32_at(b, 32),
    }
}

/// What follows the header: everything after the first `IN_HEADER_LEN` bytes.
pub open spec fn request_body(b: Seq<u8>) -> Seq<u8> {
    if b.len() < IN_HEADER_LEN {
        Seq::empty()
    } else {
        b.skip(IN_HEADER_LEN as int)
    }
}

impl InHeader {
    /// Reads the header; the buffer must hold all `IN_HEADER_LEN` bytes of it.
    pub fn from_bytes(buf: &[u8]) -> (r: ProtoResult<Self>)
        ensures
            buf@.len() >= IN_HEADER_LEN ==> r == Ok::<Self, ProtoError>(in_header(buf@)),
            buf@.len() < IN_HEADER_LEN ==> r == Err::<Self, _>(ProtoError::Truncated),
    {
        let mut r = Reader::new(buf);
        let len: u32 = r.u32()?;
        let opcode: u32 = r.u32()?;
        let unique: u64 = r.u64()?;
        let nodeid: u64 = r.u64()?;
        let uid: u32 = r.u32()?;
        let gid: u32 = r.u32()?;
        let pid: u32 = r.u32()?;
        r.skip(4)?;
        Ok(InHeader { len, opcode, unique, nodeid, uid, gid, pid })
    }

    /// The request body, which is everything after the header.
    pub fn body(buf: &[u8]) -> (r: &[u8])
        ensures
            r@ == request_body(buf@),
    {
        let from: usize = if buf.len() < IN_HEADER_LEN { buf.len() } else { IN_HEADER_LEN };
        let r = slice_subrange(buf, from, buf.len());
        assert(r@ =~= request_body(buf@));
        r
    }
}

/// `fuse_out_header`, which starts every reply.
pub struct OutHeader;

/// A whole reply: its total length, the error (zero or a negative errno), the
/// id of the request it answers, and the body, which only a success has.
pub open spec fn reply_bytes(unique: u64, error: i32, body: Seq<u8>) -> Seq<u8> {
    let sent = if error == 0 {
        body
    } else {
        Seq::empty()
    };
    le::u32_bytes(((OUT_HEADER_LEN + sent.len()) % 0x1_0000_0000) as u32) + le::i32_bytes(error)
        + le::u64_bytes(unique) + sent
}

/// The reply that tells of a failure with what the host calls `host_errno`.
pub open spec fn error_bytes(host: HostErrnos, unique: u64, host_errno: i32) -> Seq<u8> {
    reply_bytes(unique, (-linux_errno(host, host_errno)) as i32, Seq::empty())
}

impl OutHeader {
    /// Builds a full reply. `error` is zero or a negative errno; on an error
    /// `body` is left out.
    pub fn reply(unique: u64, error: i32, body: &[u8]) -> (r: Vec<u8>)
        ensures
            r@ == reply_bytes(unique, error, body@),
    {
        let n: usize = if error == 0 { body.len() } else { 0 };
        let sent = slice_subrange(body, 0, n);
        assert(sent@ =~= if error == 0 { body@ } else { Seq::empty() });
        let len: u32 = ((OUT_HEADER_LEN as u128 + n as u128) % 0x1_0000_0000) as u32;
        let mut w = Writer::new();
        w.u32(len);
        assert(w@ =~= le::u32_bytes(len));
        w.i32(error);
        w.u64(unique);
        w.bytes(sent);
        w.into_vec()
    }

    /// Builds the error reply for a host errno, which is translated into the
    /// Linux errno that the wire protocol needs.
    pub fn error_for(host: &HostErrnos, unique: u64, host_errno: i32) -> (r: Vec<u8>)
        ensures
            r@ == error_bytes(*host, unique, host_errno),
    {
        let linux: i32 = to_linux_errno(host, host_errno);
        Self::reply(unique, -linux, &[])
    }
}

/// The requests that have handling of their own; every other code is
/// `Unknown`.
#[derive(Debug, Clone, Copy, PartialEq, Eq, Structural)]
pub enum Opcode {
    Lookup,
    Forget,
    Getattr,
    Setattr,
    Readlink,
    Symlink,
    Mkdir,
    Unlink,
    Rmdir,
    Rename,
    Link,
    Open,
    Read,
    Write,
    Statfs,
    Release,
    Fsync,
    Getxattr,
    Listxattr,
    Setxattr,
    Removexattr,
    Flush,
    Init,
    Opendir,
    Readdir,
    Releasedir,
    Fsyncdir,
    Access,
    Create,
    Destroy,
    BatchForget,
    Rename2,
    Unknown(u32),
}

/// The request that has the code `v` on the wire.
pub open spec fn opcode_of(v: u32) -> Opcode {
    match v {
        1 => Opcode::Lookup,
        2 => Opcode::Forget,
        3 => Opcode::Getattr,
        4 => Opcode::Setattr,
        5 => Opcode::Readlink,
        6 => Opcode::Symlink,
        9 => Opcode::Mkdir,
        10 => Opcode::Unlink,
        11 => Opcode::Rmdir,
        12 => Opcode::Rename,
        13 => Opcode::Link,
        14 => Opcode::Open,
        15 => Opcode::Read,
        16 => Opcode::Write,
        17 => Opcode::Statfs,
        18 => Opcode::Release,
        20 => Opcode::Fsync,
        21 => Opcode::Setxattr,
        22 => Opcode::Getxattr,
        23 => Opcode::Listxattr,
        24 => Opcode::Removexattr,
        25 => Opcode::Flush,
        26 => Opcode::Init,
        27 => Opcode::Opendir,
        28 => Opcode::Readdir,
        29 => Opcode::Releasedir,
        30 => Opcode::Fsyncdir,
        34 => Opcode::Access,
        35 => Opcode::Create,
        38 => Opcode::Destroy,
        42 => Opcode::BatchForget,
        45 => Opcode::Rename2,
        other => Opcode::Unknown(other),
    }
}

impl From<u32> for Opcode {
    fn from(v: u32) -> (r: Self) {
        match v {
            1 => Opcode::Lookup,
            2 => Opcode::Forget,
            3 => Opcode::Getattr,
            4 => Opcode::Setattr,
            5 => Opcode::Readlink,
            6 => Opcode::Symlink,
            9 => Opcode::Mkdir,
            10 => Opcode::Unlink,
            11 => Opcode::Rmdir,
            12 => Opcode::Rename,
            13 => Opcode::Link,
            14 => Opcode::Open,
            15 => Opcode::Read,
            16 => Opcode::Write,
            17 => Opcode::Statfs,
            18 => Opcode::Release,
            20 => Opcode::Fsync,
            21 => Opcode::Setxattr,
            22 => Opcode::Getxattr,
            23 => Opcode::Listxattr,
            24 => Opcode::Removexattr,
            25 => Opcode::Flush,
            26 => Opcode::Init,
            27 => Opcode::Opendir,
            28 => Opcode::Readdir,
            29 => Opcode::Releasedir,
            30 => Opcode::Fsyncdir,
            34 => Opcode::Access,
            35 => Opcode::Create,
            38 => Opcode::Destroy,
            42 => Opcode::BatchForget,
            45 => Opcode::Rename2,
            other => Opcode::Unknown(other),
        }
    }
}

impl FromSpecImpl<u32> for Opcode {
    open spec fn obeys_from_spec() -> bool {
        true
    }

    open spec fn from_spec(v: u32) -> Self {
        opcode_of(v)
    }
}

/// `fuse_attr`.
pub struct FuseAttr;

/// The bytes of a `fuse_attr`.
pub open spec fn attr_bytes(a: Attr) -> Seq<u8> {
    le::u64_bytes(a.ino) + le::u64_bytes(a.size) + le::u64_bytes(a.blocks) + le::u64_bytes(
        le::unsigned64(a.atime.0),
    ) + le::u64_bytes(le::unsigned64(a.mtime.0)) + le::u64_bytes(le::unsigned64(a.ctime.0))
        + le::u32_bytes(a.atime.1) + le::u32_bytes(a.mtime.1) + le::u32_bytes(a.ctime.1)
        + le::u32_bytes(a.mode) + le::u32_bytes(a.nlink) + le::u32_bytes(a.uid) + le::u32_bytes(
        a.gid,
    ) + le::u32_bytes(a.rdev) + le::u32_bytes(a.blksize) + le::u32_bytes(0)
}

impl FuseAttr {
    /// Appends `attr` to `w`.
    pub fn write(w: &mut Writer, attr: &Attr)
        ensures
            final(w)@ == old(w)@ + attr_bytes(*attr),
            attr_bytes(*attr).len() == ATTR_LEN,
    {
        let mut a = Writer::new();
        a.u64(attr.ino);
        assert(a@ =~= le::u64_bytes(attr.ino));
        a.u64(attr.size);
        a.u64(attr.blocks);
        a.u64(le::to_unsigned64(attr.atime.0));
        a.u64(le::to_unsigned64(attr.mtime.0));
        a.u64(le::to_unsigned64(attr.ctime.0));
        a.u32(attr.atime.1);
        a.u32(attr.mtime.1);
        a.u32(attr.ctime.1);
        a.u32(attr.mode);
        a.u32(attr.nlink);
        a.u32(attr.uid);
        a.u32(attr.gid);
        a.u32(attr.rdev);
        a.u32(attr.blksize);
        a.u32(0);
        let bytes = a.into_vec();
        w.bytes(&bytes);
    }
}

/// The bytes of a `fuse_entry_out`: node id, generation, the two timeouts in
/// seconds and nanoseconds, and the attributes.
pub open spec fn entry_bytes(nodeid: u64, a: Attr) -> Seq<u8> {
    le::u64_bytes(nodeid) + le::u64_bytes(1) + le::u64_bytes(CACHE_TIMEOUT_SECS) + le::u64_bytes(
        CACHE_TIMEOUT_SECS,
    ) + le::u32_bytes(0) + le::u32_bytes(0) + attr_bytes(a)
}

pub fn entry_out(nodeid: u64, attr: &Attr) -> (r: Vec<u8>)
    ensures
        r@ == entry_bytes(nodeid, *attr),
        r@.len() == ENTRY_OUT_LEN,
{
    let mut w = Writer::new();
    w.u64(nodeid);
    assert(w@ =~= le::u64_bytes(nodeid));
    w.u64(1);
    w.u64(CACHE_TIMEOUT_SECS);
    w.u64(CACHE_TIMEOUT_SECS);
    w.u32(0);
    w.u32(0);
    FuseAttr::write(&mut w, attr);
    w.into_vec()
}

/// The bytes of a `fuse_attr_out`: the timeout and the attributes.
pub open spec fn attr_out_bytes(a: Attr) -> Seq<u8> {
    le::u64_bytes(CACHE_TIMEOUT_SECS) + le::u32_bytes(0) + le::u32_bytes(0) + attr_bytes(a)
}

pub fn attr_out(attr: &Attr) -> (r: Vec<u8>)
    ensures
        r@ == attr_out_bytes(*attr),
        r@.len() == ATTR_OUT_LEN,
{
    let mut w = Writer::new();
    w.u64(CACHE_TIMEOUT_SECS);
    assert(w@ =~= le::u64_bytes(CACHE_TIMEOUT_SECS));
    w.u32(0);
    w.u32(0);
    FuseAttr::write(&mut w, attr);
    w.into_vec()
}

/// The part of `fuse_init_in` that matters here.
pub struct InitIn {
    pub major: u32,
    pub minor: u32,
    pub max_readahead: u32,
    pub flags: u32,
}

/// The `fuse_init_in` at the front of `b`; an old kernel may leave out the
/// flags.
pub open spec fn init_in(b: Seq<u8>) -> InitIn {
    InitIn {
        major: le::le32_at(b, 0),
        minor: le::le32_at(b, 4),
        max_readahead: le::le32_at(b, 8),
        flags: if b.len() >= 16 {
            le::le32_at(b, 12)
        } else {
            0
        },
    }
}

impl InitIn {
    pub fn from_bytes(buf: &[u8]) -> (r: ProtoResult<Self>)
        ensures
            buf@.len() >= 12 ==> r == Ok::<Self, ProtoError>(init_in(buf@)),
            buf@.len() < 12 ==> r == Err::<Self, _>(ProtoError::Truncated),
    {
        let mut r = Reader::new(buf);
        let major: u32 = r.u32()?;
        let minor: u32 = r.u32()?;
        let max_readahead: u32 = r.u32()?;
        let flags: u32 = match r.u32() {
            Ok(flags) => flags,
            Err(_) => 0,
        };
        Ok(InitIn { major, minor, max_readahead, flags })
    }
}

/// The bytes of the `fuse_init_out` that answers a request with this
/// readahead: the version, the readahead, the flags, no limits of our own on
/// background requests, the largest write, one-nanosecond timestamps, and
/// zeroes.
pub open spec fn init_out_bytes(max_readahead: u32) -> Seq<u8> {
    padded(
        le::u32_bytes(7) + le::u32_bytes(INIT_OUT_MINOR) + le::u32_bytes(max_readahead)
            + le::u32_bytes(FUSE_WRITEBACK_CACHE) + le::u16_bytes(0) + le::u16_bytes(0)
            + le::u32_bytes(MAX_WRITE) + le::u32_bytes(1) + le::u16_bytes(0) + le::u16_bytes(0)
            + le::u32_bytes(0) + le::u32_bytes(0) + le::u16_bytes(0),
        INIT_OUT_LEN as nat,
    )
}

pub fn init_out(max_readahead: u32) -> (r: Vec<u8>)
    ensures
        r@ == init_out_bytes(max_readahead),
        r@.len() == INIT_OUT_LEN,
{
    let mut w = Writer::new();
    w.u32(7);
    assert(w@ =~= le::u32_bytes(7));
    w.u32(INIT_OUT_MINOR);
    w.u32(max_readahead);
    w.u32(FUSE_WRITEBACK_CACHE);
    w.u16(0);
    w.u16(0);
    w.u32(MAX_WRITE);
    w.u32(1);
    w.u16(0);
    w.u16(0);
    w.u32(0);
    w.u32(0);
    w.u16(0);
    w.pad_to(INIT_OUT_LEN);
    w.into_vec()
}

/// The part of `fuse_getattr_in` that is read.
pub struct GetattrIn {
    pub flags: u32,
    pub fh: u64,
}

/// The `fuse_getattr_in` at the front of `b`.
pub open spec fn getattr_in(b: Seq<u8>) -> GetattrIn {
    GetattrIn {
        flags: le::le32_at(b, 0),
        fh: le::le64_at(b, 8),
    }
}

impl GetattrIn {
    pub fn from_bytes(buf: &[u8]) -> (r: ProtoResult<Self>)
        ensures
            buf@.len() >= 16 ==> r == Ok::<Self, ProtoError>(getattr_in(buf@)),
            buf@.len() < 16 ==> r == Err::<Self, _>(ProtoError::Truncated),
    {
        let mut r = Reader::new(buf);
        let flags: u32 = r.u32()?;
        r.skip(4)?;
        let fh: u64 = r.u64()?;
        Ok(GetattrIn { flags, fh })
    }
}

/// `fuse_setattr_in`, without the file handle, lock owner and change time.
pub struct SetattrIn {
    pub valid: u32,
    pub size: u64,
    pub atime: u64,
    pub mtime: u64,
    pub atimensec: u32,
    pub mtimensec: u32,
    pub mode: u32,
    pub uid: u32,
    pub gid: u32,
}

/// The `fuse_setattr_in` at the front of `b`.
pub open spec fn setattr_in(b: Seq<u8>) -> SetattrIn {
    SetattrIn {
        valid: le::le32_at(b, 0),
        size: le::le64_at(b, 16),
        atime: le::le64_at(b, 32),
        mtime: le::le64_at(b, 40),
        atimensec: le::le32_at(b, 56),
        mtimensec: le::le32_at(b, 60),
        mode: le::le32_at(b, 68),
        uid: le::le32_at(b, 76),
        gid: le::le32_at(b, 80),
    }
}

impl SetattrIn {
    pub fn from_bytes(buf: &[u8]) -> (r: ProtoResult<Self>)
        ensures
            buf@.len() >= 84 ==> r == Ok::<Self, ProtoError>(setattr_in(buf@)),
            buf@.len() < 84 ==> r == Err::<Self, _>(ProtoError::Truncated),
    {
        let mut r = Reader::new(buf);
        let valid: u32 = r.u32()?;
        r.skip(4)?;
        r.skip(8)?;
        let size: u64 = r.u64()?;
        r.skip(8)?;
        let atime: u64 = r.u64()?;
        let mtime: u64 = r.u64()?;
        r.skip(8)?;
        let atimensec: u32 = r.u32()?;
        let mtimensec: u32 = r.u32()?;
        r.skip(4)?;
        let mode: u32 = r.u32()?;
        r.skip(4)?;
        let uid: u32 = r.u32()?;
        let gid: u32 = r.u32()?;
        Ok(SetattrIn { valid, size, atime, mtime, atimensec, mtimensec, mode, uid, gid })
    }
}

/// The part of `fuse_open_in` that is read.
pub struct OpenIn {
    pub flags: u32,
}

/// The `fuse_open_in` at the front of `b`.
pub open spec fn open_in(b: Seq<u8>) -> OpenIn {
    OpenIn {
        flags: le::le32_at(b, 0),
    }
}

impl OpenIn {
    pub fn from_bytes(buf: &[u8]) -> (r: ProtoResult<Self>)
        ensures
            buf@.len() >= 4 ==> r == Ok::<Self, ProtoError>(open_in(buf@)),
            buf@.len() < 4 ==> r == Err::<Self, _>(ProtoError::Truncated),
    {
        let mut r = Reader::new(buf);
        let flags: u32 = r.u32()?;
        Ok(OpenIn { flags })
    }
}

/// The part of `fuse_release_in` that is read.
pub struct ReleaseIn {
    pub fh: u64,
}

/// The `fuse_release_in` at the front of `b`.
pub open spec fn release_in(b: Seq<u8>) -> ReleaseIn {
    ReleaseIn {
        fh: le::le64_at(b, 0),
    }
}

impl ReleaseIn {
    pub fn from_bytes(buf: &[u8]) -> (r: ProtoResult<Self>)
        ensures
            buf@.len() >= 8 ==> r == Ok::<Self, ProtoError>(release_in(buf@)),
            buf@.len() < 8 ==> r == Err::<Self, _>(ProtoError::Truncated),
    {
        let mut r = Reader::new(buf);
        let fh: u64 = r.u64()?;
        Ok(ReleaseIn { fh })
    }
}

/// The part of `fuse_flush_in` that is read.
pub struct FlushIn {
    pub fh: u64,
}

/// The `fuse_flush_in` at the front of `b`.
pub open spec fn flush_in(b: Seq<u8>) -> FlushIn {
    FlushIn {
        fh: le::le64_at(b, 0),
    }
}

impl FlushIn {
    pub fn from_bytes(buf: &[u8]) -> (r: ProtoResult<Self>)
        ensures
            buf@.len() >= 8 ==> r == Ok::<Self, ProtoError>(flush_in(buf@)),
            buf@.len() < 8 ==> r == Err::<Self, _>(ProtoError::Truncated),
    {
        let mut r = Reader::new(buf);
        let fh: u64 = r.u64()?;
        Ok(FlushIn { fh })
    }
}

/// The part of `fuse_read_in` that is read.
pub struct ReadIn {
    pub fh: u64,
    pub offset: u64,
    pub size: u32,
}

/// The `fuse_read_in` at the front of `b`.
pub open spec fn read_in(b: Seq<u8>) -> ReadIn {
    ReadIn {
        fh: le::le64_at(b, 0),
        offset: le::le64_at(b, 8),
        size: le::le32_at(b, 16),
    }
}

impl ReadIn {
    pub fn from_bytes(buf: &[u8]) -> (r: ProtoResult<Self>)
        ensures
            buf@.len() >= 20 ==> r == Ok::<Self, ProtoError>(read_in(buf@)),
            buf@.len() < 20 ==> r == Err::<Self, _>(ProtoError::Truncated),
    {
        let mut r = Reader::new(buf);
        let fh: u64 = r.u64()?;
        let offset: u64 = r.u64()?;
        let size: u32 = r.u32()?;
        Ok(ReadIn { fh, offset, size })
    }
}

/// The part of `fuse_access_in` that is read.
pub struct AccessIn {
    pub mask: u32,
}

/// The `fuse_access_in` at the front of `b`.
pub open spec fn access_in(b: Seq<u8>) -> AccessIn {
    AccessIn {
        mask: le::le32_at(b, 0),
    }
}

impl AccessIn {
    pub fn from_bytes(buf: &[u8]) -> (r: ProtoResult<Self>)
        ensures
            buf@.len() >= 4 ==> r == Ok::<Self, ProtoError>(access_in(buf@)),
            buf@.len() < 4 ==> r == Err::<Self, _>(ProtoError::Truncated),
    {
        let mut r = Reader::new(buf);
        let mask: u32 = r.u32()?;
        Ok(AccessIn { mask })
    }
}

/// `fuse_forget_in`.
pub struct ForgetIn {
    pub nlookup: u64,
}

/// The `fuse_forget_in` at the front of `b`.
pub open spec fn forget_in(b: Seq<u8>) -> ForgetIn {
    ForgetIn {
        nlookup: le::le64_at(b, 0),
    }
}

impl ForgetIn {
    pub fn from_bytes(buf: &[u8]) -> (r: ProtoResult<Self>)
        ensures
            buf@.len() >= 8 ==> r == Ok::<Self, ProtoError>(forget_in(buf@)),
            buf@.len() < 8 ==> r == Err::<Self, _>(ProtoError::Truncated),
    {
        let mut r = Reader::new(buf);
        let nlookup: u64 = r.u64()?;
        Ok(ForgetIn { nlookup })
    }
}

/// Whether `b` has a NUL-terminated name after its first `n` bytes.
pub open spec fn has_name(b: Seq<u8>, n: int) -> bool {
    n <= b.len() && nul_at(b, n) < b.len()
}

/// Whether `b` has two NUL-terminated names after its first `n` bytes.
pub open spec fn has_two_names(b: Seq<u8>, n: int) -> bool {
    has_name(b, n) && has_name(b, nul_at(b, n) + 1)
}

/// The part of `fuse_mkdir_in` that is read.
pub struct MkdirIn {
    pub mode: u32,
}

/// The `fuse_mkdir_in` at the front of `b`.
pub open spec fn mkdir_in(b: Seq<u8>) -> MkdirIn {
    MkdirIn {
        mode: le::le32_at(b, 0),
    }
}

impl MkdirIn {
    pub fn from_bytes(buf: &[u8]) -> (r: ProtoResult<(Self, &[u8])>)
        ensures
            has_name(buf@, 8) ==> {
                &&& r matches Ok((h, name))
                &&& h == mkdir_in(buf@)
                &&& name@ == cstr_at(buf@, 8)
            },
            !has_name(buf@, 8) ==> (r matches Err(e) && e == ProtoError::Truncated),
    {
        let mut r = Reader::new(buf);
        let mode: u32 = r.u32()?;
        r.skip(4)?;
        let name = r.cstr()?;
        Ok((MkdirIn { mode }, name))
    }
}

/// `fuse_link_in`.
pub struct LinkIn {
    pub oldnodeid: u64,
}

/// The `fuse_link_in` at the front of `b`.
pub open spec fn link_in(b: Seq<u8>) -> LinkIn {
    LinkIn {
        oldnodeid: le::le64_at(b, 0),
    }
}

impl LinkIn {
    pub fn from_bytes(buf: &[u8]) -> (r: ProtoResult<(Self, &[u8])>)
        ensures
            has_name(buf@, 8) ==> {
                &&& r matches Ok((h, name))
                &&& h == link_in(buf@)
                &&& name@ == cstr_at(buf@, 8)
            },
            !has_name(buf@, 8) ==> (r matches Err(e) && e == ProtoError::Truncated),
    {
        let mut r = Reader::new(buf);
        let oldnodeid: u64 = r.u64()?;
        let name = r.cstr()?;
        Ok((LinkIn { oldnodeid }, name))
    }
}

/// The part of `fuse_create_in` that is read.
pub struct CreateIn {
    pub flags: u32,
    pub mode: u32,
}

/// The `fuse_create_in` at the front of `b`.
pub open spec fn create_in(b: Seq<u8>) -> CreateIn {
    CreateIn {
        flags: le::le32_at(b, 0),
        mode: le::le32_at(b, 4),
    }
}

impl CreateIn {
    pub fn from_bytes(buf: &[u8]) -> (r: ProtoResult<(Self, &[u8])>)
        ensures
            has_name(buf@, 16) ==> {
                &&& r matches Ok((h, name))
                &&& h == create_in(buf@)
                &&& name@ == cstr_at(buf@, 16)
            },
            !has_name(buf@, 16) ==> (r matches Err(e) && e == ProtoError::Truncated),
    {
        let mut r = Reader::new(buf);
        let flags: u32 = r.u32()?;
        let mode: u32 = r.u32()?;
        r.skip(4)?;
        r.skip(4)?;
        let name = r.cstr()?;
        Ok((CreateIn { flags, mode }, name))
    }
}

/// The part of `fuse_rename_in` and `fuse_rename2_in` that is read.
pub struct RenameIn {
    pub newdir: u64,
}

/// The new directory at the front of `b`.
pub open spec fn rename_in(b: Seq<u8>) -> RenameIn {
    RenameIn { newdir: le::le64_at(b, 0) }
}

impl RenameIn {
    /// Reads a `FUSE_RENAME` body: the new directory, the old name, the new
    /// name.
    pub fn from_bytes(buf: &[u8]) -> (r: ProtoResult<(Self, &[u8], &[u8])>)
        ensures
            has_two_names(buf@, 8) ==> {
                &&& r matches Ok((h, old_name, new_name))
                &&& h == rename_in(buf@)
                &&& old_name@ == cstr_at(buf@, 8)
                &&& new_name@ == cstr_at(buf@, nul_at(buf@, 8) + 1)
            },
            !has_two_names(buf@, 8) ==> (r matches Err(e) && e == ProtoError::Truncated),
    {
        let mut r = Reader::new(buf);
        let newdir: u64 = r.u64()?;
        let old_name = r.cstr()?;
        let new_name = r.cstr()?;
        Ok((RenameIn { newdir }, old_name, new_name))
    }

    /// Reads a `FUSE_RENAME2` body, which has flags and padding after the new
    /// directory; the flags are ignored.
    pub fn from_bytes_v2(buf: &[u8]) -> (r: ProtoResult<(Self, &[u8], &[u8])>)
        ensures
            has_two_names(buf@, 16) ==> {
                &&& r matches Ok((h, old_name, new_name))
                &&& h == rename_in(buf@)
                &&& old_name@ == cstr_at(buf@, 16)
                &&& new_name@ == cstr_at(buf@, nul_at(buf@, 16) + 1)
            },
            !has_two_names(buf@, 16) ==> (r matches Err(e) && e == ProtoError::Truncated),
    {
        let mut r = Reader::new(buf);
        let newdir: u64 = r.u64()?;
        r.skip(8)?;
        let old_name = r.cstr()?;
        let new_name = r.cstr()?;
        Ok((RenameIn { newdir }, old_name, new_name))
    }
}

/// The part of `fuse_write_in` that is read.
pub struct WriteIn {
    pub fh: u64,
    pub offset: u64,
    pub size: u32,
}

/// The length of a `fuse_write_in`.
pub const WRITE_IN_LEN: usize = 40;

/// The `fuse_write_in` at the front of `b`.
pub open spec fn write_in(b: Seq<u8>) -> WriteIn {
    WriteIn { fh: le::le64_at(b, 0), offset: le::le64_at(b, 8), size: le::le32_at(b, 16) }
}

impl WriteIn {
    /// Reads the header, and gives what follows it: the data to write.
    pub fn from_bytes(buf: &[u8]) -> (r: ProtoResult<(Self, &[u8])>)
        ensures
            buf@.len() >= WRITE_IN_LEN ==> {
                &&& r matches Ok((h, data))
                &&& h == write_in(buf@)
                &&& data@ == buf@.skip(WRITE_IN_LEN as int)
            },
            buf@.len() < WRITE_IN_LEN ==> (r matches Err(e) && e == ProtoError::Truncated),
    {
        let mut r = Reader::new(buf);
        let fh: u64 = r.u64()?;
        let offset: u64 = r.u64()?;
        let size: u32 = r.u32()?;
        r.skip(4)?;
        r.skip(8)?;
        r.skip(4)?;
        r.skip(4)?;
        Ok((WriteIn { fh, offset, size }, r.remaining()))
    }
}

/// The bytes of a `fuse_open_out`: the handle, and no flags.
pub open spec fn open_out_bytes(fh: u64) -> Seq<u8> {
    le::u64_bytes(fh) + le::u32_bytes(0) + le::i32_bytes(0)
}

pub fn open_out(fh: u64) -> (r: Vec<u8>)
    ensures
        r@ == open_out_bytes(fh),
        r@.len() == 16,
{
    let mut w = Writer::new();
    w.u64(fh);
    assert(w@ =~= le::u64_bytes(fh));
    w.u32(0);
    w.i32(0);
    w.into_vec()
}

/// The bytes of a `fuse_write_out`.
pub open spec fn write_out_bytes(size: u32) -> Seq<u8> {
    le::u32_bytes(size) + le::u32_bytes(0)
}

pub fn write_out(size: u32) -> (r: Vec<u8>)
    ensures
        r@ == write_out_bytes(size),
        r@.len() == 8,
{
    let mut w = Writer::new();
    w.u32(size);
    assert(w@ =~= le::u32_bytes(size));
    w.u32(0);
    w.into_vec()
}

/// The bytes of a `fuse_statfs_out`; the block size, name limit and fragment
/// size are cut to 32 bits, and the rest is zero.
pub open spec fn statfs_bytes(st: StatVfs) -> Seq<u8> {
    le::u64_bytes(st.blocks) + le::u64_bytes(st.bfree) + le::u64_bytes(st.bavail) + le::u64_bytes(
        st.files,
    ) + le::u64_bytes(st.ffree) + le::u32_bytes(le::low32(st.bsize)) + le::u32_bytes(
        le::low32(st.namemax),
    ) + le::u32_bytes(le::low32(st.frsize)) + zeroes(28)
}

pub fn statfs_out(st: &StatVfs) -> (r: Vec<u8>)
    ensures
        r@ == statfs_bytes(*st),
        r@.len() == 80,
{
    let mut w = Writer::new();
    w.u64(st.blocks);
    assert(w@ =~= le::u64_bytes(st.blocks));
    w.u64(st.bfree);
    w.u64(st.bavail);
    w.u64(st.files);
    w.u64(st.ffree);
    w.u32(le::to_low32(st.bsize));
    w.u32(le::to_low32(st.namemax));
    w.u32(le::to_low32(st.frsize));
    w.pad_to(80);
    w.into_vec()
}

/// One `fuse_forget_one` of a `FUSE_BATCH_FORGET` request.
#[derive(Debug, Clone, Copy, PartialEq, Eq, Structural)]
pub struct ForgetOne {
    pub nodeid: u64,
    pub nlookup: u64,
}

/// The `i`th entry of the batch in `b`.
pub open spec fn forget_one(b: Seq<u8>, i: int) -> ForgetOne {
    ForgetOne { nodeid: le::le64_at(b, 8 + 16 * i), nlookup: le::le64_at(b, 16 + 16 * i) }
}

/// The entries of the batch in `b`.
pub open spec fn batch_forget(b: Seq<u8>) -> Seq<ForgetOne> {
    Seq::new(le::le32_at(b, 0) as nat, |i: int| forget_one(b, i))
}

/// Whether `b` holds a whole batch: a count, padding, and that many entries.
pub open spec fn has_batch(b: Seq<u8>) -> bool {
    b.len() >= 8 && b.len() >= 8 + 16 * le::le32_at(b, 0)
}

pub fn parse_batch_forget(buf: &[u8]) -> (r: ProtoResult<Vec<ForgetOne>>)
    ensures
        has_batch(buf@) ==> (r matches Ok(v) && v@ == batch_forget(buf@)),
        !has_batch(buf@) ==> (r matches Err(e) && e == ProtoError::Truncated),
{
    let mut r = Reader::new(buf);
    let count: u32 = r.u32()?;
    r.skip(4)?;
    let mut out: Vec<ForgetOne> = Vec::new();
    let mut i: u32 = 0;
    while i < count
        invariant
            i <= count,
            count == le::le32_at(buf@, 0),
            r.data() == buf@,
            r.pos() == 8 + 16 * i,
            r.pos() <= buf@.len(),
            out@.len() == i,
            forall|j: int| 0 <= j < i ==> out@[j] == forget_one(buf@, j),
        decreases count - i,
    {
        let nodeid: u64 = r.u64()?;
        let nlookup: u64 = r.u64()?;
        out.push(ForgetOne { nodeid, nlookup });
        i += 1;
    }
    assert(out@ =~= batch_forget(buf@));
    Ok(out)
}

/// `n` rounded up to a multiple of eight.
pub open spec fn round_up8(n: nat) -> nat {
    (n + 7) / 8 * 8
}

/// The bytes of a `fuse_dirent`: inode number, the offset at which the
/// listing goes on after this entry, the length of the name, the file type,
/// the name, and zeroes up to a multiple of eight.
pub open spec fn dirent_bytes(ino: u64, off: u64, kind: u32, name: Seq<u8>) -> Seq<u8> {
    le::u64_bytes(ino) + le::u64_bytes(off) + le::u32_bytes((name.len() % 0x1_0000_0000) as u32)
        + le::u32_bytes(kind) + name + zeroes(
        (round_up8(24 + name.len()) - (24 + name.len())) as nat,
    )
}

/// The length of a directory entry.
pub proof fn lemma_dirent_len(ino: u64, off: u64, kind: u32, name: Seq<u8>)
    ensures
        dirent_bytes(ino, off, kind, name).len() == round_up8(24 + name.len()),
{
    lemma_round_up8(24 + name.len());
}

/// What rounding up adds.
proof fn lemma_round_up8(n: nat)
    ensures
        round_up8(n) == if n % 8 == 0 {
            n
        } else {
            (n + 8 - n % 8) as nat
        },
{
}

/// One directory entry, with `pad` zeroes after the name.
fn dirent(ino: u64, off: u64, kind: u32, name: &[u8], pad: usize) -> (r: Vec<u8>)
    requires
        24 + name@.len() + pad == round_up8(24 + name@.len()),
    ensures
        r@ == dirent_bytes(ino, off, kind, name@),
        r@.len() == round_up8(24 + name@.len()),
{
    let mut w = Writer::new();
    w.u64(ino);
    assert(w@ =~= le::u64_bytes(ino));
    w.u64(off);
    w.u32((name.len() as u128 % 0x1_0000_0000) as u32);
    w.u32(kind);
    w.bytes(name);
    let mut entry = w.into_vec();
    append_zeroes(&mut entry, pad);
    entry
}

/// Appends one directory entry to `out` if it fits in `remaining` bytes;
/// otherwise leaves `out` as it is and says `false`.
pub fn push_dirent(
    out: &mut Vec<u8>,
    remaining: usize,
    ino: u64,
    off: u64,
    kind: u32,
    name: &[u8],
) -> (fits: bool)
    ensures
        fits == (round_up8(24 + name@.len()) <= remaining),
        fits ==> final(out)@ == old(out)@ + dirent_bytes(ino, off, kind, name@),
        !fits ==> final(out)@ == old(out)@,
{
    proof {
        lemma_round_up8(24 + name@.len());
    }
    if remaining < 24 || name.len() > remaining - 24 {
        return false;
    }
    let unpadded: usize = 24 + name.len();
    let tail: usize = unpadded % 8;
    let pad: usize = if tail == 0 { 0 } else { 8 - tail };
    if pad > remaining - unpadded {
        return false;
    }
    let entry = dirent(ino, off, kind, name, pad);
    octets::append(out, &entry);
    true
}

/// A reply says how long it is, whether it failed, and which request it
/// answers; a success carries its body, and an error nothing.
#[verifier::spinoff_prover]
#[verifier::rlimit(50)]
pub proof fn law_reply_reads_back(unique: u64, error: i32, body: Seq<u8>)
    ensures
        ({
            let w = reply_bytes(unique, error, body);
            &&& w.len() == OUT_HEADER_LEN + (if error == 0 {
                body.len()
            } else {
                0
            })
            &&& w.len() < 0x1_0000_0000 ==> le::le32_at(w, 0) == w.len()
            &&& le::le_i32_at(w, 4) == error
            &&& le::le64_at(w, 8) == unique
            &&& error == 0 ==> w.skip(OUT_HEADER_LEN as int) == body
        }),
{
    let w = reply_bytes(unique, error, body);
    let sent = if error == 0 {
        body
    } else {
        Seq::empty()
    };
    let len = ((OUT_HEADER_LEN + sent.len()) % 0x1_0000_0000) as u32;
    assert(w.subrange(0, 4) =~= le::u32_bytes(len));
    assert(w.subrange(4, 8) =~= le::i32_bytes(error));
    assert(w.subrange(8, 16) =~= le::u64_bytes(unique));
    le::lemma_at(w, 0, 0, len, 0);
    le::lemma_at(w, 4, 0, le::unsigned32(error), 0);
    le::lemma_at(w, 8, 0, 0, unique);
    le::law_i32_roundtrip(error, 0);
    assert(w.skip(OUT_HEADER_LEN as int) =~= sent);
}

/// A directory entry gives back its inode number, the offset to go on at, the
/// length of the name, the type, and the name, and is a multiple of eight
/// bytes long.
#[verifier::spinoff_prover]
#[verifier::rlimit(50)]
pub proof fn law_dirent_reads_back(ino: u64, off: u64, kind: u32, name: Seq<u8>)
    requires
        name.len() < 0x1_0000_0000,
    ensures
        ({
            let w = dirent_bytes(ino, off, kind, name);
            &&& w.len() == round_up8(24 + name.len())
            &&& w.len() % 8 == 0
            &&& le::le64_at(w, 0) == ino
            &&& le::le64_at(w, 8) == off
            &&& le::le32_at(w, 16) == name.len()
            &&& le::le32_at(w, 20) == kind
            &&& w.subrange(24, 24 + name.len() as int) == name
        }),
{
    let w = dirent_bytes(ino, off, kind, name);
    let pad = zeroes((round_up8(24 + name.len()) - (24 + name.len())) as nat);
    lemma_dirent_len(ino, off, kind, name);
    assert(w.len() % 8 == 0) by {
        lemma_round_up8(24 + name.len());
    }
    let n = name.len() as u32;
    lemma_dirent_parts(
        le::u64_bytes(ino),
        le::u64_bytes(off),
        le::u32_bytes(n),
        le::u32_bytes(kind),
        name,
        pad,
    );
    le::lemma_at(w, 0, 0, 0, ino);
    le::lemma_at(w, 8, 0, 0, off);
    le::lemma_at(w, 16, 0, n, 0);
    le::lemma_at(w, 20, 0, kind, 0);
}

/// Where the parts of a directory entry stand.
proof fn lemma_dirent_parts(
    ino: Seq<u8>,
    off: Seq<u8>,
    n: Seq<u8>,
    kind: Seq<u8>,
    name: Seq<u8>,
    pad: Seq<u8>,
)
    requires
        ino.len() == 8,
        off.len() == 8,
        n.len() == 4,
        kind.len() == 4,
    ensures
        ({
            let w = ino + off + n + kind + name + pad;
            &&& w.len() == 24 + name.len() + pad.len()
            &&& w.subrange(0, 8) == ino
            &&& w.subrange(8, 16) == off
            &&& w.subrange(16, 20) == n
            &&& w.subrange(20, 24) == kind
            &&& w.subrange(24, 24 + name.len() as int) == name
        }),
{
    let w = ino + off + n + kind + name + pad;
    assert(w.subrange(0, 8) =~= ino);
    assert(w.subrange(8, 16) =~= off);
    assert(w.subrange(16, 20) =~= n);
    assert(w.subrange(20, 24) =~= kind);
    assert(w.subrange(24, 24 + name.len() as int) =~= name);
}

} // verus!
