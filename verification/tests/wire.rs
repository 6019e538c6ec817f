//! The layouts of FUSE requests and replies.
use riftlessfs::engine::{Attr, StatVfs};
use riftlessfs::fuse::bytes::Writer;
use riftlessfs::fuse::request::{decode, set_attr, split_two_cstrs, trim_nul, Request};
use riftlessfs::host::HostErrnos;
use riftlessfs::fuse::wire::{
    attr_out, entry_out, init_out, open_out, parse_batch_forget, push_dirent, statfs_out,
    write_out, AccessIn, CreateIn, FlushIn, ForgetIn, ForgetOne, GetattrIn, InHeader, InitIn,
    LinkIn, MkdirIn, Opcode, OpenIn, OutHeader, ReadIn, ReleaseIn, RenameIn, SetattrIn, WriteIn,
    ATTR_LEN, ATTR_OUT_LEN, CACHE_TIMEOUT_SECS, ENTRY_OUT_LEN, FATTR_ATIME, FATTR_ATIME_NOW,
    FATTR_GID, FATTR_MTIME, FATTR_UID, FUSE_WRITEBACK_CACHE, INIT_OUT_LEN, INIT_OUT_MINOR,
    MAX_WRITE,
};
use riftlessfs::ProtoError;

fn attr() -> Attr {
    Attr {
        ino: 1,
        size: 2,
        blocks: 3,
        atime: (4, 5),
        mtime: (6, 7),
        ctime: (-1, 9),
        mode: 0o100_644,
        nlink: 11,
        uid: 12,
        gid: 13,
        rdev: 14,
        blksize: 15,
    }
}

fn attr_bytes() -> Vec<u8> {
    let mut w = Writer::new();
    w.u64(1).u64(2).u64(3).u64(4).u64(6).u64(u64::MAX);
    w.u32(5).u32(7).u32(9);
    w.u32(0o100_644).u32(11).u32(12).u32(13).u32(14).u32(15).u32(0);
    w.into_vec()
}

#[test]
fn attributes_on_the_wire() {
    assert_eq!(attr_bytes().len(), ATTR_LEN);
    let mut w = Writer::new();
    w.u64(CACHE_TIMEOUT_SECS).u32(0).u32(0).bytes(&attr_bytes());
    let expected = w.into_vec();
    assert_eq!(expected.len(), ATTR_OUT_LEN);
    assert_eq!(attr_out(&attr()), expected);
}

#[test]
fn an_entry_on_the_wire() {
    let mut w = Writer::new();
    w.u64(77).u64(1).u64(1).u64(1).u32(0).u32(0);
    w.bytes(&attr_bytes());
    let expected = w.into_vec();
    assert_eq!(expected.len(), ENTRY_OUT_LEN);
    assert_eq!(entry_out(77, &attr()), expected);
}

#[test]
fn an_init_reply_on_the_wire() {
    let mut w = Writer::new();
    w.u32(7).u32(INIT_OUT_MINOR).u32(0x1234).u32(FUSE_WRITEBACK_CACHE);
    w.u16(0).u16(0).u32(MAX_WRITE).u32(1);
    w.pad_to(INIT_OUT_LEN);
    assert_eq!(init_out(0x1234), w.into_vec());
    assert_eq!(MAX_WRITE, 131072);
    assert_eq!(FUSE_WRITEBACK_CACHE, 1 << 16);
}

#[test]
fn small_replies_on_the_wire() {
    assert_eq!(
        open_out(0x0102),
        [2, 1, 0, 0, 0, 0, 0, 0, 0, 0, 0, 0, 0, 0, 0, 0]
    );
    assert_eq!(write_out(258), [2, 1, 0, 0, 0, 0, 0, 0]);
    let st = StatVfs {
        blocks: 1,
        bfree: 2,
        bavail: 3,
        files: 4,
        ffree: 5,
        bsize: 0x1_0000_0006,
        namemax: 7,
        frsize: 8,
    };
    let mut w = Writer::new();
    w.u64(1).u64(2).u64(3).u64(4).u64(5).u32(6).u32(7).u32(8);
    w.pad_to(80);
    assert_eq!(statfs_out(&st), w.into_vec());
}

#[test]
fn reply_headers() {
    assert_eq!(
        OutHeader::reply(5, 0, b"xyz"),
        [19, 0, 0, 0, 0, 0, 0, 0, 5, 0, 0, 0, 0, 0, 0, 0, b'x', b'y', b'z']
    );
    assert_eq!(
        OutHeader::reply(5, -2, b"xyz"),
        [16, 0, 0, 0, 0xfe, 0xff, 0xff, 0xff, 5, 0, 0, 0, 0, 0, 0, 0]
    );
    assert_eq!(
        OutHeader::error_for(&HostErrnos::this_host(), 6, libc::ENOENT),
        [16, 0, 0, 0, 0xfe, 0xff, 0xff, 0xff, 6, 0, 0, 0, 0, 0, 0, 0]
    );
}

#[test]
fn request_headers() {
    let mut w = Writer::new();
    w.u32(44).u32(3).u64(5).u64(6).u32(7).u32(8).u32(9).u32(0);
    w.bytes(b"body");
    let buf = w.into_vec();
    let h = InHeader::from_bytes(&buf).unwrap();
    assert_eq!((h.len, h.opcode, h.unique, h.nodeid), (44, 3, 5, 6));
    assert_eq!((h.uid, h.gid, h.pid), (7, 8, 9));
    assert_eq!(InHeader::body(&buf), b"body");
    assert!(matches!(
        InHeader::from_bytes(&buf[..39]),
        Err(ProtoError::Truncated)
    ));
}

#[test]
fn opcodes() {
    assert_eq!(Opcode::from(1), Opcode::Lookup);
    assert_eq!(Opcode::from(2), Opcode::Forget);
    assert_eq!(Opcode::from(26), Opcode::Init);
    assert_eq!(Opcode::from(28), Opcode::Readdir);
    assert_eq!(Opcode::from(35), Opcode::Create);
    assert_eq!(Opcode::from(42), Opcode::BatchForget);
    assert_eq!(Opcode::from(45), Opcode::Rename2);
    assert_eq!(Opcode::from(44), Opcode::Unknown(44));
    assert_eq!(Opcode::from(0), Opcode::Unknown(0));
}

#[test]
fn bodies_of_fixed_length() {
    let mut w = Writer::new();
    for i in 1..=24u32 {
        w.u32(i);
    }
    let b = w.into_vec();
    let pair = |lo: u64, hi: u64| lo | (hi << 32);
    let i = InitIn::from_bytes(&b).unwrap();
    assert_eq!((i.major, i.minor, i.max_readahead, i.flags), (1, 2, 3, 4));
    let i = InitIn::from_bytes(&b[..12]).unwrap();
    assert_eq!((i.max_readahead, i.flags), (3, 0));
    assert!(InitIn::from_bytes(&b[..11]).is_err());
    let g = GetattrIn::from_bytes(&b).unwrap();
    assert_eq!((g.flags, g.fh), (1, pair(3, 4)));
    assert!(GetattrIn::from_bytes(&b[..15]).is_err());
    let s = SetattrIn::from_bytes(&b).unwrap();
    assert_eq!((s.valid, s.size), (1, pair(5, 6)));
    assert_eq!((s.atime, s.mtime), (pair(9, 10), pair(11, 12)));
    assert_eq!((s.atimensec, s.mtimensec), (15, 16));
    assert_eq!((s.mode, s.uid, s.gid), (18, 20, 21));
    assert!(SetattrIn::from_bytes(&b[..84]).is_ok());
    assert!(SetattrIn::from_bytes(&b[..83]).is_err());
    assert_eq!(OpenIn::from_bytes(&b).unwrap().flags, 1);
    assert_eq!(ReleaseIn::from_bytes(&b).unwrap().fh, pair(1, 2));
    assert_eq!(FlushIn::from_bytes(&b).unwrap().fh, pair(1, 2));
    assert_eq!(ForgetIn::from_bytes(&b).unwrap().nlookup, pair(1, 2));
    assert_eq!(AccessIn::from_bytes(&b).unwrap().mask, 1);
    let r = ReadIn::from_bytes(&b).unwrap();
    assert_eq!((r.fh, r.offset, r.size), (pair(1, 2), pair(3, 4), 5));
    assert!(ReadIn::from_bytes(&b[..19]).is_err());
    let (w, data) = WriteIn::from_bytes(&b).unwrap();
    assert_eq!((w.fh, w.offset, w.size), (pair(1, 2), pair(3, 4), 5));
    assert_eq!(data, &b[40..]);
    assert!(WriteIn::from_bytes(&b[..39]).is_err());
}

#[test]
fn bodies_with_names() {
    let mut w = Writer::new();
    w.u32(9).u32(8).cstr(b"name").bytes(b"rest");
    let b = w.into_vec();
    let (m, name) = MkdirIn::from_bytes(&b).unwrap();
    assert_eq!((m.mode, name), (9, &b"name"[..]));
    let (l, name) = LinkIn::from_bytes(&b).unwrap();
    assert_eq!((l.oldnodeid, name), (9 | (8 << 32), &b"name"[..]));
    assert!(MkdirIn::from_bytes(&b[..12]).is_err());

    let mut w = Writer::new();
    w.u64(9).cstr(b"old").cstr(b"new");
    let b = w.into_vec();
    let (r, old, new) = RenameIn::from_bytes(&b).unwrap();
    assert_eq!((r.newdir, old, new), (9, &b"old"[..], &b"new"[..]));
    assert!(RenameIn::from_bytes(&b[..b.len() - 1]).is_err());

    let mut w = Writer::new();
    w.u64(9).u32(1).u32(0).cstr(b"old").cstr(b"");
    let b = w.into_vec();
    let (r, old, new) = RenameIn::from_bytes_v2(&b).unwrap();
    assert_eq!((r.newdir, old, new), (9, &b"old"[..], &b""[..]));
    let (c, name) = CreateIn::from_bytes(&b).unwrap();
    assert_eq!((c.flags, c.mode, name), (9, 0, &b"old"[..]));
}

#[test]
fn batches() {
    let mut w = Writer::new();
    w.u32(2).u32(0).u64(3).u64(4).u64(5).u64(6);
    let b = w.into_vec();
    assert_eq!(
        parse_batch_forget(&b).unwrap(),
        vec![
            ForgetOne {
                nodeid: 3,
                nlookup: 4
            },
            ForgetOne {
                nodeid: 5,
                nlookup: 6
            }
        ]
    );
    assert!(matches!(
        parse_batch_forget(&b[..39]),
        Err(ProtoError::Truncated)
    ));
    assert!(parse_batch_forget(&[0; 8]).unwrap().is_empty());
}

#[test]
fn directory_entries() {
    let mut out = vec![1];
    assert!(push_dirent(&mut out, 32, 3, 4, 5, b"abc"));
    let mut w = Writer::new();
    w.bytes(&[1]).u64(3).u64(4).u32(3).u32(5).bytes(b"abc\0\0\0\0\0");
    let expected = w.into_vec();
    assert_eq!(out, expected);
    assert!(!push_dirent(&mut out, 31, 3, 4, 5, b"abc"));
    assert!(!push_dirent(&mut out, 23, 3, 4, 5, b""));
    assert_eq!(out, expected);
    assert!(push_dirent(&mut out, 32, 3, 4, 5, b"12345678"));
    assert_eq!(out.len(), 1 + 32 + 32);
}

#[test]
fn strings_in_bodies() {
    assert_eq!(trim_nul(b"abc\0def"), b"abc");
    assert_eq!(trim_nul(b"abc"), b"abc");
    assert_eq!(
        split_two_cstrs(b"name\0target\0more"),
        Some((&b"name"[..], &b"target"[..]))
    );
    assert_eq!(split_two_cstrs(b"name\0target"), None);
    assert_eq!(split_two_cstrs(b"name"), None);
}

#[test]
fn wanted_attributes() {
    let mut s = SetattrIn {
        valid: FATTR_UID | FATTR_GID | FATTR_ATIME | FATTR_MTIME,
        size: 1,
        atime: u64::MAX,
        mtime: 3,
        atimensec: 4,
        mtimensec: 5,
        mode: 6,
        uid: 7,
        gid: 8,
    };
    let set = set_attr(&s, (100, 200));
    assert_eq!((set.size, set.mode), (None, None));
    assert_eq!((set.uid, set.gid), (Some(7), Some(8)));
    assert_eq!((set.atime, set.mtime), (Some((-1, 4)), Some((3, 5))));
    s.valid = FATTR_ATIME | FATTR_ATIME_NOW;
    let set = set_attr(&s, (100, 200));
    assert_eq!((set.atime, set.mtime), (Some((100, 200)), None));
}

#[test]
fn requests_are_decoded() {
    match decode(&HostErrnos::this_host(), Opcode::Open, 9, &0xffff_ffffu32.to_le_bytes(), (0, 0)) {
        Request::Open { ino, flags } => assert_eq!((ino, flags), (9, -1)),
        _ => panic!("expected an open"),
    }
    match decode(&HostErrnos::this_host(), Opcode::Unlink, 9, b"gone\0junk", (0, 0)) {
        Request::Unlink { parent, name } => assert_eq!((parent, &name[..]), (9, &b"gone"[..])),
        _ => panic!("expected an unlink"),
    }
    assert!(matches!(
        decode(&HostErrnos::this_host(), Opcode::Read, 9, &[0; 19], (0, 0)),
        Request::Refuse { errno } if errno == libc::EINVAL
    ));
    assert!(matches!(
        decode(&HostErrnos::this_host(), Opcode::Getxattr, 9, &[], (0, 0)),
        Request::Refuse { errno } if errno == libc::ENOSYS
    ));
}
