//! Where the fields of a reply's body stand, by the kernel's layout of the FUSE
//! structures, and what a guest that reads them there finds.
use crate::engine::attr::{attr_of, Attr, Stat, StatVfs};
use crate::fuse::bytes::{padded, zeroes};
use crate::fuse::wire::{
    access_in, attr_bytes, attr_out_bytes, create_in, entry_bytes, flush_in, forget_in, getattr_in,
    in_header, init_in, init_out_bytes, link_in, mkdir_in, open_in, open_out_bytes, opcode_of,
    read_in, release_in, rename_in, request_body, statfs_bytes, write_in, write_out_bytes, Opcode,
};
use crate::le;
use vstd::prelude::*;

verus! {

/// Whether a `fuse_attr` that tells of the file of `st` stands at `at`: its inode
/// number, size and blocks; the access, modification and change times, first the
/// seconds and then the nanoseconds; its mode, links, owner, group, device and
/// block size. Each is what `stat` reported, modulo what its field has room for.
#[verifier::opaque]
pub open spec fn shows_file(b: Seq<u8>, at: int, st: Stat) -> bool {
    &&& b.len() >= at + 88
    &&& le::le64_at(b, at) == st.ino
    &&& le::le64_at(b, at + 8) as int == st.size as int % 0x1_0000_0000_0000_0000
    &&& le::le64_at(b, at + 16) as int == st.blocks as int % 0x1_0000_0000_0000_0000
    &&& le::le64_at(b, at + 24) as int == st.atime as int % 0x1_0000_0000_0000_0000
    &&& le::le64_at(b, at + 32) as int == st.mtime as int % 0x1_0000_0000_0000_0000
    &&& le::le64_at(b, at + 40) as int == st.ctime as int % 0x1_0000_0000_0000_0000
    &&& le::le32_at(b, at + 48) as int == st.atime_nsec as int % 0x1_0000_0000
    &&& le::le32_at(b, at + 52) as int == st.mtime_nsec as int % 0x1_0000_0000
    &&& le::le32_at(b, at + 56) as int == st.ctime_nsec as int % 0x1_0000_0000
    &&& le::le32_at(b, at + 60) == st.mode
    &&& le::le32_at(b, at + 64) as int == st.nlink as int % 0x1_0000_0000
    &&& le::le32_at(b, at + 68) == st.uid
    &&& le::le32_at(b, at + 72) == st.gid
    &&& le::le32_at(b, at + 76) as int == st.rdev as int % 0x1_0000_0000
    &&& le::le32_at(b, at + 80) as int == st.blksize as int % 0x1_0000_0000
    &&& le::le32_at(b, at + 84) == 0
}

/// Whether a `fuse_entry_out` stands at the front: the node id, generation 1, a
/// second for which each of the entry and the attributes may be used, and the
/// attributes of the file.
#[verifier::opaque]
pub open spec fn shows_entry(b: Seq<u8>, nodeid: u64, st: Stat) -> bool {
    &&& b.len() >= 128
    &&& le::le64_at(b, 0) == nodeid
    &&& le::le64_at(b, 8) == 1
    &&& le::le64_at(b, 16) == 1
    &&& le::le64_at(b, 24) == 1
    &&& le::le32_at(b, 32) == 0
    &&& le::le32_at(b, 36) == 0
    &&& shows_file(b, 40, st)
}

/// Whether `b` is a `fuse_attr_out`: a second for which the attributes may be used,
/// and the attributes of the file.
#[verifier::opaque]
pub open spec fn shows_attributes(b: Seq<u8>, st: Stat) -> bool {
    &&& b.len() == 104
    &&& le::le64_at(b, 0) == 1
    &&& le::le32_at(b, 8) == 0
    &&& le::le32_at(b, 12) == 0
    &&& shows_file(b, 16, st)
}

/// Whether a `fuse_open_out` with this handle stands at `at`.
#[verifier::opaque]
pub open spec fn shows_handle(b: Seq<u8>, at: int, handle: u64) -> bool {
    &&& b.len() == at + 16
    &&& le::le64_at(b, at) == handle
    &&& le::le32_at(b, at + 8) == 0
    &&& le::le32_at(b, at + 12) == 0
}

/// Where the parts of a `fuse_attr` stand.
#[verifier::spinoff_prover]
proof fn lemma_attr_parts(
    a: Seq<u8>,
    b: Seq<u8>,
    c: Seq<u8>,
    d: Seq<u8>,
    e: Seq<u8>,
    f: Seq<u8>,
    g: Seq<u8>,
    h: Seq<u8>,
    i: Seq<u8>,
    j: Seq<u8>,
    k: Seq<u8>,
    l: Seq<u8>,
    m: Seq<u8>,
    n: Seq<u8>,
    o: Seq<u8>,
    p: Seq<u8>,
)
    requires
        a.len() == 8,
        b.len() == 8,
        c.len() == 8,
        d.len() == 8,
        e.len() == 8,
        f.len() == 8,
        g.len() == 4,
        h.len() == 4,
        i.len() == 4,
        j.len() == 4,
        k.len() == 4,
        l.len() == 4,
        m.len() == 4,
        n.len() == 4,
        o.len() == 4,
        p.len() == 4,
    ensures
        ({
            let w = a + b + c + d + e + f + g + h + i + j + k + l + m + n + o + p;
            &&& w.len() == 88
            &&& w.subrange(0, 8) == a
            &&& w.subrange(8, 16) == b
            &&& w.subrange(16, 24) == c
            &&& w.subrange(24, 32) == d
            &&& w.subrange(32, 40) == e
            &&& w.subrange(40, 48) == f
            &&& w.subrange(48, 52) == g
            &&& w.subrange(52, 56) == h
            &&& w.subrange(56, 60) == i
            &&& w.subrange(60, 64) == j
            &&& w.subrange(64, 68) == k
            &&& w.subrange(68, 72) == l
            &&& w.subrange(72, 76) == m
            &&& w.subrange(76, 80) == n
            &&& w.subrange(80, 84) == o
            &&& w.subrange(84, 88) == p
        }),
{
    let w = a + b + c + d + e + f + g + h + i + j + k + l + m + n + o + p;
    assert(w.subrange(0, 8) =~= a);
    assert(w.subrange(8, 16) =~= b);
    assert(w.subrange(16, 24) =~= c);
    assert(w.subrange(24, 32) =~= d);
    assert(w.subrange(32, 40) =~= e);
    assert(w.subrange(40, 48) =~= f);
    assert(w.subrange(48, 52) =~= g);
    assert(w.subrange(52, 56) =~= h);
    assert(w.subrange(56, 60) =~= i);
    assert(w.subrange(60, 64) =~= j);
    assert(w.subrange(64, 68) =~= k);
    assert(w.subrange(68, 72) =~= l);
    assert(w.subrange(72, 76) =~= m);
    assert(w.subrange(76, 80) =~= n);
    assert(w.subrange(80, 84) =~= o);
    assert(w.subrange(84, 88) =~= p);
}

/// Whether `w` is a `fuse_attr` with these attributes.
#[verifier::opaque]
spec fn holds_attr(w: Seq<u8>, a: Attr) -> bool {
    &&& w.len() == 88
    &&& le::le64_at(w, 0) == a.ino
    &&& le::le64_at(w, 8) == a.size
    &&& le::le64_at(w, 16) == a.blocks
    &&& le::le64_at(w, 24) == le::unsigned64(a.atime.0)
    &&& le::le64_at(w, 32) == le::unsigned64(a.mtime.0)
    &&& le::le64_at(w, 40) == le::unsigned64(a.ctime.0)
    &&& le::le32_at(w, 48) == a.atime.1
    &&& le::le32_at(w, 52) == a.mtime.1
    &&& le::le32_at(w, 56) == a.ctime.1
    &&& le::le32_at(w, 60) == a.mode
    &&& le::le32_at(w, 64) == a.nlink
    &&& le::le32_at(w, 68) == a.uid
    &&& le::le32_at(w, 72) == a.gid
    &&& le::le32_at(w, 76) == a.rdev
    &&& le::le32_at(w, 80) == a.blksize
    &&& le::le32_at(w, 84) == 0
}

proof fn lemma_u64_there(w: Seq<u8>, n: int, v: u64)
    requires
        0 <= n,
        n + 8 <= w.len(),
        w.subrange(n, n + 8) == le::u64_bytes(v),
    ensures
        le::le64_at(w, n) == v,
{
    le::lemma_at(w, n, 0, 0, v);
}

proof fn lemma_u32_there(w: Seq<u8>, n: int, v: u32)
    requires
        0 <= n,
        n + 4 <= w.len(),
        w.subrange(n, n + 4) == le::u32_bytes(v),
    ensures
        le::le32_at(w, n) == v,
{
    le::lemma_at(w, n, 0, v, 0);
}

/// What is read out of a `fuse_attr`, if its parts stand where they should.
#[verifier::spinoff_prover]
proof fn lemma_attr_reads(w: Seq<u8>, a: Attr)
    requires
        w.len() == 88,
        w.subrange(0, 8) == le::u64_bytes(a.ino),
        w.subrange(8, 16) == le::u64_bytes(a.size),
        w.subrange(16, 24) == le::u64_bytes(a.blocks),
        w.subrange(24, 32) == le::u64_bytes(le::unsigned64(a.atime.0)),
        w.subrange(32, 40) == le::u64_bytes(le::unsigned64(a.mtime.0)),
        w.subrange(40, 48) == le::u64_bytes(le::unsigned64(a.ctime.0)),
        w.subrange(48, 52) == le::u32_bytes(a.atime.1),
        w.subrange(52, 56) == le::u32_bytes(a.mtime.1),
        w.subrange(56, 60) == le::u32_bytes(a.ctime.1),
        w.subrange(60, 64) == le::u32_bytes(a.mode),
        w.subrange(64, 68) == le::u32_bytes(a.nlink),
        w.subrange(68, 72) == le::u32_bytes(a.uid),
        w.subrange(72, 76) == le::u32_bytes(a.gid),
        w.subrange(76, 80) == le::u32_bytes(a.rdev),
        w.subrange(80, 84) == le::u32_bytes(a.blksize),
        w.subrange(84, 88) == le::u32_bytes(0),
    ensures
        holds_attr(w, a),
{
    reveal(holds_attr);
    lemma_u64_there(w, 0, a.ino);
    lemma_u64_there(w, 8, a.size);
    lemma_u64_there(w, 16, a.blocks);
    lemma_u64_there(w, 24, le::unsigned64(a.atime.0));
    lemma_u64_there(w, 32, le::unsigned64(a.mtime.0));
    lemma_u64_there(w, 40, le::unsigned64(a.ctime.0));
    lemma_u32_there(w, 48, a.atime.1);
    lemma_u32_there(w, 52, a.mtime.1);
    lemma_u32_there(w, 56, a.ctime.1);
    lemma_u32_there(w, 60, a.mode);
    lemma_u32_there(w, 64, a.nlink);
    lemma_u32_there(w, 68, a.uid);
    lemma_u32_there(w, 72, a.gid);
    lemma_u32_there(w, 76, a.rdev);
    lemma_u32_there(w, 80, a.blksize);
    lemma_u32_there(w, 84, 0);
}

/// What is read out of a `fuse_attr`.
proof fn lemma_attr_reads_back(a: Attr)
    ensures
        holds_attr(attr_bytes(a), a),
{
    lemma_attr_parts(
        le::u64_bytes(a.ino),
        le::u64_bytes(a.size),
        le::u64_bytes(a.blocks),
        le::u64_bytes(le::unsigned64(a.atime.0)),
        le::u64_bytes(le::unsigned64(a.mtime.0)),
        le::u64_bytes(le::unsigned64(a.ctime.0)),
        le::u32_bytes(a.atime.1),
        le::u32_bytes(a.mtime.1),
        le::u32_bytes(a.ctime.1),
        le::u32_bytes(a.mode),
        le::u32_bytes(a.nlink),
        le::u32_bytes(a.uid),
        le::u32_bytes(a.gid),
        le::u32_bytes(a.rdev),
        le::u32_bytes(a.blksize),
        le::u32_bytes(0),
    );
    lemma_attr_reads(attr_bytes(a), a);
}

/// The attributes that `st` describes, each modulo what it has room for.
proof fn lemma_attr_of(st: Stat)
    ensures
        ({
            let a = attr_of(st);
            &&& a.ino == st.ino
            &&& a.size as int == st.size as int % 0x1_0000_0000_0000_0000
            &&& a.blocks as int == st.blocks as int % 0x1_0000_0000_0000_0000
            &&& a.atime.0 == st.atime
            &&& a.mtime.0 == st.mtime
            &&& a.ctime.0 == st.ctime
            &&& a.atime.1 as int == st.atime_nsec as int % 0x1_0000_0000
            &&& a.mtime.1 as int == st.mtime_nsec as int % 0x1_0000_0000
            &&& a.ctime.1 as int == st.ctime_nsec as int % 0x1_0000_0000
            &&& a.mode == st.mode
            &&& a.nlink as int == st.nlink as int % 0x1_0000_0000
            &&& a.uid == st.uid
            &&& a.gid == st.gid
            &&& a.rdev as int == st.rdev as int % 0x1_0000_0000
            &&& a.blksize as int == st.blksize as int % 0x1_0000_0000
        }),
{
}

/// Bytes that have the attributes show the file.
#[verifier::spinoff_prover]
proof fn lemma_shows(w: Seq<u8>, a: Attr, st: Stat)
    requires
        a == attr_of(st),
        holds_attr(w, a),
    ensures
        shows_file(w, 0, st),
        w.len() == 88,
{
    reveal(holds_attr);
    reveal(shows_file);
    lemma_attr_of(st);
}

/// The attributes of a file are what `stat` reported of it, field by field, as far
/// as the fields have room.
pub proof fn law_attributes_are_those_of_stat(st: Stat)
    ensures
        ({
            let a = attr_of(st);
            &&& a.ino == st.ino
            &&& a.mode == st.mode
            &&& a.uid == st.uid
            &&& a.gid == st.gid
            &&& st.size >= 0 ==> a.size == st.size
            &&& st.blocks >= 0 ==> a.blocks == st.blocks
            &&& st.nlink < 0x1_0000_0000 ==> a.nlink == st.nlink
            &&& st.rdev < 0x1_0000_0000 ==> a.rdev == st.rdev
            &&& 0 <= st.blksize < 0x1_0000_0000 ==> a.blksize == st.blksize
            &&& a.atime.0 == st.atime
            &&& a.mtime.0 == st.mtime
            &&& a.ctime.0 == st.ctime
            &&& 0 <= st.atime_nsec < 0x1_0000_0000 ==> a.atime.1 == st.atime_nsec
            &&& 0 <= st.mtime_nsec < 0x1_0000_0000 ==> a.mtime.1 == st.mtime_nsec
            &&& 0 <= st.ctime_nsec < 0x1_0000_0000 ==> a.ctime.1 == st.ctime_nsec
        }),
{
}

/// The attributes of a file read back from their bytes as what `stat` reported of
/// it.
pub proof fn law_attributes_read_back(st: Stat)
    ensures
        shows_file(attr_bytes(attr_of(st)), 0, st),
        attr_bytes(attr_of(st)).len() == 88,
{
    lemma_attr_reads_back(attr_of(st));
    lemma_shows(attr_bytes(attr_of(st)), attr_of(st), st);
}

/// Attributes that stand at the front of some bytes stand further on behind
/// others.
proof fn lemma_shows_behind(front: Seq<u8>, w: Seq<u8>, back: Seq<u8>, st: Stat)
    requires
        w.len() == 88,
        shows_file(w, 0, st),
    ensures
        shows_file(front + w + back, front.len() as int, st),
{
    reveal(shows_file);
    let b = front + w + back;
    let n = front.len() as int;
    assert(b.subrange(n, n + 88) =~= w);
    lemma_all_shift(b, n);
}

/// What stands in a `fuse_attr` is found at the shifted place of the whole.
proof fn lemma_all_shift(b: Seq<u8>, n: int)
    requires
        0 <= n,
        n + 88 <= b.len(),
    ensures
        forall|i: int|
            #![trigger le::le64_at(b.subrange(n, n + 88), i)]
            0 <= i <= 80 ==> le::le64_at(b.subrange(n, n + 88), i) == le::le64_at(b, n + i),
        forall|i: int|
            #![trigger le::le32_at(b.subrange(n, n + 88), i)]
            0 <= i <= 84 ==> le::le32_at(b.subrange(n, n + 88), i) == le::le32_at(b, n + i),
{
    assert forall|i: int|
        #![trigger le::le64_at(b.subrange(n, n + 88), i)]
        0 <= i <= 80 implies le::le64_at(b.subrange(n, n + 88), i) == le::le64_at(b, n + i) by {
        le::lemma_le_shift(b, n, n + 88, i);
    }
    assert forall|i: int|
        #![trigger le::le32_at(b.subrange(n, n + 88), i)]
        0 <= i <= 84 implies le::le32_at(b.subrange(n, n + 88), i) == le::le32_at(b, n + i) by {
        le::lemma_le_shift(b, n, n + 88, i);
    }
}

/// An entry tells its node id and the attributes of its file, and so does one that
/// a handle comes with, which stands right after it. Attributes alone tell those of
/// the file.
pub proof fn law_entries_and_attributes_read_back(nodeid: u64, st: Stat, handle: u64)
    ensures
        entry_bytes(nodeid, attr_of(st)).len() == 128,
        shows_entry(entry_bytes(nodeid, attr_of(st)), nodeid, st),
        shows_entry(entry_bytes(nodeid, attr_of(st)) + open_out_bytes(handle), nodeid, st),
        shows_handle(entry_bytes(nodeid, attr_of(st)) + open_out_bytes(handle), 128, handle),
        shows_attributes(attr_out_bytes(attr_of(st)), st),
        shows_handle(open_out_bytes(handle), 0, handle),
{
    let a = attr_bytes(attr_of(st));
    law_attributes_read_back(st);
    let front = le::u64_bytes(nodeid) + le::u64_bytes(1) + le::u64_bytes(1) + le::u64_bytes(1)
        + le::u32_bytes(0) + le::u32_bytes(0);
    lemma_entry_front(nodeid);
    lemma_attr_front();
    lemma_handle_reads_back(handle);
    lemma_entry_shows(front, a, Seq::empty(), nodeid, st);
    assert(front + a + Seq::<u8>::empty() =~= front + a);
    lemma_entry_shows(front, a, open_out_bytes(handle), nodeid, st);
    lemma_handle_behind(front + a, open_out_bytes(handle), handle);
    let short = le::u64_bytes(1) + le::u32_bytes(0) + le::u32_bytes(0);
    lemma_attributes_show(short, a, st);
}

proof fn lemma_handle_behind(w: Seq<u8>, tail: Seq<u8>, handle: u64)
    requires
        shows_handle(tail, 0, handle),
    ensures
        shows_handle(w + tail, w.len() as int, handle),
{
    reveal(shows_handle);
    let t = w + tail;
    let n = w.len() as int;
    assert(t.subrange(n, n + 16) =~= tail);
    le::lemma_le_shift(t, n, n + 16, 0);
    le::lemma_le_shift(t, n, n + 16, 8);
    le::lemma_le_shift(t, n, n + 16, 12);
}

proof fn lemma_entry_shows(front: Seq<u8>, a: Seq<u8>, tail: Seq<u8>, nodeid: u64, st: Stat)
    requires
        front.len() == 40,
        le::le64_at(front, 0) == nodeid,
        le::le64_at(front, 8) == 1,
        le::le64_at(front, 16) == 1,
        le::le64_at(front, 24) == 1,
        le::le32_at(front, 32) == 0,
        le::le32_at(front, 36) == 0,
        a.len() == 88,
        shows_file(a, 0, st),
    ensures
        shows_entry(front + a + tail, nodeid, st),
{
    reveal(shows_entry);
    lemma_shows_behind(front, a, tail, st);
    assert(front + a + tail =~= front + (a + tail));
    lemma_front_stays(front, a + tail);
}

proof fn lemma_attributes_show(front: Seq<u8>, a: Seq<u8>, st: Stat)
    requires
        front.len() == 16,
        le::le64_at(front, 0) == 1,
        le::le32_at(front, 8) == 0,
        le::le32_at(front, 12) == 0,
        a.len() == 88,
        shows_file(a, 0, st),
    ensures
        shows_attributes(front + a, st),
{
    reveal(shows_attributes);
    let b = front + a;
    lemma_shows_behind(front, a, Seq::empty(), st);
    assert(front + a + Seq::<u8>::empty() =~= b);
    assert(b.subrange(0, 16) =~= front);
    le::lemma_le_shift(b, 0, 16, 0);
    le::lemma_le_shift(b, 0, 16, 8);
    le::lemma_le_shift(b, 0, 16, 12);
}

proof fn lemma_attr_front()
    ensures
        ({
            let f = le::u64_bytes(1) + le::u32_bytes(0) + le::u32_bytes(0);
            &&& f.len() == 16
            &&& le::le64_at(f, 0) == 1
            &&& le::le32_at(f, 8) == 0
            &&& le::le32_at(f, 12) == 0
        }),
{
    let f = le::u64_bytes(1) + le::u32_bytes(0) + le::u32_bytes(0);
    assert(f.subrange(0, 8) =~= le::u64_bytes(1));
    assert(f.subrange(8, 12) =~= le::u32_bytes(0));
    assert(f.subrange(12, 16) =~= le::u32_bytes(0));
    le::lemma_at(f, 0, 0, 0, 1);
    le::lemma_at(f, 8, 0, 0, 0);
    le::lemma_at(f, 12, 0, 0, 0);
}

proof fn lemma_handle_reads_back(handle: u64)
    ensures
        shows_handle(open_out_bytes(handle), 0, handle),
{
    reveal(shows_handle);
    let w = open_out_bytes(handle);
    assert(w.subrange(0, 8) =~= le::u64_bytes(handle));
    assert(w.subrange(8, 12) =~= le::u32_bytes(0));
    assert(w.subrange(12, 16) =~= le::u32_bytes(0));
    le::lemma_at(w, 0, 0, 0, handle);
    le::lemma_at(w, 8, 0, 0, 0);
    le::lemma_at(w, 12, 0, 0, 0);
}

/// What stands before the attributes in an entry.
#[verifier::spinoff_prover]
proof fn lemma_entry_front(nodeid: u64)
    ensures
        ({
            let f = le::u64_bytes(nodeid) + le::u64_bytes(1) + le::u64_bytes(1) + le::u64_bytes(1)
                + le::u32_bytes(0) + le::u32_bytes(0);
            &&& f.len() == 40
            &&& le::le64_at(f, 0) == nodeid
            &&& le::le64_at(f, 8) == 1
            &&& le::le64_at(f, 16) == 1
            &&& le::le64_at(f, 24) == 1
            &&& le::le32_at(f, 32) == 0
            &&& le::le32_at(f, 36) == 0
        }),
{
    let f = le::u64_bytes(nodeid) + le::u64_bytes(1) + le::u64_bytes(1) + le::u64_bytes(1)
        + le::u32_bytes(0) + le::u32_bytes(0);
    assert(f.subrange(0, 8) =~= le::u64_bytes(nodeid));
    assert(f.subrange(8, 16) =~= le::u64_bytes(1));
    assert(f.subrange(16, 24) =~= le::u64_bytes(1));
    assert(f.subrange(24, 32) =~= le::u64_bytes(1));
    assert(f.subrange(32, 36) =~= le::u32_bytes(0));
    assert(f.subrange(36, 40) =~= le::u32_bytes(0));
    le::lemma_at(f, 0, 0, 0, nodeid);
    le::lemma_at(f, 8, 0, 0, 1);
    le::lemma_at(f, 16, 0, 0, 1);
    le::lemma_at(f, 24, 0, 0, 1);
    le::lemma_at(f, 32, 0, 0, 0);
    le::lemma_at(f, 36, 0, 0, 0);
}

/// What is read at the front of some bytes is read there whatever comes after.
proof fn lemma_front_stays(front: Seq<u8>, rest: Seq<u8>)
    requires
        front.len() == 40,
    ensures
        ({
            let b = front + rest;
            &&& le::le64_at(b, 0) == le::le64_at(front, 0)
            &&& le::le64_at(b, 8) == le::le64_at(front, 8)
            &&& le::le64_at(b, 16) == le::le64_at(front, 16)
            &&& le::le64_at(b, 24) == le::le64_at(front, 24)
            &&& le::le32_at(b, 32) == le::le32_at(front, 32)
            &&& le::le32_at(b, 36) == le::le32_at(front, 36)
        }),
{
    let b = front + rest;
    assert(b.subrange(0, 40) =~= front);
    le::lemma_le_shift(b, 0, 40, 0);
    le::lemma_le_shift(b, 0, 40, 8);
    le::lemma_le_shift(b, 0, 40, 16);
    le::lemma_le_shift(b, 0, 40, 24);
    le::lemma_le_shift(b, 0, 40, 32);
    le::lemma_le_shift(b, 0, 40, 36);
}

/// The answer to a write says how many bytes were written.
pub proof fn law_written_count_reads_back(n: u32)
    ensures
        write_out_bytes(n).len() == 8,
        le::le32_at(write_out_bytes(n), 0) == n,
        le::le32_at(write_out_bytes(n), 4) == 0,
{
    let w = write_out_bytes(n);
    assert(w.subrange(0, 4) =~= le::u32_bytes(n));
    assert(w.subrange(4, 8) =~= le::u32_bytes(0));
    le::lemma_at(w, 0, 0, n, 0);
    le::lemma_at(w, 4, 0, 0, 0);
}

/// The state of a filesystem reads back as `statvfs` reported it: blocks, free
/// blocks and available blocks, files and free files in eight bytes each, and block
/// size, longest name and fragment size in four, modulo 2^32. The rest of the 80
/// bytes is zero.
#[verifier::spinoff_prover]
pub proof fn law_filesystem_state_reads_back(st: StatVfs)
    ensures
        ({
            let w = statfs_bytes(st);
            &&& w.len() == 80
            &&& le::le64_at(w, 0) == st.blocks
            &&& le::le64_at(w, 8) == st.bfree
            &&& le::le64_at(w, 16) == st.bavail
            &&& le::le64_at(w, 24) == st.files
            &&& le::le64_at(w, 32) == st.ffree
            &&& le::le32_at(w, 40) as int == st.bsize as int % 0x1_0000_0000
            &&& le::le32_at(w, 44) as int == st.namemax as int % 0x1_0000_0000
            &&& le::le32_at(w, 48) as int == st.frsize as int % 0x1_0000_0000
            &&& forall|i: int| 52 <= i < 80 ==> w[i] == 0
        }),
{
    let w = statfs_bytes(st);
    lemma_statfs_parts(
        le::u64_bytes(st.blocks),
        le::u64_bytes(st.bfree),
        le::u64_bytes(st.bavail),
        le::u64_bytes(st.files),
        le::u64_bytes(st.ffree),
        le::u32_bytes(le::low32(st.bsize)),
        le::u32_bytes(le::low32(st.namemax)),
        le::u32_bytes(le::low32(st.frsize)),
        zeroes(28),
    );
    le::lemma_at(w, 0, 0, 0, st.blocks);
    le::lemma_at(w, 8, 0, 0, st.bfree);
    le::lemma_at(w, 16, 0, 0, st.bavail);
    le::lemma_at(w, 24, 0, 0, st.files);
    le::lemma_at(w, 32, 0, 0, st.ffree);
    le::lemma_at(w, 40, 0, le::low32(st.bsize), 0);
    le::lemma_at(w, 44, 0, le::low32(st.namemax), 0);
    le::lemma_at(w, 48, 0, le::low32(st.frsize), 0);
}

/// Where the parts of a `fuse_statfs_out` stand.
proof fn lemma_statfs_parts(
    a: Seq<u8>,
    b: Seq<u8>,
    c: Seq<u8>,
    d: Seq<u8>,
    e: Seq<u8>,
    f: Seq<u8>,
    g: Seq<u8>,
    h: Seq<u8>,
    pad: Seq<u8>,
)
    requires
        a.len() == 8,
        b.len() == 8,
        c.len() == 8,
        d.len() == 8,
        e.len() == 8,
        f.len() == 4,
        g.len() == 4,
        h.len() == 4,
        pad.len() == 28,
    ensures
        ({
            let w = a + b + c + d + e + f + g + h + pad;
            &&& w.len() == 80
            &&& w.subrange(0, 8) == a
            &&& w.subrange(8, 16) == b
            &&& w.subrange(16, 24) == c
            &&& w.subrange(24, 32) == d
            &&& w.subrange(32, 40) == e
            &&& w.subrange(40, 44) == f
            &&& w.subrange(44, 48) == g
            &&& w.subrange(48, 52) == h
            &&& forall|i: int| 52 <= i < 80 ==> w[i] == pad[i - 52]
        }),
{
    let w = a + b + c + d + e + f + g + h + pad;
    assert(w.subrange(0, 8) =~= a);
    assert(w.subrange(8, 16) =~= b);
    assert(w.subrange(16, 24) =~= c);
    assert(w.subrange(24, 32) =~= d);
    assert(w.subrange(32, 40) =~= e);
    assert(w.subrange(40, 44) =~= f);
    assert(w.subrange(44, 48) =~= g);
    assert(w.subrange(48, 52) =~= h);
}

/// The answer to an `INIT` request: version 7.31, the readahead that was asked for,
/// the writeback cache (bit 16), no limit of our own on background requests, writes
/// of 128 KiB at most, timestamps to the nanosecond, and zeroes up to 64 bytes.
#[verifier::spinoff_prover]
pub proof fn law_init_answer_reads_back(max_readahead: u32)
    ensures
        ({
            let w = init_out_bytes(max_readahead);
            &&& w.len() == 64
            &&& le::le32_at(w, 0) == 7
            &&& le::le32_at(w, 4) == 31
            &&& le::le32_at(w, 8) == max_readahead
            &&& le::le32_at(w, 12) == 0x1_0000
            &&& le::le16_at(w, 16) == 0
            &&& le::le16_at(w, 18) == 0
            &&& le::le32_at(w, 20) == 131072
            &&& le::le32_at(w, 24) == 1
            &&& forall|i: int| 28 <= i < 64 ==> w[i] == 0
        }),
{
    let w = init_out_bytes(max_readahead);
    assert(w.len() == 64);
    assert(w.subrange(0, 4) =~= le::u32_bytes(7));
    assert(w.subrange(4, 8) =~= le::u32_bytes(31));
    assert(w.subrange(8, 12) =~= le::u32_bytes(max_readahead));
    assert(w.subrange(12, 16) =~= le::u32_bytes(0x1_0000));
    assert(w.subrange(16, 18) =~= le::u16_bytes(0));
    assert(w.subrange(18, 20) =~= le::u16_bytes(0));
    assert(w.subrange(20, 24) =~= le::u32_bytes(131072));
    assert(w.subrange(24, 28) =~= le::u32_bytes(1));
    le::lemma_at(w, 0, 0, 7, 0);
    le::lemma_at(w, 4, 0, 31, 0);
    le::lemma_at(w, 8, 0, max_readahead, 0);
    le::lemma_at(w, 12, 0, 0x1_0000, 0);
    le::lemma_at(w, 16, 0, 0, 0);
    le::lemma_at(w, 18, 0, 0, 0);
    le::lemma_at(w, 20, 0, 131072, 0);
    le::lemma_at(w, 24, 0, 1, 0);
}

/// Where the fields of a request's header stand, and those of the bodies that are read.
pub proof fn law_request_layout(b: Seq<u8>)
    ensures
        ({
            let h = in_header(b);
            &&& h.len == le::le32_at(b, 0)
            &&& h.opcode == le::le32_at(b, 4)
            &&& h.unique == le::le64_at(b, 8)
            &&& h.nodeid == le::le64_at(b, 16)
            &&& h.uid == le::le32_at(b, 24)
            &&& h.gid == le::le32_at(b, 28)
            &&& h.pid == le::le32_at(b, 32)
        }),
        b.len() >= 40 ==> request_body(b) == b.skip(40),
        b.len() < 40 ==> request_body(b).len() == 0,
        init_in(b).major == le::le32_at(b, 0),
        init_in(b).minor == le::le32_at(b, 4),
        init_in(b).max_readahead == le::le32_at(b, 8),
        b.len() >= 16 ==> init_in(b).flags == le::le32_at(b, 12),
        b.len() < 16 ==> init_in(b).flags == 0,
        getattr_in(b).flags == le::le32_at(b, 0),
        getattr_in(b).fh == le::le64_at(b, 8),
        open_in(b).flags == le::le32_at(b, 0),
        release_in(b).fh == le::le64_at(b, 0),
        flush_in(b).fh == le::le64_at(b, 0),
        access_in(b).mask == le::le32_at(b, 0),
        forget_in(b).nlookup == le::le64_at(b, 0),
        mkdir_in(b).mode == le::le32_at(b, 0),
        link_in(b).oldnodeid == le::le64_at(b, 0),
        create_in(b).flags == le::le32_at(b, 0),
        create_in(b).mode == le::le32_at(b, 4),
        rename_in(b).newdir == le::le64_at(b, 0),
        read_in(b).fh == le::le64_at(b, 0),
        read_in(b).offset == le::le64_at(b, 8),
        read_in(b).size == le::le32_at(b, 16),
        write_in(b).fh == le::le64_at(b, 0),
        write_in(b).offset == le::le64_at(b, 8),
        write_in(b).size == le::le32_at(b, 16),
{
}

/// The requests have the numbers of the FUSE protocol.
pub proof fn law_opcodes(v: u32)
    ensures
        opcode_of(1) == Opcode::Lookup,
        opcode_of(2) == Opcode::Forget,
        opcode_of(3) == Opcode::Getattr,
        opcode_of(4) == Opcode::Setattr,
        opcode_of(5) == Opcode::Readlink,
        opcode_of(6) == Opcode::Symlink,
        opcode_of(9) == Opcode::Mkdir,
        opcode_of(10) == Opcode::Unlink,
        opcode_of(11) == Opcode::Rmdir,
        opcode_of(12) == Opcode::Rename,
        opcode_of(13) == Opcode::Link,
        opcode_of(14) == Opcode::Open,
        opcode_of(15) == Opcode::Read,
        opcode_of(16) == Opcode::Write,
        opcode_of(17) == Opcode::Statfs,
        opcode_of(18) == Opcode::Release,
        opcode_of(20) == Opcode::Fsync,
        opcode_of(21) == Opcode::Setxattr,
        opcode_of(22) == Opcode::Getxattr,
        opcode_of(23) == Opcode::Listxattr,
        opcode_of(24) == Opcode::Removexattr,
        opcode_of(25) == Opcode::Flush,
        opcode_of(26) == Opcode::Init,
        opcode_of(27) == Opcode::Opendir,
        opcode_of(28) == Opcode::Readdir,
        opcode_of(29) == Opcode::Releasedir,
        opcode_of(30) == Opcode::Fsyncdir,
        opcode_of(34) == Opcode::Access,
        opcode_of(35) == Opcode::Create,
        opcode_of(38) == Opcode::Destroy,
        opcode_of(42) == Opcode::BatchForget,
        opcode_of(45) == Opcode::Rename2,
        opcode_of(v) matches Opcode::Unknown(w) ==> w == v,
{
}

/// Zeroes are zero, and padding adds as many of them as are missing, and changes nothing
/// else.
pub proof fn law_padding_is_zero(s: Seq<u8>, len: nat)
    ensures
        zeroes(len).len() == len,
        forall|i: int| 0 <= i < len ==> zeroes(len)[i] == 0,
        s.len() >= len ==> padded(s, len) == s,
        s.len() < len ==> {
            let p = padded(s, len);
            &&& p.len() == len
            &&& p.take(s.len() as int) == s
            &&& forall|i: int| s.len() <= i < len ==> p[i] == 0
        },
{
    if s.len() < len {
        assert(padded(s, len).take(s.len() as int) =~= s);
    }
}

} // verus!
