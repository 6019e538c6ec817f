//! Little-endian integers: how they lie in a byte sequence, and the casts
//! between integer types that keep the bits.
use vstd::prelude::*;

verus! {

/// The 16-bit integer at `s[i..i + 2]`.
pub open spec fn le16_at(s: Seq<u8>, i: int) -> u16 {
    (s[i] + 0x100 * s[i + 1]) as u16
}

/// The 32-bit integer at `s[i..i + 4]`.
pub open spec fn le32_at(s: Seq<u8>, i: int) -> u32 {
    (s[i] + 0x100 * s[i + 1] + 0x1_0000 * s[i + 2] + 0x100_0000 * s[i + 3]) as u32
}

/// The 64-bit integer at `s[i..i + 8]`.
pub open spec fn le64_at(s: Seq<u8>, i: int) -> u64 {
    (le32_at(s, i) + 0x1_0000_0000 * le32_at(s, i + 4)) as u64
}

/// The signed 32-bit integer at `s[i..i + 4]`.
pub open spec fn le_i32_at(s: Seq<u8>, i: int) -> i32 {
    signed32(le32_at(s, i))
}

/// The two bytes of `v`, least significant first.
pub open spec fn u16_bytes(v: u16) -> Seq<u8> {
    seq![(v % 0x100) as u8, (v / 0x100) as u8]
}

/// The four bytes of `v`, least significant first.
pub open spec fn u32_bytes(v: u32) -> Seq<u8> {
    seq![
        (v % 0x100) as u8,
        (v / 0x100 % 0x100) as u8,
        (v / 0x1_0000 % 0x100) as u8,
        (v / 0x100_0000) as u8,
    ]
}

/// The eight bytes of `v`, least significant first.
pub open spec fn u64_bytes(v: u64) -> Seq<u8> {
    u32_bytes(low32(v)) + u32_bytes(high32(v))
}

/// The four bytes of the two's complement form of `v`.
pub open spec fn i32_bytes(v: i32) -> Seq<u8> {
    u32_bytes(unsigned32(v))
}

/// The value modulo 2^32.
pub open spec fn low32(v: u64) -> u32 {
    (v % 0x1_0000_0000) as u32
}

/// The upper half.
pub open spec fn high32(v: u64) -> u32 {
    (v / 0x1_0000_0000) as u32
}

/// The value modulo 2^16.
pub open spec fn low16(v: u32) -> u16 {
    (v % 0x1_0000) as u16
}

/// The `i32` with the same bits.
pub open spec fn signed32(v: u32) -> i32 {
    if v < 0x8000_0000 {
        v as i32
    } else {
        (v - 0x1_0000_0000) as i32
    }
}

/// The `u32` with the same bits.
pub open spec fn unsigned32(v: i32) -> u32 {
    if v >= 0 {
        v as u32
    } else {
        (v + 0x1_0000_0000) as u32
    }
}

/// The `i64` with the same bits.
pub open spec fn signed64(v: u64) -> i64 {
    if v < 0x8000_0000_0000_0000 {
        v as i64
    } else {
        (v - 0x1_0000_0000_0000_0000) as i64
    }
}

/// The `u64` with the same bits.
pub open spec fn unsigned64(v: i64) -> u64 {
    if v >= 0 {
        v as u64
    } else {
        (v + 0x1_0000_0000_0000_0000) as u64
    }
}

pub(crate) fn to_low32(v: u64) -> (r: u32)
    ensures
        r == low32(v),
{
    (v % 0x1_0000_0000) as u32
}

pub(crate) fn to_low16(v: u32) -> (r: u16)
    ensures
        r == low16(v),
{
    (v % 0x1_0000) as u16
}

pub(crate) fn to_signed32(v: u32) -> (r: i32)
    ensures
        r == signed32(v),
{
    if v < 0x8000_0000 {
        v as i32
    } else {
        (v as i64 - 0x1_0000_0000) as i32
    }
}

pub(crate) fn to_unsigned32(v: i32) -> (r: u32)
    ensures
        r == unsigned32(v),
{
    if v >= 0 {
        v as u32
    } else {
        (v as i64 + 0x1_0000_0000) as u32
    }
}

pub(crate) fn to_signed64(v: u64) -> (r: i64)
    ensures
        r == signed64(v),
{
    if v < 0x8000_0000_0000_0000 {
        v as i64
    } else {
        (v as i128 - 0x1_0000_0000_0000_0000) as i64
    }
}

pub(crate) fn to_unsigned64(v: i64) -> (r: u64)
    ensures
        r == unsigned64(v),
{
    if v >= 0 {
        v as u64
    } else {
        (v as i128 + 0x1_0000_0000_0000_0000) as u64
    }
}

/// Reads the 16-bit integer at `buf[at..at + 2]`.
pub(crate) fn read_u16_at(buf: &[u8], at: usize) -> (r: u16)
    requires
        at + 2 <= buf@.len(),
    ensures
        r == le16_at(buf@, at as int),
{
    buf[at] as u16 + 0x100 * buf[at + 1] as u16
}

/// Reads the 32-bit integer at `buf[at..at + 4]`.
pub(crate) fn read_u32_at(buf: &[u8], at: usize) -> (r: u32)
    requires
        at + 4 <= buf@.len(),
    ensures
        r == le32_at(buf@, at as int),
{
    buf[at] as u32 + 0x100 * buf[at + 1] as u32 + 0x1_0000 * buf[at + 2] as u32 + 0x100_0000
        * buf[at + 3] as u32
}

/// Reads the 64-bit integer at `buf[at..at + 8]`.
pub(crate) fn read_u64_at(buf: &[u8], at: usize) -> (r: u64)
    requires
        at + 8 <= buf@.len(),
    ensures
        r == le64_at(buf@, at as int),
{
    assert(at + 8 <= buf.len());
    read_u32_at(buf, at) as u64 + 0x1_0000_0000 * read_u32_at(buf, at + 4) as u64
}

/// The bytes of a 16-bit integer.
pub(crate) fn u16_array(v: u16) -> (r: [u8; 2])
    ensures
        r@ == u16_bytes(v),
{
    [(v % 0x100) as u8, (v / 0x100) as u8]
}

/// The bytes of a 32-bit integer.
pub(crate) fn u32_array(v: u32) -> (r: [u8; 4])
    ensures
        r@ == u32_bytes(v),
{
    [
        (v % 0x100) as u8,
        (v / 0x100 % 0x100) as u8,
        (v / 0x1_0000 % 0x100) as u8,
        (v / 0x100_0000) as u8,
    ]
}

/// The bytes of a 64-bit integer.
pub(crate) fn u64_array(v: u64) -> (r: [u8; 8])
    ensures
        r@ == u64_bytes(v),
{
    let lo: [u8; 4] = u32_array((v % 0x1_0000_0000) as u32);
    let hi: [u8; 4] = u32_array((v / 0x1_0000_0000) as u32);
    let r: [u8; 8] = [lo[0], lo[1], lo[2], lo[3], hi[0], hi[1], hi[2], hi[3]];
    assert(r@ =~= u64_bytes(v));
    r
}

/// Reading back the bytes of a 16-bit integer gives that integer.
pub proof fn law_u16_roundtrip(v: u16)
    ensures
        le16_at(u16_bytes(v), 0) == v,
{
}

/// Reading back the bytes of a 32-bit integer gives that integer.
pub proof fn law_u32_roundtrip(v: u32)
    ensures
        le32_at(u32_bytes(v), 0) == v,
{
    let a: int = v as int / 0x100;
    let b: int = v as int / 0x1_0000;
    let c: int = v as int / 0x100_0000;
    assert(a / 0x100 == b);
    assert(b / 0x100 == c);
    assert(v == v % 0x100 + 0x100 * (a % 0x100) + 0x1_0000 * (b % 0x100) + 0x100_0000 * c);
    let s = u32_bytes(v);
    assert(s[0] == v % 0x100);
    assert(s[1] == a % 0x100);
    assert(s[2] == b % 0x100);
    assert(s[3] == c);
}

/// Reading back the bytes of a 64-bit integer gives that integer.
pub proof fn law_u64_roundtrip(v: u64)
    ensures
        le64_at(u64_bytes(v), 0) == v,
{
    let s = u64_bytes(v);
    law_u32_roundtrip(low32(v));
    law_u32_roundtrip(high32(v));
    assert(le32_at(s, 0) == le32_at(u32_bytes(low32(v)), 0));
    assert(le32_at(s, 4) == le32_at(u32_bytes(high32(v)), 0));
}

/// The bytes of the integer read at a position are the bytes at that position.
pub proof fn law_u32_bytes_of_read(s: Seq<u8>, i: int)
    requires
        0 <= i,
        i + 4 <= s.len(),
    ensures
        u32_bytes(le32_at(s, i)) == s.subrange(i, i + 4),
{
    let v = le32_at(s, i);
    assert(v / 0x100 == s[i + 1] + 0x100 * s[i + 2] + 0x1_0000 * s[i + 3]);
    assert(v / 0x1_0000 == s[i + 2] + 0x100 * s[i + 3]);
    assert(v / 0x100_0000 == s[i + 3]);
    assert(v % 0x100 == s[i]);
    assert(v / 0x100 % 0x100 == s[i + 1]);
    assert(v / 0x1_0000 % 0x100 == s[i + 2]);
    assert(u32_bytes(v) =~= s.subrange(i, i + 4));
}

/// The two casts between `i32` and `u32` undo each other.
pub proof fn law_i32_roundtrip(v: i32, u: u32)
    ensures
        signed32(unsigned32(v)) == v,
        unsigned32(signed32(u)) == u,
{
}

/// The two casts between `i64` and `u64` undo each other.
pub proof fn law_i64_roundtrip(v: i64, u: u64)
    ensures
        signed64(unsigned64(v)) == v,
        unsigned64(signed64(u)) == u,
{
}

/// Integers lie with the least significant byte first: each byte counts for 256
/// times as much as the one before it, in what is read and in what is written.
pub proof fn law_least_significant_byte_first(s: Seq<u8>, i: int, a: u16, b: u32, c: u64)
    ensures
        le16_at(s, i) as int == s[i] + 256 * s[i + 1],
        le32_at(s, i) as int == s[i] + 256 * (s[i + 1] + 256 * (s[i + 2] + 256 * s[i + 3])),
        le64_at(s, i) as int == s[i] + 256 * (s[i + 1] + 256 * (s[i + 2] + 256 * (s[i + 3] + 256 * (
        s[i + 4] + 256 * (s[i + 5] + 256 * (s[i + 6] + 256 * s[i + 7])))))),
        u16_bytes(a).len() == 2,
        u32_bytes(b).len() == 4,
        u64_bytes(c).len() == 8,
        ({
            let w = u16_bytes(a);
            a as int == w[0] + 256 * w[1]
        }),
        ({
            let w = u32_bytes(b);
            b as int == w[0] + 256 * (w[1] + 256 * (w[2] + 256 * w[3]))
        }),
        ({
            let w = u64_bytes(c);
            c as int == w[0] + 256 * (w[1] + 256 * (w[2] + 256 * (w[3] + 256 * (w[4] + 256 * (w[5]
                + 256 * (w[6] + 256 * w[7]))))))
        }),
{
    law_u16_roundtrip(a);
    law_u32_roundtrip(b);
    law_u64_roundtrip(c);
}

/// A cast keeps the value modulo the power of two that the narrower type has
/// room for, and so keeps every value that both types have.
pub proof fn law_casts_keep_the_bits(a: i32, b: u32, c: i64, d: u64)
    ensures
        unsigned32(a) as int == a as int % 0x1_0000_0000,
        (signed32(b) - b) % 0x1_0000_0000 == 0,
        unsigned64(c) as int == c as int % 0x1_0000_0000_0000_0000,
        (signed64(d) - d) % 0x1_0000_0000_0000_0000 == 0,
        low32(d) as int == d as int % 0x1_0000_0000,
        high32(d) as int == d as int / 0x1_0000_0000,
        low16(b) as int == b as int % 0x1_0000,
        le_i32_at(i32_bytes(a), 0) == a,
        i32_bytes(a) == u32_bytes(unsigned32(a)),
{
    law_u32_roundtrip(unsigned32(a));
}

/// An integer read out of a part of a sequence is the one at the shifted
/// position of the whole.
pub proof fn lemma_le_shift(s: Seq<u8>, from: int, to: int, i: int)
    requires
        0 <= from <= to <= s.len(),
        0 <= i,
    ensures
        i + 2 <= to - from ==> le16_at(s.subrange(from, to), i) == le16_at(s, from + i),
        i + 4 <= to - from ==> le32_at(s.subrange(from, to), i) == le32_at(s, from + i),
        i + 8 <= to - from ==> le64_at(s.subrange(from, to), i) == le64_at(s, from + i),
{
}

/// The integers whose bytes stand at a position are read there.
pub proof fn lemma_at(w: Seq<u8>, n: int, a: u16, b: u32, c: u64)
    requires
        0 <= n,
    ensures
        n + 2 <= w.len() && w.subrange(n, n + 2) == u16_bytes(a) ==> le16_at(w, n) == a,
        n + 4 <= w.len() && w.subrange(n, n + 4) == u32_bytes(b) ==> le32_at(w, n) == b,
        n + 8 <= w.len() && w.subrange(n, n + 8) == u64_bytes(c) ==> le64_at(w, n) == c,
{
    law_u16_roundtrip(a);
    law_u32_roundtrip(b);
    law_u64_roundtrip(c);
    if n + 2 <= w.len() {
        lemma_le_shift(w, n, n + 2, 0);
    }
    if n + 4 <= w.len() {
        lemma_le_shift(w, n, n + 4, 0);
    }
    if n + 8 <= w.len() {
        lemma_le_shift(w, n, n + 8, 0);
    }
}

} // verus!
