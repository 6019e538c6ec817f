//! The byte cursor and builder.
use riftlessfs::fuse::bytes::{Reader, Writer};
use riftlessfs::ProtoError;

#[test]
fn reader_writer_roundtrip() {
    let mut w = Writer::new();
    w.u32(1).u64(2).u16(3).cstr(b"hi");
    let bytes = w.into_vec();

    let mut r = Reader::new(&bytes);
    assert_eq!(r.u32().unwrap(), 1);
    assert_eq!(r.u64().unwrap(), 2);
    assert_eq!(r.u16().unwrap(), 3);
    assert_eq!(r.cstr().unwrap(), b"hi");
}

#[test]
fn reader_reports_truncation_instead_of_panicking() {
    let bytes = [1u8, 2, 3];
    let mut r = Reader::new(&bytes);
    assert!(matches!(r.u32(), Err(ProtoError::Truncated)));
}

#[test]
fn pad_to_is_a_noop_if_already_long_enough() {
    let mut w = Writer::new();
    w.bytes(&[1, 2, 3, 4]);
    w.pad_to(2);
    assert_eq!(w.into_vec(), vec![1, 2, 3, 4]);
}

#[test]
fn writer_is_little_endian() {
    let mut w = Writer::new();
    assert!(w.is_empty());
    w.u16(0x0102).u32(0x0304_0506).i32(-2).u64(0x0708_090a_0b0c_0d0e);
    assert_eq!(w.len(), 18);
    assert_eq!(
        w.into_vec(),
        vec![
            0x02, 0x01, 0x06, 0x05, 0x04, 0x03, 0xfe, 0xff, 0xff, 0xff, 0x0e, 0x0d, 0x0c, 0x0b,
            0x0a, 0x09, 0x08, 0x07
        ]
    );
}

#[test]
fn reader_reads_signed_and_skips() {
    let bytes = [9u8, 9, 0xfe, 0xff, 0xff, 0xff, 7];
    let mut r = Reader::new(&bytes);
    r.skip(2).unwrap();
    assert_eq!(r.i32().unwrap(), -2);
    assert_eq!(r.remaining(), &[7]);
    assert!(matches!(r.skip(2), Err(ProtoError::Truncated)));
    assert!(matches!(r.cstr(), Err(ProtoError::Truncated)));
}

#[test]
fn pad_to_fills_with_zeroes() {
    let mut w = Writer::new();
    w.bytes(&[1, 2]);
    w.pad_to(4);
    assert_eq!(w.into_vec(), vec![1, 2, 0, 0]);
}
