//! vhost-user headers, payloads and framing.
use riftlessfs::messages::FrontEndRequest;
use riftlessfs::vhost_user::connection::{
    encode_message, MessageReader, MessageWriter, MAX_PAYLOAD,
};
use riftlessfs::vhost_user::header::{
    MsgHeader, Request, FLAG_NEED_REPLY, FLAG_VERSION_1, HEADER_LEN,
};
use riftlessfs::vhost_user::payload::{
    MemoryRegion, MemoryRegions, U64Payload, VringAddr, VringFdPayload, VringState,
    VRING_NOFD_MASK,
};
use riftlessfs::ProtoError;

#[test]
fn header_roundtrip() {
    let h = MsgHeader::new(Request::GetFeatures, 0, 8);
    let bytes = h.to_bytes();
    let h2 = MsgHeader::from_bytes(&bytes);
    assert_eq!(h, h2);
    assert_eq!(h2.request().unwrap(), Request::GetFeatures);
    assert!(!h2.is_reply());
}

#[test]
fn reply_sets_flag() {
    let h = MsgHeader::reply(Request::GetFeatures, 8);
    assert!(h.is_reply());
    assert_eq!(h.flags & FLAG_VERSION_1, FLAG_VERSION_1);
}

#[test]
fn unknown_request_is_an_error_not_a_panic() {
    let h = MsgHeader::from_bytes(&MsgHeader::new(Request::GetFeatures, 0, 0).to_bytes());
    let mut raw = h;
    raw.request = 9999;
    assert!(matches!(
        raw.request(),
        Err(ProtoError::UnknownRequest(9999))
    ));
}

#[test]
fn header_bytes_are_little_endian() {
    let h = MsgHeader::new(Request::SetVringEnable, FLAG_NEED_REPLY, 0x0102_0304);
    assert!(h.needs_reply());
    assert!(!h.is_reply());
    assert_eq!(h.to_bytes(), [18, 0, 0, 0, 9, 0, 0, 0, 4, 3, 2, 1]);
    assert!(!MsgHeader::reply(Request::GetQueueNum, 0).needs_reply());
}

#[test]
fn request_codes_run_from_1_to_18() {
    for code in 1..=18u32 {
        assert_eq!(Request::try_from(code).unwrap().code(), code);
    }
    assert!(matches!(
        Request::try_from(0),
        Err(ProtoError::UnknownRequest(0))
    ));
    assert!(matches!(
        Request::try_from(19),
        Err(ProtoError::UnknownRequest(19))
    ));
    assert_eq!(FrontEndRequest::GetFeatures.code(), 1);
    assert_eq!(FrontEndRequest::SetVringKick.code(), 12);
    assert_eq!(FrontEndRequest::SetVringEnable.code(), 18);
}

#[test]
fn u64_payload_roundtrip() {
    let p = U64Payload(0xdead_beef_0000_1234);
    assert_eq!(U64Payload::from_bytes(&p.to_bytes()).unwrap(), p);
}

#[test]
fn vring_state_roundtrip() {
    let s = VringState { index: 3, num: 256 };
    assert_eq!(VringState::from_bytes(&s.to_bytes()).unwrap(), s);
}

#[test]
fn vring_addr_roundtrip() {
    let a = VringAddr {
        index: 1,
        flags: 0,
        descriptor: 0x1000,
        used: 0x2000,
        avail: 0x3000,
        log: 0,
    };
    assert_eq!(VringAddr::from_bytes(&a.to_bytes()).unwrap(), a);
}

#[test]
fn vring_fd_payload_mask() {
    let p = VringFdPayload {
        index: 2,
        no_fd: true,
    };
    let bytes = p.to_bytes();
    assert_eq!(VringFdPayload::from_bytes(&bytes).unwrap(), p);

    let p2 = VringFdPayload {
        index: 5,
        no_fd: false,
    };
    assert_eq!(VringFdPayload::from_bytes(&p2.to_bytes()).unwrap(), p2);
}

#[test]
fn memory_regions_roundtrip() {
    let regions = MemoryRegions {
        regions: vec![
            MemoryRegion {
                guest_phys_addr: 0,
                memory_size: 0x1_0000_0000,
                userspace_addr: 0x7f00_0000_0000,
                mmap_offset: 0,
            },
            MemoryRegion {
                guest_phys_addr: 0x1_0000_0000,
                memory_size: 0x2000,
                userspace_addr: 0x7f00_0001_0000,
                mmap_offset: 0x1000,
            },
        ],
    };
    let bytes = regions.to_bytes();
    assert_eq!(MemoryRegions::from_bytes(&bytes).unwrap(), regions);
}

#[test]
fn truncated_payload_is_an_error() {
    assert!(matches!(
        U64Payload::from_bytes(&[1, 2, 3]),
        Err(ProtoError::Truncated)
    ));
    assert!(matches!(
        VringState::from_bytes(&[1, 2, 3]),
        Err(ProtoError::Truncated)
    ));
    assert!(matches!(
        MemoryRegions::from_bytes(&[1, 0, 0, 0, 0, 0, 0, 0]),
        Err(ProtoError::Truncated)
    ));
}

#[test]
fn payload_layouts() {
    assert_eq!(U64Payload(0x0102).to_bytes(), [2, 1, 0, 0, 0, 0, 0, 0]);
    assert_eq!(
        VringState { index: 1, num: 2 }.to_bytes(),
        [1, 0, 0, 0, 2, 0, 0, 0]
    );
    let a = VringAddr {
        index: 1,
        flags: 2,
        descriptor: 3,
        used: 4,
        avail: 5,
        log: 6,
    };
    let mut expected = vec![0u8; 40];
    expected[0] = 1;
    expected[4] = 2;
    expected[8] = 3;
    expected[16] = 4;
    expected[24] = 5;
    expected[32] = 6;
    assert_eq!(a.to_bytes().to_vec(), expected);
    assert!(matches!(
        VringAddr::from_bytes(&expected[..39]),
        Err(ProtoError::Truncated)
    ));
    assert_eq!(VRING_NOFD_MASK, 0x100);
    assert_eq!(
        VringFdPayload {
            index: 7,
            no_fd: true
        }
        .to_bytes(),
        [7, 1, 0, 0, 0, 0, 0, 0]
    );
    let table = MemoryRegions {
        regions: vec![MemoryRegion {
            guest_phys_addr: 1,
            memory_size: 2,
            userspace_addr: 3,
            mmap_offset: 4,
        }],
    };
    let mut expected = vec![0u8; 40];
    expected[0] = 1;
    expected[8] = 1;
    expected[16] = 2;
    expected[24] = 3;
    expected[32] = 4;
    assert_eq!(table.to_bytes(), expected);
}

/// A pipe between two ends, in memory: pieces of bytes, each with the
/// descriptors that were attached to it.
struct Wire {
    pieces: Vec<(Vec<u8>, Vec<i32>)>,
}

/// Sends a message, at most `chunk` bytes at a time.
fn send(wire: &mut Wire, header: MsgHeader, payload: &[u8], fds: &[i32], chunk: usize) {
    let mut w = MessageWriter::new(header, payload);
    loop {
        let n = w.remaining().len().min(chunk);
        let attached = if w.attach_fds() { fds.to_vec() } else { vec![] };
        wire.pieces.push((w.remaining()[..n].to_vec(), attached));
        if w.advance(n).unwrap() {
            return;
        }
    }
}

/// Receives a message, at most `chunk` bytes at a time.
fn recv(wire: &mut Wire, chunk: usize) -> Result<(MsgHeader, Vec<u8>, Vec<i32>), ProtoError> {
    let mut r: MessageReader<i32> = MessageReader::new();
    loop {
        let want = r.wanted().min(chunk);
        let (bytes, fds) = match wire.pieces.first_mut() {
            None => (vec![], vec![]),
            Some((bytes, fds)) => {
                let n = want.min(bytes.len());
                let head: Vec<u8> = bytes.drain(..n).collect();
                let got: Vec<i32> = fds.drain(..).collect();
                if bytes.is_empty() {
                    wire.pieces.remove(0);
                }
                (head, got)
            }
        };
        if r.feed(&bytes, fds)? {
            let m = r.finish();
            return Ok((m.header, m.payload, m.fds));
        }
    }
}

#[test]
fn send_recv_roundtrip_no_fds() {
    let mut wire = Wire { pieces: vec![] };
    let payload = U64Payload(0x1234).to_bytes();
    send(
        &mut wire,
        MsgHeader::new(Request::SetFeatures, 0, payload.len() as u32),
        &payload,
        &[],
        usize::MAX,
    );

    let (header, recv_payload, fds) = recv(&mut wire, usize::MAX).unwrap();
    assert_eq!(header.request().unwrap(), Request::SetFeatures);
    assert_eq!(recv_payload, payload);
    assert!(fds.is_empty());
}

#[test]
fn send_recv_roundtrip_with_fd() {
    let mut wire = Wire { pieces: vec![] };
    let payload = U64Payload(0).to_bytes();
    send(
        &mut wire,
        MsgHeader::new(Request::SetVringKick, 0, payload.len() as u32),
        &payload,
        &[17],
        usize::MAX,
    );

    let (header, _payload, fds) = recv(&mut wire, usize::MAX).unwrap();
    assert_eq!(header.request().unwrap(), Request::SetVringKick);
    assert_eq!(fds.len(), 1);
    assert_eq!(fds[0], 17);
}

#[test]
fn disconnect_is_reported_not_a_zero_length_message() {
    let mut wire = Wire { pieces: vec![] };
    assert!(matches!(
        recv(&mut wire, usize::MAX),
        Err(ProtoError::Disconnected)
    ));
}

#[test]
fn messages_survive_any_cutting() {
    for out in 1..12 {
        for inn in 1..12 {
            let mut wire = Wire { pieces: vec![] };
            let payload: Vec<u8> = (0..23).collect();
            let header = MsgHeader::new(Request::SetMemTable, 0, 23);
            send(&mut wire, header, &payload, &[3, 4], out);
            send(&mut wire, MsgHeader::new(Request::SetOwner, 0, 0), &[], &[], out);
            let (h, p, fds) = recv(&mut wire, inn).unwrap();
            assert_eq!((h, p, fds), (header, payload, vec![3, 4]));
            let (h, p, fds) = recv(&mut wire, inn).unwrap();
            assert_eq!(h.request().unwrap(), Request::SetOwner);
            assert!(p.is_empty() && fds.is_empty());
        }
    }
}

#[test]
fn fds_are_taken_from_whichever_piece_they_come_with() {
    let bytes = encode_message(MsgHeader::new(Request::SetVringCall, 0, 8), &[9; 8]);
    assert_eq!(bytes.len(), HEADER_LEN + 8);
    let mut r: MessageReader<i32> = MessageReader::new();
    assert_eq!(r.wanted(), 12);
    assert!(!r.feed(&bytes[..12], vec![1]).unwrap());
    assert_eq!(r.wanted(), 8);
    assert!(!r.feed(&bytes[12..13], vec![]).unwrap());
    assert!(r.feed(&bytes[13..], vec![2, 3]).unwrap());
    let m = r.finish();
    assert_eq!(m.payload, vec![9; 8]);
    assert_eq!(m.fds, vec![1, 2, 3]);
}

#[test]
fn an_oversized_payload_is_refused_at_the_header() {
    let size = MAX_PAYLOAD as u32 + 1;
    let bytes = MsgHeader::new(Request::SetMemTable, 0, size).to_bytes();
    let mut r: MessageReader<i32> = MessageReader::new();
    assert_eq!(
        r.feed(&bytes, vec![]),
        Err(ProtoError::PayloadTooLarge(1048577))
    );
    let bytes = MsgHeader::new(Request::SetMemTable, 0, MAX_PAYLOAD as u32).to_bytes();
    let mut r: MessageReader<i32> = MessageReader::new();
    assert_eq!(r.feed(&bytes, vec![]), Ok(false));
    assert_eq!(r.wanted(), MAX_PAYLOAD);
}

#[test]
fn a_peer_that_takes_nothing_is_gone() {
    let mut w = MessageWriter::new(MsgHeader::new(Request::SetOwner, 0, 0), &[]);
    assert!(w.attach_fds());
    assert_eq!(w.advance(5), Ok(false));
    assert!(!w.attach_fds());
    assert_eq!(w.advance(0), Err(ProtoError::Disconnected));
    assert_eq!(w.remaining().len(), 7);
    assert_eq!(w.advance(7), Ok(true));
}
