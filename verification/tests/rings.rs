//! Guest memory and virtqueues.
use riftlessfs::vhost_user::memory::{mapping_of, AddrSpace, GuestMemory, Mapping};
use riftlessfs::vhost_user::payload::MemoryRegion;
use riftlessfs::vhost_user::virtqueue::{
    DescChain, Virtqueue, VirtqueueError, AVAIL_RING_OFFSET, DESC_LEN, MAX_CHAIN_LEN,
    USED_ELEM_LEN, USED_RING_OFFSET, VIRTQ_DESC_F_INDIRECT, VIRTQ_DESC_F_NEXT, VIRTQ_DESC_F_WRITE,
};

fn memory(gpa: u64, user_addr: u64, bytes: &mut [u8]) -> GuestMemory<'_> {
    let mut mem = GuestMemory::new();
    mem.add_region(gpa, user_addr, bytes);
    mem
}

#[test]
fn anonymous_region_roundtrip() {
    let mut bytes = vec![0u8; 4096];
    let mut mem = memory(0x1000, 0x1000, &mut bytes);
    mem.write_u32(AddrSpace::Gpa, 0x1000, 0xdead_beef).unwrap();
    assert_eq!(mem.read_u32(AddrSpace::Gpa, 0x1000), Some(0xdead_beef));

    mem.write_u16(AddrSpace::Gpa, 0x1ffe, 0x1234).unwrap();
    assert_eq!(mem.read_u16(AddrSpace::Gpa, 0x1ffe), Some(0x1234));
}

#[test]
fn out_of_range_returns_none() {
    let mut bytes = vec![0u8; 4096];
    let mem = memory(0x1000, 0x1000, &mut bytes);
    assert_eq!(mem.read_u32(AddrSpace::Gpa, 0x500), None); // before region
    assert_eq!(mem.read_u32(AddrSpace::Gpa, 0x2000), None); // after region
    assert_eq!(mem.read_u64(AddrSpace::Gpa, 0x1ffc), None); // straddles end
}

#[test]
fn slice_access() {
    let mut bytes = vec![0u8; 4096];
    let mut mem = memory(0x1000, 0x1000, &mut bytes);
    let data = b"hello, virtio";
    mem.get_slice_mut(AddrSpace::Gpa, 0x1000, data.len() as u64)
        .unwrap()
        .copy_from_slice(data);
    assert_eq!(
        mem.get_slice(AddrSpace::Gpa, 0x1000, data.len() as u64)
            .unwrap(),
        data
    );
}

#[test]
fn gpa_and_user_address_spaces_are_independent() {
    let mut bytes = vec![0u8; 4096];
    let mut mem = memory(0x4000_0000, 0x7f_0000_0000, &mut bytes);

    mem.write_u32(AddrSpace::Gpa, 0x4000_0000, 111).unwrap();
    assert_eq!(mem.read_u32(AddrSpace::Gpa, 0x4000_0000), Some(111));
    // The same byte, read back via the *other* space's coordinate,
    // should not resolve (wrong base address for that space).
    assert_eq!(mem.read_u32(AddrSpace::User, 0x4000_0000), None);

    mem.write_u32(AddrSpace::User, 0x7f_0000_0000, 222).unwrap();
    assert_eq!(mem.read_u32(AddrSpace::User, 0x7f_0000_0000), Some(222));
    assert_eq!(mem.read_u32(AddrSpace::Gpa, 0x7f_0000_0000), None);
    // Both spaces lead to the same bytes.
    assert_eq!(mem.read_u32(AddrSpace::Gpa, 0x4000_0000), Some(222));
}

#[test]
fn writes_leave_their_neighbours_alone() {
    let mut low = vec![1u8; 16];
    let mut high = vec![2u8; 16];
    let mut mem = GuestMemory::new();
    mem.add_region(0, 0x100, &mut low);
    mem.add_region(16, 0x200, &mut high);
    assert_eq!(mem.write_slice(AddrSpace::Gpa, 4, &[9, 9, 9]), Some(()));
    assert_eq!(
        mem.get_slice(AddrSpace::User, 0x102, 6).unwrap(),
        &[1, 1, 9, 9, 9, 1]
    );
    assert_eq!(mem.get_slice(AddrSpace::Gpa, 16, 16).unwrap(), &[2; 16]);
    // No region holds bytes of both.
    assert!(mem.get_slice(AddrSpace::Gpa, 12, 8).is_none());
    assert_eq!(mem.write_slice(AddrSpace::Gpa, 12, &[7; 8]), None);
    assert_eq!(mem.get_slice(AddrSpace::Gpa, 12, 4).unwrap(), &[1; 4]);
    // The very end of an address space does not wrap into a region.
    assert_eq!(mem.read_u16(AddrSpace::Gpa, u64::MAX), None);
}

#[test]
fn mappings_start_at_a_page() {
    let region = MemoryRegion {
        guest_phys_addr: 0,
        memory_size: 0x2000,
        userspace_addr: 0,
        mmap_offset: 0x3456,
    };
    assert_eq!(
        mapping_of(&region, 0x1000),
        Mapping {
            offset: 0x3000,
            len: 0x2456,
            skip: 0x456
        }
    );
    let aligned = MemoryRegion {
        mmap_offset: 0x4000,
        ..region
    };
    assert_eq!(
        mapping_of(&aligned, 0x1000),
        Mapping {
            offset: 0x4000,
            len: 0x2000,
            skip: 0
        }
    );
}

const GPA: u64 = 0x1_0000;

/// Where the parts of a test queue are: descriptor table, available ring, used
/// ring.
#[derive(Clone, Copy)]
struct Layout {
    desc: u64,
    avail: u64,
    used: u64,
}

fn layout(queue_size: u16) -> Layout {
    let desc = GPA;
    let avail = desc + queue_size as u64 * DESC_LEN;
    let used = avail + AVAIL_RING_OFFSET + queue_size as u64 * 2 + 2;
    Layout { desc, avail, used }
}

fn queue(queue_size: u16, l: Layout) -> Virtqueue {
    Virtqueue::new(queue_size, l.desc, l.avail, l.used)
}

fn write_desc(
    mem: &mut GuestMemory<'_>,
    l: Layout,
    idx: u16,
    addr: u64,
    len: u32,
    flags: u16,
    next: u16,
) {
    let off = l.desc + idx as u64 * DESC_LEN;
    mem.get_slice_mut(AddrSpace::User, off, DESC_LEN).unwrap()[0..8]
        .copy_from_slice(&addr.to_le_bytes());
    mem.write_u32(AddrSpace::User, off + 8, len).unwrap();
    mem.write_u16(AddrSpace::User, off + 12, flags).unwrap();
    mem.write_u16(AddrSpace::User, off + 14, next).unwrap();
}

fn publish_avail(mem: &mut GuestMemory<'_>, l: Layout, slot: u16, head: u16, new_idx: u16) {
    let ring_off = l.avail + AVAIL_RING_OFFSET + slot as u64 * 2;
    mem.write_u16(AddrSpace::User, ring_off, head).unwrap();
    mem.write_u16(AddrSpace::User, l.avail + 2, new_idx).unwrap();
}

#[test]
fn pop_avail_returns_none_when_empty() {
    let mut bytes = vec![0u8; 1 << 20];
    let mem = memory(GPA, GPA, &mut bytes);
    let mut vq = queue(8, layout(8));
    assert!(vq.pop_avail(&mem).unwrap().is_none());
}

#[test]
fn single_request_response_chain_roundtrip() {
    let mut bytes = vec![0u8; 1 << 20];
    let mut mem = memory(GPA, GPA, &mut bytes);
    let l = layout(8);
    let mut vq = queue(8, l);

    let req_addr = l.used + 4096;
    let resp_addr = req_addr + 256;

    write_desc(&mut mem, l, 0, req_addr, 5, VIRTQ_DESC_F_NEXT, 1);
    write_desc(&mut mem, l, 1, resp_addr, 64, VIRTQ_DESC_F_WRITE, 0);

    mem.get_slice_mut(AddrSpace::Gpa, req_addr, 5)
        .unwrap()
        .copy_from_slice(b"hello");
    publish_avail(&mut mem, l, 0, 0, 1);

    let head = vq
        .pop_avail(&mem)
        .unwrap()
        .expect("a chain should be available");
    assert_eq!(head, 0);
    assert!(
        vq.pop_avail(&mem).unwrap().is_none(),
        "shouldn't double-pop"
    );

    let chain = vq.read_chain(&mem, head).unwrap();
    assert_eq!(chain.readable, vec![(req_addr, 5)]);
    assert_eq!(chain.writable, vec![(resp_addr, 64)]);

    let request = vq.gather_readable(&mem, &chain).unwrap();
    assert_eq!(request, b"hello");

    let response = b"a fine response";
    let written = vq.scatter_writable(&mut mem, &chain, response).unwrap();
    assert_eq!(written, response.len() as u32);
    assert_eq!(
        mem.get_slice(AddrSpace::Gpa, resp_addr, response.len() as u64)
            .unwrap(),
        response
    );

    vq.push_used(&mut mem, head, written).unwrap();
    assert_eq!(mem.read_u16(AddrSpace::User, l.used + 2), Some(1));
}

#[test]
fn push_used_advances_index_and_records_head_and_len() {
    let mut bytes = vec![0u8; 1 << 20];
    let mut mem = memory(GPA, GPA, &mut bytes);
    let l = layout(4);
    let mut vq = queue(4, l);
    vq.push_used(&mut mem, 2, 42).unwrap();
    assert_eq!(mem.read_u16(AddrSpace::User, l.used + 2), Some(1));
    let elem_off = l.used + USED_RING_OFFSET;
    assert_eq!(mem.read_u32(AddrSpace::User, elem_off), Some(2));
    assert_eq!(mem.read_u32(AddrSpace::User, elem_off + 4), Some(42));

    vq.push_used(&mut mem, 3, 7).unwrap();
    assert_eq!(mem.read_u16(AddrSpace::User, l.used + 2), Some(2));
    let elem_off2 = l.used + USED_RING_OFFSET + USED_ELEM_LEN;
    assert_eq!(mem.read_u32(AddrSpace::User, elem_off2), Some(3));
    assert_eq!(mem.read_u32(AddrSpace::User, elem_off2 + 4), Some(7));
}

#[test]
fn multi_descriptor_readable_chain_is_gathered_in_order() {
    let mut bytes = vec![0u8; 1 << 20];
    let mut mem = memory(GPA, GPA, &mut bytes);
    let l = layout(8);
    let mut vq = queue(8, l);
    let a = l.used + 4096;
    let b = a + 64;
    let c = b + 64;

    write_desc(&mut mem, l, 0, a, 3, VIRTQ_DESC_F_NEXT, 1);
    write_desc(&mut mem, l, 1, b, 3, VIRTQ_DESC_F_NEXT, 2);
    write_desc(&mut mem, l, 2, c, 3, 0, 0);
    mem.get_slice_mut(AddrSpace::Gpa, a, 3)
        .unwrap()
        .copy_from_slice(b"foo");
    mem.get_slice_mut(AddrSpace::Gpa, b, 3)
        .unwrap()
        .copy_from_slice(b"bar");
    mem.get_slice_mut(AddrSpace::Gpa, c, 3)
        .unwrap()
        .copy_from_slice(b"baz");
    publish_avail(&mut mem, l, 0, 0, 1);

    let head = vq.pop_avail(&mem).unwrap().unwrap();
    let chain = vq.read_chain(&mem, head).unwrap();
    let gathered = vq.gather_readable(&mem, &chain).unwrap();
    assert_eq!(gathered, b"foobarbaz");
}

#[test]
fn indirect_descriptor_is_rejected() {
    let mut bytes = vec![0u8; 1 << 20];
    let mut mem = memory(GPA, GPA, &mut bytes);
    let l = layout(4);
    let mut vq = queue(4, l);
    write_desc(&mut mem, l, 0, 0x1234, 16, VIRTQ_DESC_F_INDIRECT, 0);
    publish_avail(&mut mem, l, 0, 0, 1);
    let head = vq.pop_avail(&mem).unwrap().unwrap();
    assert!(matches!(
        vq.read_chain(&mem, head),
        Err(VirtqueueError::IndirectUnsupported)
    ));
}

#[test]
fn chains_are_popped_in_order_around_the_ring() {
    let mut bytes = vec![0u8; 1 << 16];
    let mut mem = memory(GPA, GPA, &mut bytes);
    let l = layout(4);
    let mut vq = queue(4, l);
    vq.set_avail_base(65534);
    for (slot, head) in [(2, 30), (3, 31), (0, 32)] {
        mem.write_u16(AddrSpace::User, l.avail + 4 + 2 * slot, head)
            .unwrap();
    }
    mem.write_u16(AddrSpace::User, l.avail + 2, 1).unwrap();
    assert!(vq.has_pending(&mem));
    assert_eq!(vq.pop_avail(&mem), Ok(Some(30)));
    assert_eq!(vq.pop_avail(&mem), Ok(Some(31)));
    assert_eq!(vq.avail_base(), 0);
    assert_eq!(vq.pop_avail(&mem), Ok(Some(32)));
    assert_eq!(vq.pop_avail(&mem), Ok(None));
    assert!(!vq.has_pending(&mem));
    assert_eq!(vq.queue_size(), 4);
}

#[test]
fn an_endless_chain_is_given_up() {
    let mut bytes = vec![0u8; 1 << 16];
    let mut mem = memory(GPA, GPA, &mut bytes);
    let l = layout(4);
    let vq = queue(4, l);
    write_desc(&mut mem, l, 0, GPA, 1, VIRTQ_DESC_F_NEXT, 1);
    write_desc(&mut mem, l, 1, GPA, 1, VIRTQ_DESC_F_NEXT, 0);
    assert!(matches!(
        vq.read_chain(&mem, 0),
        Err(VirtqueueError::ChainTooLong)
    ));
    assert_eq!(MAX_CHAIN_LEN, 128);
}

#[test]
fn rings_and_buffers_outside_memory_are_out_of_bounds() {
    let mut bytes = vec![0u8; 256];
    let mut mem = memory(GPA, GPA, &mut bytes);
    let mut vq = Virtqueue::new(4, 0, 0, 0);
    assert_eq!(vq.pop_avail(&mem), Err(VirtqueueError::OutOfBounds));
    assert!(matches!(
        vq.read_chain(&mem, 0),
        Err(VirtqueueError::OutOfBounds)
    ));
    assert_eq!(
        vq.push_used(&mut mem, 0, 0),
        Err(VirtqueueError::OutOfBounds)
    );
    let chain = DescChain {
        head: 0,
        readable: vec![(GPA, 4), (GPA + 250, 8)],
        writable: vec![(GPA, 4), (GPA + 250, 8)],
    };
    assert!(matches!(
        vq.gather_readable(&mem, &chain),
        Err(VirtqueueError::OutOfBounds)
    ));
    assert_eq!(
        vq.scatter_writable(&mut mem, &chain, &[5; 12]),
        Err(VirtqueueError::OutOfBounds)
    );
    // The first buffer was filled before the second was found wanting.
    assert_eq!(mem.get_slice(AddrSpace::Gpa, GPA, 4).unwrap(), &[5; 4]);
}

#[test]
fn a_reply_fills_buffers_in_order_and_stops_when_they_are_full() {
    let mut bytes = vec![0u8; 64];
    let mut mem = memory(0, 0, &mut bytes);
    let vq = Virtqueue::new(4, 0, 0, 0);
    let chain = DescChain {
        head: 0,
        readable: vec![(32, 3), (8, 2)],
        writable: vec![(32, 3), (8, 2)],
    };
    assert_eq!(vq.scatter_writable(&mut mem, &chain, b"abcd"), Ok(4));
    assert_eq!(vq.gather_readable(&mem, &chain).unwrap(), b"abcd\0");
    assert_eq!(vq.scatter_writable(&mut mem, &chain, b"vwxyz"), Ok(5));
    assert_eq!(vq.gather_readable(&mem, &chain).unwrap(), b"vwxyz");
    assert_eq!(vq.scatter_writable(&mut mem, &chain, b"1234567"), Ok(5));
    assert_eq!(vq.gather_readable(&mem, &chain).unwrap(), b"12345");
    assert_eq!(vq.scatter_writable(&mut mem, &chain, b""), Ok(0));
}

#[test]
fn a_chain_may_have_as_many_descriptors_as_the_limit_and_no_more() {
    let mut bytes = vec![0u8; 1 << 16];
    let mut mem = memory(GPA, GPA, &mut bytes);
    let l = layout(256);
    let vq = queue(256, l);
    for i in 0..MAX_CHAIN_LEN as u16 {
        let flags = if i + 1 < MAX_CHAIN_LEN as u16 {
            VIRTQ_DESC_F_NEXT
        } else {
            0
        };
        write_desc(&mut mem, l, i, GPA + i as u64, 1, flags, i + 1);
    }
    assert_eq!(vq.read_chain(&mem, 0).unwrap().readable.len(), 128);

    write_desc(&mut mem, l, 127, GPA, 1, VIRTQ_DESC_F_NEXT, 128);
    write_desc(&mut mem, l, 128, GPA, 1, 0, 0);
    assert!(matches!(
        vq.read_chain(&mem, 0),
        Err(VirtqueueError::ChainTooLong)
    ));
    assert_eq!(vq.read_chain(&mem, 1).unwrap().readable.len(), 128);

    write_desc(&mut mem, l, 100, GPA, 1, VIRTQ_DESC_F_INDIRECT, 0);
    assert!(matches!(
        vq.read_chain(&mem, 0),
        Err(VirtqueueError::IndirectUnsupported)
    ));
}
