//! The fixed-layout payloads of the vhost-user requests, in little-endian form.
use crate::error::{ProtoError, ProtoResult};
use crate::le;
use crate::octets::append;
use vstd::prelude::*;
use vstd::slice::slice_subrange;

verus! {

/// A single number: features, protocol features, or the number of queues.
#[derive(Debug, Clone, Copy, PartialEq, Eq, Structural)]
pub struct U64Payload(pub u64);

impl U64Payload {
    pub const LEN: usize = 8;

    pub fn to_bytes(self) -> (r: [u8; 8])
        ensures
            r@ == le::u64_bytes(self.0),
    {
        le::u64_array(self.0)
    }

    pub fn from_bytes(buf: &[u8]) -> (r: ProtoResult<Self>)
        ensures
            buf@.len() >= 8 ==> r == Ok::<Self, ProtoError>(U64Payload(le::le64_at(buf@, 0))),
            buf@.len() < 8 ==> r == Err::<Self, _>(ProtoError::Truncated),
    {
        if buf.len() < 8 {
            return Err(ProtoError::Truncated);
        }
        Ok(U64Payload(le::read_u64_at(buf, 0)))
    }
}

/// The state of a vring: its index, and its size, its base, or whether it is
/// enabled.
#[derive(Debug, Clone, Copy, PartialEq, Eq, Structural)]
pub struct VringState {
    pub index: u32,
    pub num: u32,
}

/// The bytes of a `VringState`.
pub open spec fn vring_state_bytes(p: VringState) -> Seq<u8> {
    le::u32_bytes(p.index) + le::u32_bytes(p.num)
}

/// The `VringState` at position `at` of `b`.
pub open spec fn vring_state_at(b: Seq<u8>, at: int) -> VringState {
    VringState {
        index: le::le32_at(b, at),
        num: le::le32_at(b, at + 4),
    }
}

impl VringState {
    pub const LEN: usize = 8;

    pub fn from_bytes(buf: &[u8]) -> (r: ProtoResult<Self>)
        ensures
            buf@.len() >= 8 ==> r == Ok::<Self, ProtoError>(vring_state_at(buf@, 0)),
            buf@.len() < 8 ==> r == Err::<Self, _>(ProtoError::Truncated),
    {
        if buf.len() < 8 {
            return Err(ProtoError::Truncated);
        }
        Ok(
            VringState {
                index: le::read_u32_at(buf, 0),
                num: le::read_u32_at(buf, 4),
            },
        )
    }

    pub fn to_bytes(self) -> (r: [u8; 8])
        ensures
            r@ == vring_state_bytes(self),
    {
        let index: [u8; 4] = le::u32_array(self.index);
        let num: [u8; 4] = le::u32_array(self.num);
        let r: [u8; 8] = [
            index[0], index[1], index[2], index[3], num[0], num[1], num[2], num[3],
        ];
        assert(r@ =~= vring_state_bytes(self));
        r
    }
}

/// A `VringState` comes back from its bytes as it was.
#[verifier::spinoff_prover]
#[verifier::rlimit(50)]
pub proof fn law_vring_state_roundtrip(p: VringState)
    ensures
        vring_state_bytes(p).len() == 8,
        vring_state_at(vring_state_bytes(p), 0) == p,
{
    let w = vring_state_bytes(p);
    assert(w.subrange(0, 4) =~= le::u32_bytes(p.index));
    assert(w.subrange(4, 8) =~= le::u32_bytes(p.num));
    le::lemma_at(w, 0, 0, p.index, 0);
    le::lemma_at(w, 4, 0, p.num, 0);
}

/// Where a vring's descriptor table, used ring and available ring are, as
/// addresses within guest memory.
#[derive(Debug, Clone, Copy, PartialEq, Eq, Structural)]
pub struct VringAddr {
    pub index: u32,
    pub flags: u32,
    pub descriptor: u64,
    pub used: u64,
    pub avail: u64,
    pub log: u64,
}

/// The bytes of a `VringAddr`.
pub open spec fn vring_addr_bytes(p: VringAddr) -> Seq<u8> {
    le::u32_bytes(p.index) + le::u32_bytes(p.flags) + le::u64_bytes(p.descriptor) + le::u64_bytes(p.used) + le::u64_bytes(p.avail) + le::u64_bytes(p.log)
}

/// The `VringAddr` at position `at` of `b`.
pub open spec fn vring_addr_at(b: Seq<u8>, at: int) -> VringAddr {
    VringAddr {
        index: le::le32_at(b, at),
        flags: le::le32_at(b, at + 4),
        descriptor: le::le64_at(b, at + 8),
        used: le::le64_at(b, at + 16),
        avail: le::le64_at(b, at + 24),
        log: le::le64_at(b, at + 32),
    }
}

impl VringAddr {
    pub const LEN: usize = 40;

    pub fn from_bytes(buf: &[u8]) -> (r: ProtoResult<Self>)
        ensures
            buf@.len() >= 40 ==> r == Ok::<Self, ProtoError>(vring_addr_at(buf@, 0)),
            buf@.len() < 40 ==> r == Err::<Self, _>(ProtoError::Truncated),
    {
        if buf.len() < 40 {
            return Err(ProtoError::Truncated);
        }
        Ok(
            VringAddr {
                index: le::read_u32_at(buf, 0),
                flags: le::read_u32_at(buf, 4),
                descriptor: le::read_u64_at(buf, 8),
                used: le::read_u64_at(buf, 16),
                avail: le::read_u64_at(buf, 24),
                log: le::read_u64_at(buf, 32),
            },
        )
    }

    pub fn to_bytes(self) -> (r: [u8; 40])
        ensures
            r@ == vring_addr_bytes(self),
    {
        let index: [u8; 4] = le::u32_array(self.index);
        let flags: [u8; 4] = le::u32_array(self.flags);
        let descriptor: [u8; 8] = le::u64_array(self.descriptor);
        let used: [u8; 8] = le::u64_array(self.used);
        let avail: [u8; 8] = le::u64_array(self.avail);
        let log: [u8; 8] = le::u64_array(self.log);
        let r: [u8; 40] = [
            index[0], index[1], index[2], index[3], flags[0], flags[1], flags[2], flags[3],
            descriptor[0], descriptor[1], descriptor[2], descriptor[3], descriptor[4], descriptor[5], descriptor[6], descriptor[7],
            used[0], used[1], used[2], used[3], used[4], used[5], used[6], used[7],
            avail[0], avail[1], avail[2], avail[3], avail[4], avail[5], avail[6], avail[7],
            log[0], log[1], log[2], log[3], log[4], log[5], log[6], log[7],
        ];
        assert(r@ =~= vring_addr_bytes(self));
        r
    }
}

/// A `VringAddr` comes back from its bytes as it was.
#[verifier::spinoff_prover]
#[verifier::rlimit(50)]
pub proof fn law_vring_addr_roundtrip(p: VringAddr)
    ensures
        vring_addr_bytes(p).len() == 40,
        vring_addr_at(vring_addr_bytes(p), 0) == p,
{
    let w = vring_addr_bytes(p);
    assert(w.subrange(0, 4) =~= le::u32_bytes(p.index));
    assert(w.subrange(4, 8) =~= le::u32_bytes(p.flags));
    assert(w.subrange(8, 16) =~= le::u64_bytes(p.descriptor));
    assert(w.subrange(16, 24) =~= le::u64_bytes(p.used));
    assert(w.subrange(24, 32) =~= le::u64_bytes(p.avail));
    assert(w.subrange(32, 40) =~= le::u64_bytes(p.log));
    le::lemma_at(w, 0, 0, p.index, 0);
    le::lemma_at(w, 4, 0, p.flags, 0);
    le::lemma_at(w, 8, 0, 0, p.descriptor);
    le::lemma_at(w, 16, 0, 0, p.used);
    le::lemma_at(w, 24, 0, 0, p.avail);
    le::lemma_at(w, 32, 0, 0, p.log);
}

/// Set in the payload of a kick, call or error request that comes without a
/// descriptor: the vring is to be polled.
pub const VRING_NOFD_MASK: u64 = 0x100;

/// The payload of a kick, call or error request: a vring, and whether it comes
/// without a descriptor.
#[derive(Debug, Clone, Copy, PartialEq, Eq, Structural)]
pub struct VringFdPayload {
    pub index: u8,
    pub no_fd: bool,
}

/// The payload in the word `u`.
pub open spec fn vring_fd_of(u: u64) -> VringFdPayload {
    VringFdPayload { index: (u % 0x100) as u8, no_fd: u & VRING_NOFD_MASK != 0 }
}

/// The word that holds a payload.
pub open spec fn vring_fd_word(p: VringFdPayload) -> u64 {
    if p.no_fd {
        p.index as u64 | VRING_NOFD_MASK
    } else {
        p.index as u64
    }
}

impl VringFdPayload {
    pub const LEN: usize = 8;

    pub fn from_bytes(buf: &[u8]) -> (r: ProtoResult<Self>)
        ensures
            buf@.len() >= 8 ==> r == Ok::<Self, ProtoError>(vring_fd_of(le::le64_at(buf@, 0))),
            buf@.len() < 8 ==> r == Err::<Self, _>(ProtoError::Truncated),
    {
        let u: u64 = U64Payload::from_bytes(buf)?.0;
        Ok(VringFdPayload { index: (u % 0x100) as u8, no_fd: u & VRING_NOFD_MASK != 0 })
    }

    pub fn to_bytes(self) -> (r: [u8; 8])
        ensures
            r@ == le::u64_bytes(vring_fd_word(self)),
    {
        let mut v: u64 = self.index as u64;
        if self.no_fd {
            v = v | VRING_NOFD_MASK;
        }
        U64Payload(v).to_bytes()
    }
}

/// A payload comes back from its word, and from the word's bytes, as it was.
pub proof fn law_vring_fd_roundtrip(p: VringFdPayload)
    ensures
        vring_fd_of(vring_fd_word(p)) == p,
        vring_fd_of(le::le64_at(le::u64_bytes(vring_fd_word(p)), 0)) == p,
{
    let i = p.index as u64;
    assert(i < 0x100 ==> (i | 0x100u64) % 0x100 == i && (i | 0x100u64) & 0x100u64 != 0 && i & 0x100u64
        == 0) by (bit_vector);
    le::law_u64_roundtrip(vring_fd_word(p));
}

/// A region of guest memory. The descriptor that backs it comes beside the
/// message, in the order of the regions.
#[derive(Debug, Clone, Copy, PartialEq, Eq, Structural)]
pub struct MemoryRegion {
    pub guest_phys_addr: u64,
    pub memory_size: u64,
    pub userspace_addr: u64,
    pub mmap_offset: u64,
}

/// The bytes of a `MemoryRegion`.
pub open spec fn memory_region_bytes(p: MemoryRegion) -> Seq<u8> {
    le::u64_bytes(p.guest_phys_addr) + le::u64_bytes(p.memory_size) + le::u64_bytes(p.userspace_addr) + le::u64_bytes(p.mmap_offset)
}

/// The `MemoryRegion` at position `at` of `b`.
pub open spec fn memory_region_at(b: Seq<u8>, at: int) -> MemoryRegion {
    MemoryRegion {
        guest_phys_addr: le::le64_at(b, at),
        memory_size: le::le64_at(b, at + 8),
        userspace_addr: le::le64_at(b, at + 16),
        mmap_offset: le::le64_at(b, at + 24),
    }
}

impl MemoryRegion {
    pub const LEN: usize = 32;

    pub fn from_bytes(buf: &[u8]) -> (r: ProtoResult<Self>)
        ensures
            buf@.len() >= 32 ==> r == Ok::<Self, ProtoError>(memory_region_at(buf@, 0)),
            buf@.len() < 32 ==> r == Err::<Self, _>(ProtoError::Truncated),
    {
        if buf.len() < 32 {
            return Err(ProtoError::Truncated);
        }
        Ok(
            MemoryRegion {
                guest_phys_addr: le::read_u64_at(buf, 0),
                memory_size: le::read_u64_at(buf, 8),
                userspace_addr: le::read_u64_at(buf, 16),
                mmap_offset: le::read_u64_at(buf, 24),
            },
        )
    }

    pub fn to_bytes(self) -> (r: [u8; 32])
        ensures
            r@ == memory_region_bytes(self),
    {
        let guest_phys_addr: [u8; 8] = le::u64_array(self.guest_phys_addr);
        let memory_size: [u8; 8] = le::u64_array(self.memory_size);
        let userspace_addr: [u8; 8] = le::u64_array(self.userspace_addr);
        let mmap_offset: [u8; 8] = le::u64_array(self.mmap_offset);
        let r: [u8; 32] = [
            guest_phys_addr[0], guest_phys_addr[1], guest_phys_addr[2], guest_phys_addr[3], guest_phys_addr[4], guest_phys_addr[5], guest_phys_addr[6], guest_phys_addr[7],
            memory_size[0], memory_size[1], memory_size[2], memory_size[3], memory_size[4], memory_size[5], memory_size[6], memory_size[7],
            userspace_addr[0], userspace_addr[1], userspace_addr[2], userspace_addr[3], userspace_addr[4], userspace_addr[5], userspace_addr[6], userspace_addr[7],
            mmap_offset[0], mmap_offset[1], mmap_offset[2], mmap_offset[3], mmap_offset[4], mmap_offset[5], mmap_offset[6], mmap_offset[7],
        ];
        assert(r@ =~= memory_region_bytes(self));
        r
    }
}

/// A `MemoryRegion` comes back from its bytes as it was.
#[verifier::spinoff_prover]
#[verifier::rlimit(50)]
pub proof fn law_memory_region_roundtrip(p: MemoryRegion)
    ensures
        memory_region_bytes(p).len() == 32,
        memory_region_at(memory_region_bytes(p), 0) == p,
{
    let w = memory_region_bytes(p);
    assert(w.subrange(0, 8) =~= le::u64_bytes(p.guest_phys_addr));
    assert(w.subrange(8, 16) =~= le::u64_bytes(p.memory_size));
    assert(w.subrange(16, 24) =~= le::u64_bytes(p.userspace_addr));
    assert(w.subrange(24, 32) =~= le::u64_bytes(p.mmap_offset));
    le::lemma_at(w, 0, 0, 0, p.guest_phys_addr);
    le::lemma_at(w, 8, 0, 0, p.memory_size);
    le::lemma_at(w, 16, 0, 0, p.userspace_addr);
    le::lemma_at(w, 24, 0, 0, p.mmap_offset);
}

/// The memory table: a count, padding, and that many regions.
#[derive(Debug, Clone, PartialEq, Eq, Default)]
pub struct MemoryRegions {
    pub regions: Vec<MemoryRegion>,
}

/// Whether `b` holds a whole memory table.
pub open spec fn has_regions(b: Seq<u8>) -> bool {
    b.len() >= 8 && b.len() >= 8 + 32 * le::le32_at(b, 0)
}

/// The regions of the memory table in `b`.
pub open spec fn regions_of(b: Seq<u8>) -> Seq<MemoryRegion> {
    Seq::new(le::le32_at(b, 0) as nat, |i: int| memory_region_at(b, 8 + 32 * i))
}

/// The bytes of these regions, one after another.
pub open spec fn region_list_bytes(regions: Seq<MemoryRegion>) -> Seq<u8>
    decreases regions.len(),
{
    if regions.len() == 0 {
        Seq::empty()
    } else {
        region_list_bytes(regions.drop_last()) + memory_region_bytes(regions.last())
    }
}

/// The bytes of a memory table.
pub open spec fn regions_bytes(regions: Seq<MemoryRegion>) -> Seq<u8> {
    le::u32_bytes((regions.len() % 0x1_0000_0000) as u32) + le::u32_bytes(0) + region_list_bytes(
        regions,
    )
}

impl MemoryRegions {
    pub fn from_bytes(buf: &[u8]) -> (r: ProtoResult<Self>)
        ensures
            has_regions(buf@) ==> (r matches Ok(t) && t.regions@ == regions_of(buf@)),
            !has_regions(buf@) ==> (r matches Err(e) && e == ProtoError::Truncated),
    {
        if buf.len() < 8 {
            return Err(ProtoError::Truncated);
        }
        let count: u32 = le::read_u32_at(buf, 0);
        let mut regions: Vec<MemoryRegion> = Vec::new();
        let mut offset: usize = 8;
        let mut i: u32 = 0;
        while i < count
            invariant
                i <= count,
                count == le::le32_at(buf@, 0),
                offset == 8 + 32 * i,
                offset <= buf@.len(),
                regions@.len() == i,
                forall|j: int| 0 <= j < i ==> regions@[j] == memory_region_at(buf@, 8 + 32 * j),
            decreases count - i,
        {
            if buf.len() - offset < 32 {
                return Err(ProtoError::Truncated);
            }
            let part = slice_subrange(buf, offset, offset + 32);
            let region = MemoryRegion::from_bytes(part)?;
            proof {
                le::lemma_le_shift(buf@, offset as int, offset + 32, 0);
                le::lemma_le_shift(buf@, offset as int, offset + 32, 8);
                le::lemma_le_shift(buf@, offset as int, offset + 32, 16);
                le::lemma_le_shift(buf@, offset as int, offset + 32, 24);
            }
            regions.push(region);
            offset = offset + 32;
            i += 1;
        }
        assert(regions@ =~= regions_of(buf@));
        Ok(MemoryRegions { regions })
    }

    pub fn to_bytes(&self) -> (r: Vec<u8>)
        ensures
            r@ == regions_bytes(self.regions@),
    {
        let all = self.regions.as_slice();
        let mut buf: Vec<u8> = Vec::new();
        append(&mut buf, &le::u32_array((all.len() as u128 % 0x1_0000_0000) as u32));
        append(&mut buf, &le::u32_array(0));
        let ghost head = le::u32_bytes((all@.len() % 0x1_0000_0000) as u32) + le::u32_bytes(0);
        assert(buf@ =~= head);
        assert(all@.take(0) =~= Seq::empty());
        assert(buf@ =~= head + region_list_bytes(all@.take(0)));
        let mut i: usize = 0;
        while i < all.len()
            invariant
                i <= all.len(),
                buf@ == head + region_list_bytes(all@.take(i as int)),
            decreases all.len() - i,
        {
            append(&mut buf, &all[i].to_bytes());
            proof {
                let upto = all@.take(i as int + 1);
                assert(upto.drop_last() =~= all@.take(i as int));
                assert(upto.last() == all@[i as int]);
                assert(buf@ =~= head + region_list_bytes(upto));
            }
            i += 1;
        }
        assert(all@.take(i as int) =~= all@);
        buf
    }
}

/// How long the bytes of a list of regions are, and where each region is.
proof fn lemma_region_list(regions: Seq<MemoryRegion>, i: int)
    requires
        0 <= i < regions.len(),
    ensures
        region_list_bytes(regions).len() == 32 * regions.len(),
        region_list_bytes(regions).subrange(32 * i, 32 * i + 32) == memory_region_bytes(regions[i]),
    decreases regions.len(),
{
    let before = regions.drop_last();
    law_memory_region_roundtrip(regions.last());
    if before.len() > 0 {
        lemma_region_list(
            before,
            if i < before.len() {
                i
            } else {
                0
            },
        );
    }
    assert(region_list_bytes(before).len() == 32 * before.len());
    if i < before.len() {
        assert(before[i] == regions[i]);
        assert(region_list_bytes(regions).subrange(32 * i, 32 * i + 32) =~= region_list_bytes(
            before,
        ).subrange(32 * i, 32 * i + 32));
    } else {
        assert(region_list_bytes(regions).subrange(32 * i, 32 * i + 32) =~= memory_region_bytes(
            regions[i],
        ));
    }
}

/// A memory table comes back from its bytes as it was.
pub proof fn law_memory_regions_roundtrip(regions: Seq<MemoryRegion>)
    requires
        regions.len() < 0x1_0000_0000,
    ensures
        has_regions(regions_bytes(regions)),
        regions_of(regions_bytes(regions)) == regions,
{
    let w = regions_bytes(regions);
    let n = regions.len() as u32;
    let list = region_list_bytes(regions);
    if regions.len() > 0 {
        lemma_region_list(regions, 0);
    }
    assert(w.subrange(0, 4) =~= le::u32_bytes(n));
    le::lemma_at(w, 0, 0, n, 0);
    assert forall|i: int| 0 <= i < regions.len() implies memory_region_at(w, 8 + 32 * i)
        == regions[i] by {
        lemma_region_list(regions, i);
        let p = w.subrange(8 + 32 * i, 8 + 32 * i + 32);
        assert(p =~= list.subrange(32 * i, 32 * i + 32));
        law_memory_region_roundtrip(regions[i]);
        le::lemma_le_shift(w, 8 + 32 * i, 8 + 32 * i + 32, 0);
        le::lemma_le_shift(w, 8 + 32 * i, 8 + 32 * i + 32, 8);
        le::lemma_le_shift(w, 8 + 32 * i, 8 + 32 * i + 32, 16);
        le::lemma_le_shift(w, 8 + 32 * i, 8 + 32 * i + 32, 24);
    }
    assert(regions_of(w) =~= regions);
}

} // verus!
