//! Split virtqueues: the descriptor table, the available ring and the used
//! ring, in guest memory.
//!
//! Indirect descriptors are not supported (the feature is not negotiated), and
//! a chain that has one is refused. Notifications are never suppressed.
//!
//! The rings themselves are found by user addresses, and the buffers that the
//! descriptors point to by guest-physical ones; see
//! [`crate::vhost_user::memory`]. Addresses are 64-bit and wrap around.
use crate::le;
use crate::octets::append;
use crate::vhost_user::memory::{
    apart, bytes_at, law_memory_frame, law_memory_read_back, lemma_region_from, mapped, offset_of,
    put, region_for, same_layout, stored, u16_at, u32_at, u64_at, AddrSpace, GuestMemory, MemView,
};
use vstd::prelude::*;
use vstd::slice::slice_subrange;

verus! {

pub const DESC_LEN: u64 = 16;

pub const AVAIL_RING_OFFSET: u64 = 4;

pub const USED_RING_OFFSET: u64 = 4;

pub const USED_ELEM_LEN: u64 = 8;

/// The chain goes on after this descriptor.
pub const VIRTQ_DESC_F_NEXT: u16 = 1;

/// The buffer is for us to write.
pub const VIRTQ_DESC_F_WRITE: u16 = 2;

/// The buffer is itself a table of descriptors.
pub const VIRTQ_DESC_F_INDIRECT: u16 = 4;

/// The longest chain that is followed; real requests have a handful of
/// descriptors.
pub const MAX_CHAIN_LEN: usize = 128;

/// Why a descriptor chain could not be processed.
#[derive(Debug, Clone, Copy, PartialEq, Eq, Structural)]
pub enum VirtqueueError {
    /// Part of a ring or buffer lies outside mapped guest memory.
    OutOfBounds,
    /// The chain did not end within the supported number of descriptors.
    ChainTooLong,
    /// The chain uses an indirect descriptor.
    IndirectUnsupported,
}

/// A chain that was taken off the available ring: the buffers that the guest
/// wrote a request into, and those that are for the reply, as addresses and
/// lengths.
#[derive(Debug, Clone, Default)]
pub struct DescChain {
    pub head: u16,
    pub readable: Vec<(u64, u64)>,
    pub writable: Vec<(u64, u64)>,
}

/// The address `n` bytes on; addresses wrap around.
pub open spec fn plus(addr: u64, n: int) -> u64 {
    ((addr + n) % 0x1_0000_0000_0000_0000) as u64
}

/// A descriptor.
pub struct Desc {
    pub addr: u64,
    pub len: u32,
    pub flags: u16,
    pub next: u16,
}

/// The buffers of a chain.
#[verifier::ext_equal]
pub struct Buffers {
    pub readable: Seq<(u64, u64)>,
    pub writable: Seq<(u64, u64)>,
}

impl Buffers {
    /// These buffers and then the others.
    pub open spec fn and(self, rest: Buffers) -> Buffers {
        Buffers {
            readable: self.readable + rest.readable,
            writable: self.writable + rest.writable,
        }
    }
}

/// The one buffer of a descriptor.
pub open spec fn buffer_of(d: Desc) -> Buffers {
    if d.flags & VIRTQ_DESC_F_WRITE != 0 {
        Buffers { readable: Seq::empty(), writable: seq![(d.addr, d.len as u64)] }
    } else {
        Buffers { readable: seq![(d.addr, d.len as u64)], writable: Seq::empty() }
    }
}

/// The concatenation of the bytes in these buffers, if they are all mapped.
pub open spec fn gathered(m: MemView, buffers: Seq<(u64, u64)>) -> Option<Seq<u8>>
    decreases buffers.len(),
{
    if buffers.len() == 0 {
        Some(Seq::empty())
    } else {
        let (addr, len) = buffers.last();
        match gathered(m, buffers.drop_last()) {
            Some(b) => if mapped(m, AddrSpace::Gpa, addr, len as int) {
                Some(b + bytes_at(m, AddrSpace::Gpa, addr, len as int))
            } else {
                None
            },
            None => None,
        }
    }
}

/// What writing `data` over these buffers from the `i`th on comes to: the
/// memory after it, how many bytes were written, and whether it got through.
pub struct Scattered {
    pub memory: MemView,
    pub written: nat,
    pub complete: bool,
}

/// Writes `data` over the buffers from the `i`th on, each filled before the
/// next, until there is no data or no buffer left, or a buffer is not mapped.
pub open spec fn scattered(m: MemView, buffers: Seq<(u64, u64)>, i: int, data: Seq<u8>) -> Scattered
    decreases buffers.len() - i,
{
    if i >= buffers.len() || data.len() == 0 {
        Scattered { memory: m, written: 0, complete: true }
    } else {
        let (addr, len) = buffers[i];
        let n: int = if len < data.len() {
            len as int
        } else {
            data.len() as int
        };
        if mapped(m, AddrSpace::Gpa, addr, n) {
            let rest = scattered(
                stored(m, AddrSpace::Gpa, addr, data.take(n)),
                buffers,
                i + 1,
                data.skip(n),
            );
            Scattered { written: rest.written + n as nat, ..rest }
        } else {
            Scattered { memory: m, written: 0, complete: false }
        }
    }
}

/// A virtqueue, as a value: where its parts are, how many slots it has, and
/// how far the available ring was consumed.
#[verifier::ext_equal]
pub struct QueueView {
    pub desc_addr: u64,
    pub avail_addr: u64,
    pub used_addr: u64,
    pub queue_size: u16,
    pub last_avail_idx: u16,
}

impl QueueView {
    /// How far the guest has filled the available ring.
    pub open spec fn avail_idx(self, m: MemView) -> Option<u16> {
        u16_at(m, AddrSpace::User, plus(self.avail_addr, 2))
    }

    /// Where the next entry of the available ring is.
    pub open spec fn avail_slot(self) -> u64 {
        plus(self.avail_addr, 4 + 2 * (self.last_avail_idx % self.queue_size))
    }

    /// Whether the guest has published a chain that was not consumed.
    pub open spec fn pending(self, m: MemView) -> bool {
        self.avail_idx(m) matches Some(idx) && idx != self.last_avail_idx
    }

    /// The head of the next chain.
    pub open spec fn popped(self, m: MemView) -> Result<Option<u16>, VirtqueueError> {
        match self.avail_idx(m) {
            None => Err(VirtqueueError::OutOfBounds),
            Some(idx) => if idx == self.last_avail_idx {
                Ok(None)
            } else {
                match u16_at(m, AddrSpace::User, self.avail_slot()) {
                    None => Err(VirtqueueError::OutOfBounds),
                    Some(head) => Ok(Some(head)),
                }
            },
        }
    }

    /// The queue with one more entry consumed.
    pub open spec fn advanced(self) -> QueueView {
        QueueView {
            last_avail_idx: ((self.last_avail_idx + 1) % 0x1_0000) as u16,
            ..self
        }
    }

    /// The queue after a chain was asked for.
    pub open spec fn after_pop(self, m: MemView) -> QueueView {
        if self.popped(m) matches Ok(Some(_)) {
            self.advanced()
        } else {
            self
        }
    }

    /// The descriptor `idx`, if it is mapped.
    pub open spec fn desc(self, m: MemView, idx: u16) -> Option<Desc> {
        let at = plus(self.desc_addr, 16 * idx);
        match (
            u64_at(m, AddrSpace::User, at),
            u32_at(m, AddrSpace::User, plus(at, 8)),
            u16_at(m, AddrSpace::User, plus(at, 12)),
            u16_at(m, AddrSpace::User, plus(at, 14)),
        ) {
            (Some(addr), Some(len), Some(flags), Some(next)) => Some(
                Desc { addr, len, flags, next },
            ),
            _ => None,
        }
    }

    /// The buffers of the chain that starts at `idx`, if it ends within `left`
    /// descriptors.
    pub open spec fn chain(self, m: MemView, idx: u16, left: nat) -> Result<Buffers, VirtqueueError>
        decreases left,
    {
        if left == 0 {
            Err(VirtqueueError::ChainTooLong)
        } else {
            match self.desc(m, idx) {
                None => Err(VirtqueueError::OutOfBounds),
                Some(d) => if d.flags & VIRTQ_DESC_F_INDIRECT != 0 {
                    Err(VirtqueueError::IndirectUnsupported)
                } else if d.flags & VIRTQ_DESC_F_NEXT == 0 {
                    Ok(buffer_of(d))
                } else {
                    match self.chain(m, d.next, (left - 1) as nat) {
                        Ok(rest) => Ok(buffer_of(d).and(rest)),
                        Err(e) => Err(e),
                    }
                },
            }
        }
    }

    /// How far the used ring is filled.
    pub open spec fn used_idx(self, m: MemView) -> Option<u16> {
        u16_at(m, AddrSpace::User, plus(self.used_addr, 2))
    }

    /// Where the entry for a used index is.
    pub open spec fn used_slot(self, idx: u16) -> u64 {
        plus(self.used_addr, 4 + 8 * (idx % self.queue_size))
    }

    /// What becomes of memory when a completed chain is published, and
    /// whether that works: the head and the length go into the next slot of
    /// the used ring, and then its index goes up by one.
    pub open spec fn pushed(self, m: MemView, head: u16, len: u32) -> (
        MemView,
        Result<(), VirtqueueError>,
    ) {
        let oob = Err::<(), _>(VirtqueueError::OutOfBounds);
        match self.used_idx(m) {
            None => (m, oob),
            Some(idx) => {
                let slot = self.used_slot(idx);
                let next = le::u16_bytes(((idx + 1) % 0x1_0000) as u16);
                match put(m, AddrSpace::User, slot, le::u32_bytes(head as u32)) {
                    None => (m, oob),
                    Some(m1) => match put(
                        m1,
                        AddrSpace::User,
                        plus(slot, 4),
                        le::u32_bytes(len),
                    ) {
                        None => (m1, oob),
                        Some(m2) => match put(
                            m2,
                            AddrSpace::User,
                            plus(self.used_addr, 2),
                            next,
                        ) {
                            None => (m2, oob),
                            Some(m3) => (m3, Ok(())),
                        },
                    },
                }
            },
        }
    }

    /// What becomes of memory when the chain `head` is completed with `data`,
    /// and whether that works: the data goes into the chain's buffers, and the
    /// chain on the used ring with the number of bytes written.
    #[verifier::opaque]
    pub open spec fn finished(
        self,
        m: MemView,
        head: u16,
        writable: Seq<(u64, u64)>,
        data: Seq<u8>,
    ) -> (MemView, Result<(), VirtqueueError>) {
        let s = scattered(m, writable, 0, data);
        if s.complete {
            self.pushed(s.memory, head, (s.written % 0x1_0000_0000) as u32)
        } else {
            (s.memory, Err(VirtqueueError::OutOfBounds))
        }
    }
}

/// A split virtqueue.
pub struct Virtqueue {
    desc_addr: u64,
    avail_addr: u64,
    used_addr: u64,
    queue_size: u16,
    last_avail_idx: u16,
}

impl View for Virtqueue {
    type V = QueueView;

    closed spec fn view(&self) -> QueueView {
        QueueView {
            desc_addr: self.desc_addr,
            avail_addr: self.avail_addr,
            used_addr: self.used_addr,
            queue_size: self.queue_size,
            last_avail_idx: self.last_avail_idx,
        }
    }
}

/// The value, or else that it is out of bounds.
fn in_bounds<T>(v: Option<T>) -> (r: Result<T, VirtqueueError>)
    ensures
        v matches Some(x) ==> r == Ok::<T, VirtqueueError>(x),
        v is None ==> r == Err::<T, _>(VirtqueueError::OutOfBounds),
{
    match v {
        Some(x) => Ok(x),
        None => Err(VirtqueueError::OutOfBounds),
    }
}

/// Writes an index into a ring.
fn put_u16(mem: &mut GuestMemory, addr: u64, val: u16) -> (r: Result<(), VirtqueueError>)
    ensures
        match put(old(mem)@, AddrSpace::User, addr, le::u16_bytes(val)) {
            Some(m) => final(mem)@ == m && r == Ok::<(), VirtqueueError>(()),
            None => final(mem)@ == old(mem)@ && r == Err::<(), _>(VirtqueueError::OutOfBounds),
        },
{
    proof {
        reveal(put);
    }
    in_bounds(mem.write_u16(AddrSpace::User, addr, val))
}

/// Writes half of an entry into a ring.
fn put_u32(mem: &mut GuestMemory, addr: u64, val: u32) -> (r: Result<(), VirtqueueError>)
    ensures
        match put(old(mem)@, AddrSpace::User, addr, le::u32_bytes(val)) {
            Some(m) => final(mem)@ == m && r == Ok::<(), VirtqueueError>(()),
            None => final(mem)@ == old(mem)@ && r == Err::<(), _>(VirtqueueError::OutOfBounds),
        },
{
    proof {
        reveal(put);
    }
    in_bounds(mem.write_u32(AddrSpace::User, addr, val))
}

impl Virtqueue {
    pub fn new(queue_size: u16, desc_addr: u64, avail_addr: u64, used_addr: u64) -> (q: Self)
        ensures
            q@ == (QueueView {
                desc_addr,
                avail_addr,
                used_addr,
                queue_size,
                last_avail_idx: 0,
            }),
    {
        Virtqueue { desc_addr, avail_addr, used_addr, queue_size, last_avail_idx: 0 }
    }

    pub fn set_avail_base(&mut self, idx: u16)
        ensures
            final(self)@ == (QueueView { last_avail_idx: idx, ..old(self)@ }),
    {
        self.last_avail_idx = idx;
    }

    pub fn avail_base(&self) -> (idx: u16)
        ensures
            idx == self@.last_avail_idx,
    {
        self.last_avail_idx
    }

    /// How many slots the rings have.
    pub fn queue_size(&self) -> (n: u16)
        ensures
            n == self@.queue_size,
    {
        self.queue_size
    }

    /// Whether the guest has published a chain that was not consumed.
    pub fn has_pending(&self, mem: &GuestMemory) -> (b: bool)
        ensures
            b == self@.pending(mem@),
    {
        match mem.read_u16(AddrSpace::User, self.avail_addr.wrapping_add(2)) {
            Some(idx) => idx != self.last_avail_idx,
            None => false,
        }
    }

    /// Takes the head of the next chain off the available ring, if the guest
    /// has published one that was not consumed.
    pub fn pop_avail(&mut self, mem: &GuestMemory) -> (r: Result<Option<u16>, VirtqueueError>)
        requires
            old(self)@.pending(mem@) ==> old(self)@.queue_size != 0,
        ensures
            r == old(self)@.popped(mem@),
            final(self)@ == old(self)@.after_pop(mem@),
    {
        let avail_idx: u16 = in_bounds(
            mem.read_u16(AddrSpace::User, self.avail_addr.wrapping_add(2)),
        )?;
        if avail_idx == self.last_avail_idx {
            return Ok(None);
        }
        let slot: u16 = self.last_avail_idx % self.queue_size;
        let ring_offset: u64 = AVAIL_RING_OFFSET + slot as u64 * 2;
        let head: u16 = in_bounds(
            mem.read_u16(AddrSpace::User, self.avail_addr.wrapping_add(ring_offset)),
        )?;
        self.last_avail_idx = self.last_avail_idx.wrapping_add(1);
        Ok(Some(head))
    }

    /// Reads the descriptor `idx`.
    fn read_desc(&self, mem: &GuestMemory, idx: u16) -> (r: Result<Desc, VirtqueueError>)
        ensures
            self@.desc(mem@, idx) matches Some(d) ==> r == Ok::<Desc, VirtqueueError>(d),
            self@.desc(mem@, idx) is None ==> r == Err::<Desc, _>(VirtqueueError::OutOfBounds),
    {
        let at: u64 = self.desc_addr.wrapping_add(idx as u64 * DESC_LEN);
        let addr: u64 = in_bounds(mem.read_u64(AddrSpace::User, at))?;
        let len: u32 = in_bounds(mem.read_u32(AddrSpace::User, at.wrapping_add(8)))?;
        let flags: u16 = in_bounds(mem.read_u16(AddrSpace::User, at.wrapping_add(12)))?;
        let next: u16 = in_bounds(mem.read_u16(AddrSpace::User, at.wrapping_add(14)))?;
        Ok(Desc { addr, len, flags, next })
    }

    /// Follows the chain that starts at `head`, and sorts its buffers into
    /// those to read and those to write, each in order.
    pub fn read_chain(&self, mem: &GuestMemory, head: u16) -> (r: Result<DescChain, VirtqueueError>)
        ensures
            self@.chain(mem@, head, MAX_CHAIN_LEN as nat) matches Ok(b) ==> {
                &&& r matches Ok(chain)
                &&& chain.head == head
                &&& chain.readable@ == b.readable
                &&& chain.writable@ == b.writable
            },
            self@.chain(mem@, head, MAX_CHAIN_LEN as nat) matches Err(e) ==> (r matches Err(x) && x
                == e),
    {
        let mut readable: Vec<(u64, u64)> = Vec::new();
        let mut writable: Vec<(u64, u64)> = Vec::new();
        let mut idx: u16 = head;
        let mut left: usize = MAX_CHAIN_LEN;
        let ghost whole = self@.chain(mem@, head, MAX_CHAIN_LEN as nat);
        let ghost mut so_far = Buffers { readable: readable@, writable: writable@ };
        proof {
            if let Ok(b) = whole {
                assert(so_far.and(b) =~= b);
            }
        }
        while left > 0
            invariant
                left <= MAX_CHAIN_LEN,
                whole == self@.chain(mem@, head, MAX_CHAIN_LEN as nat),
                so_far == (Buffers { readable: readable@, writable: writable@ }),
                match self@.chain(mem@, idx, left as nat) {
                    Ok(rest) => whole == Ok::<Buffers, VirtqueueError>(so_far.and(rest)),
                    Err(e) => whole == Err::<Buffers, VirtqueueError>(e),
                },
            decreases left,
        {
            let d = self.read_desc(mem, idx)?;
            if d.flags & VIRTQ_DESC_F_INDIRECT != 0 {
                return Err(VirtqueueError::IndirectUnsupported);
            }
            if d.flags & VIRTQ_DESC_F_WRITE != 0 {
                writable.push((d.addr, d.len as u64));
            } else {
                readable.push((d.addr, d.len as u64));
            }
            proof {
                let now = Buffers { readable: readable@, writable: writable@ };
                assert(now =~= so_far.and(buffer_of(d)));
                if let Ok(rest) = self@.chain(mem@, d.next, (left - 1) as nat) {
                    assert(so_far.and(buffer_of(d).and(rest)) =~= now.and(rest));
                }
                so_far = now;
            }
            if d.flags & VIRTQ_DESC_F_NEXT == 0 {
                return Ok(DescChain { head, readable, writable });
            }
            idx = d.next;
            left -= 1;
        }
        Err(VirtqueueError::ChainTooLong)
    }

    /// The bytes of a chain's readable buffers, one after another.
    pub fn gather_readable(&self, mem: &GuestMemory, chain: &DescChain) -> (r: Result<
        Vec<u8>,
        VirtqueueError,
    >)
        ensures
            gathered(mem@, chain.readable@) matches Some(b) ==> (r matches Ok(v) && v@ == b),
            gathered(mem@, chain.readable@) is None ==> (r matches Err(e) && e
                == VirtqueueError::OutOfBounds),
    {
        let all = chain.readable.as_slice();
        let mut buf: Vec<u8> = Vec::new();
        let mut i: usize = 0;
        assert(all@.take(0) =~= Seq::empty());
        while i < all.len()
            invariant
                i <= all.len(),
                gathered(mem@, all@.take(i as int)) == Some(buf@),
                all@ == chain.readable@,
            decreases all.len() - i,
        {
            let ghost upto = all@.take(i as int + 1);
            assert(upto.drop_last() =~= all@.take(i as int));
            assert(upto.last() == all@[i as int]);
            let (addr, len) = all[i];
            match mem.get_slice(AddrSpace::Gpa, addr, len) {
                Some(part) => append(&mut buf, part),
                None => {
                    proof {
                        lemma_gather_fails(mem@, all@, i as int + 1);
                    }
                    return Err(VirtqueueError::OutOfBounds);
                },
            }
            i += 1;
        }
        assert(all@.take(i as int) =~= all@);
        Ok(buf)
    }

    /// Writes `data` over a chain's writable buffers, in order, and gives the
    /// number of bytes written (modulo 2^32), which is less than there are if
    /// the buffers are too small.
    pub fn scatter_writable(&self, mem: &mut GuestMemory, chain: &DescChain, data: &[u8]) -> (r:
        Result<u32, VirtqueueError>)
        ensures
            ({
                let s = scattered(old(mem)@, chain.writable@, 0, data@);
                &&& final(mem)@ == s.memory
                &&& s.complete ==> r == Ok::<u32, VirtqueueError>(
                    (s.written % 0x1_0000_0000) as u32,
                )
                &&& !s.complete ==> r == Err::<u32, _>(VirtqueueError::OutOfBounds)
            }),
    {
        let all = chain.writable.as_slice();
        let mut from: usize = 0;
        let mut written: u32 = 0;
        let mut i: usize = 0;
        let ghost whole = scattered(mem@, all@, 0, data@);
        assert(data@.skip(0) =~= data@);
        while i < all.len() && from < data.len()
            invariant
                i <= all.len(),
                from <= data.len(),
                all@ == chain.writable@,
                whole == scattered(old(mem)@, chain.writable@, 0, data@),
                written == from as int % 0x1_0000_0000,
                ({
                    let rest = scattered(mem@, all@, i as int, data@.skip(from as int));
                    &&& whole.memory == rest.memory
                    &&& whole.written == rest.written + from
                    &&& whole.complete == rest.complete
                }),
            decreases all.len() - i,
        {
            let (addr, len) = all[i];
            let left: usize = data.len() - from;
            let n: usize = if len < left as u64 { len as usize } else { left };
            let part = slice_subrange(data, from, from + n);
            assert(part@ =~= data@.skip(from as int).take(n as int));
            assert(data@.skip(from as int).skip(n as int) =~= data@.skip(from + n));
            match mem.write_slice(AddrSpace::Gpa, addr, part) {
                Some(_) => {},
                None => {
                    return Err(VirtqueueError::OutOfBounds);
                },
            }
            from = from + n;
            written = (from as u128 % 0x1_0000_0000) as u32;
            i += 1;
        }
        Ok(written)
    }

    /// Where the entry for a used index is.
    fn used_slot(&self, idx: u16) -> (addr: u64)
        requires
            self@.queue_size != 0,
        ensures
            addr == self@.used_slot(idx),
    {
        let slot: u16 = idx % self.queue_size;
        self.used_addr.wrapping_add(USED_RING_OFFSET + slot as u64 * USED_ELEM_LEN)
    }

    /// Publishes a completed chain on the used ring.
    pub fn push_used(&mut self, mem: &mut GuestMemory, head: u16, written_len: u32) -> (r: Result<
        (),
        VirtqueueError,
    >)
        requires
            old(self)@.used_idx(old(mem)@) is Some ==> old(self)@.queue_size != 0,
        ensures
            final(self)@ == old(self)@,
            final(mem)@ == old(self)@.pushed(old(mem)@, head, written_len).0,
            r == old(self)@.pushed(old(mem)@, head, written_len).1,
    {
        let idx_addr: u64 = self.used_addr.wrapping_add(2);
        let used_idx: u16 = in_bounds(mem.read_u16(AddrSpace::User, idx_addr))?;
        let elem: u64 = self.used_slot(used_idx);
        put_u32(mem, elem, head as u32)?;
        put_u32(mem, elem.wrapping_add(4), written_len)?;
        put_u16(mem, idx_addr, used_idx.wrapping_add(1))
    }
}

/// If the first `i` buffers cannot be gathered, neither can all of them.
proof fn lemma_gather_fails(m: MemView, buffers: Seq<(u64, u64)>, i: int)
    requires
        0 <= i <= buffers.len(),
        gathered(m, buffers.take(i)) is None,
    ensures
        gathered(m, buffers) is None,
    decreases buffers.len() - i,
{
    if i < buffers.len() {
        assert(buffers.take(i + 1).drop_last() =~= buffers.take(i));
        lemma_gather_fails(m, buffers, i + 1);
    } else {
        assert(buffers.take(i) =~= buffers);
    }
}

impl QueueView {
    /// Where the entry of the available ring for an index is.
    pub open spec fn avail_place(self, idx: u16) -> u64 {
        plus(self.avail_addr, 4 + 2 * (idx % self.queue_size))
    }

    /// The entry of the available ring for an index.
    pub open spec fn avail_entry(self, m: MemView, idx: u16) -> Option<u16> {
        u16_at(m, AddrSpace::User, self.avail_place(idx))
    }

    /// How many chains the guest has published that were not consumed.
    pub open spec fn outstanding(self, m: MemView) -> int {
        match self.avail_idx(m) {
            Some(idx) => (idx - self.last_avail_idx) % 0x1_0000,
            None => 0,
        }
    }

    /// The index `n` after the one at which the queue is.
    pub open spec fn ahead(self, n: int) -> u16 {
        ((self.last_avail_idx + n) % 0x1_0000) as u16
    }

    /// The queue after a chain was asked for `n` times.
    pub open spec fn after_pops(self, m: MemView, n: nat) -> QueueView
        decreases n,
    {
        if n == 0 {
            self
        } else {
            self.after_pops(m, (n - 1) as nat).after_pop(m)
        }
    }
}

/// Chains are taken in the order in which the guest published them, none left
/// out and none taken twice: after `n` pops the next one gives the entry of
/// the available ring `n` places on, and once as many were taken as were
/// published, there is nothing more.
pub proof fn law_pops_take_each_chain_once(q: QueueView, m: MemView, n: nat)
    requires
        q.queue_size != 0,
        q.avail_idx(m) is Some,
        n <= q.outstanding(m),
        forall|i: int| 0 <= i < n ==> q.avail_entry(m, #[trigger] q.ahead(i)) is Some,
    ensures
        ({
            let now = q.after_pops(m, n);
            &&& now == (QueueView { last_avail_idx: q.ahead(n as int), ..q })
            &&& now.outstanding(m) == q.outstanding(m) - n
            &&& n < q.outstanding(m) ==> match q.avail_entry(m, q.ahead(n as int)) {
                Some(head) => now.popped(m) == Ok::<Option<u16>, VirtqueueError>(Some(head)),
                None => now.popped(m) == Err::<Option<u16>, _>(VirtqueueError::OutOfBounds)
                    && now.after_pop(m) == now,
            }
            &&& n == q.outstanding(m) ==> now.popped(m) == Ok::<Option<u16>, VirtqueueError>(None)
                && now.after_pop(m) == now
        }),
{
    lemma_ring_distance(q.last_avail_idx as int, q.avail_idx(m)->0 as int, n as int);
    lemma_after_pops(q, m, n);
    lemma_pop_at(q, m, q.ahead(n as int));
}

/// Where the queue is after `n` pops.
proof fn lemma_after_pops(q: QueueView, m: MemView, n: nat)
    requires
        q.avail_idx(m) is Some,
        n <= q.outstanding(m),
        forall|i: int| 0 <= i < n ==> q.avail_entry(m, #[trigger] q.ahead(i)) is Some,
    ensures
        q.after_pops(m, n) == (QueueView { last_avail_idx: q.ahead(n as int), ..q }),
    decreases n,
{
    if n > 0 {
        lemma_after_pops(q, m, (n - 1) as nat);
        assert(q.avail_entry(m, q.ahead(n - 1)) is Some);
        lemma_ring_distance(q.last_avail_idx as int, q.avail_idx(m)->0 as int, n - 1);
        lemma_pop_at(q, m, q.ahead(n - 1));
        assert(q.after_pops(m, n) == q.after_pops(m, (n - 1) as nat).after_pop(m));
    }
}

/// What a pop does when the queue is at an index.
proof fn lemma_pop_at(q: QueueView, m: MemView, at: u16)
    requires
        q.avail_idx(m) is Some,
    ensures
        ({
            let now = QueueView { last_avail_idx: at, ..q };
            &&& now.avail_idx(m) == q.avail_idx(m)
            &&& now.outstanding(m) == (q.avail_idx(m)->0 - at) % 0x1_0000
            &&& q.avail_idx(m)->0 == at ==> now.popped(m) == Ok::<Option<u16>, VirtqueueError>(None)
                && now.after_pop(m) == now
            &&& q.avail_idx(m)->0 != at ==> match q.avail_entry(m, at) {
                Some(head) => now.popped(m) == Ok::<Option<u16>, VirtqueueError>(Some(head))
                    && now.after_pop(m) == (QueueView {
                    last_avail_idx: ((at + 1) % 0x1_0000) as u16,
                    ..q
                }),
                None => now.popped(m) == Err::<Option<u16>, _>(VirtqueueError::OutOfBounds)
                    && now.after_pop(m) == now,
            }
        }),
{
}

/// Indices go round: `n` steps on, what is left to the end is `n` less, and one
/// step more is the next index.
pub(crate) proof fn lemma_ring_distance(from: int, to: int, n: int)
    requires
        0 <= from < 0x1_0000,
        0 <= to < 0x1_0000,
        0 <= n <= (to - from) % 0x1_0000,
    ensures
        (to - (from + n) % 0x1_0000) % 0x1_0000 == (to - from) % 0x1_0000 - n,
        (from + n) % 0x1_0000 == to <==> n == (to - from) % 0x1_0000,
        ((from + n) % 0x1_0000 + 1) % 0x1_0000 == (from + n + 1) % 0x1_0000,
{
}

/// A chain that is accepted has at most `left` buffers in all, and at least
/// one.
pub proof fn law_chain_is_bounded(q: QueueView, m: MemView, head: u16, left: nat)
    ensures
        q.chain(m, head, left) matches Ok(b) ==> 1 <= b.readable.len() + b.writable.len() <= left,
    decreases left,
{
    if left > 0 {
        if let Some(d) = q.desc(m, head) {
            law_chain_is_bounded(q, m, d.next, (left - 1) as nat);
        }
    }
}

impl QueueView {
    /// The descriptor that is reached from `idx` by going on `k` times, if
    /// each one on the way says that the chain goes on.
    pub open spec fn reached(self, m: MemView, idx: u16, k: nat) -> Option<Desc>
        decreases k,
    {
        match self.desc(m, idx) {
            Some(d) => if k == 0 {
                Some(d)
            } else if d.flags & VIRTQ_DESC_F_INDIRECT == 0 && d.flags & VIRTQ_DESC_F_NEXT != 0 {
                self.reached(m, d.next, (k - 1) as nat)
            } else {
                None
            },
            None => None,
        }
    }

    /// Whether the chain from `idx` goes on after its `k`th descriptor.
    pub open spec fn goes_on(self, m: MemView, idx: u16, k: nat) -> bool {
        self.reached(m, idx, k) matches Some(d) && d.flags & VIRTQ_DESC_F_INDIRECT == 0 && d.flags
            & VIRTQ_DESC_F_NEXT != 0
    }
}

/// A chain that has an indirect descriptor, wherever it comes within the first
/// `left`, is refused, and one that is accepted has none.
pub proof fn law_indirect_is_refused(q: QueueView, m: MemView, head: u16, left: nat, k: nat)
    ensures
        k < left && (q.reached(m, head, k) matches Some(d) && d.flags & VIRTQ_DESC_F_INDIRECT != 0)
            ==> q.chain(m, head, left) == Err::<Buffers, _>(VirtqueueError::IndirectUnsupported),
        q.chain(m, head, left) is Ok ==> (q.reached(m, head, k) matches Some(d) ==> k < left
            && d.flags & VIRTQ_DESC_F_INDIRECT == 0),
    decreases k,
{
    if left > 0 && k > 0 {
        if let Some(d) = q.desc(m, head) {
            law_indirect_is_refused(q, m, d.next, (left - 1) as nat, (k - 1) as nat);
        }
    }
}

/// A chain is refused as too long exactly if each of its first `left`
/// descriptors says that it goes on, as those of a chain that leads back into
/// itself do.
pub proof fn law_endless_chain_is_refused(q: QueueView, m: MemView, head: u16, left: nat)
    ensures
        q.chain(m, head, left) == Err::<Buffers, _>(VirtqueueError::ChainTooLong) <==> (forall|
            k: nat,
        |
            k < left ==> #[trigger] q.goes_on(m, head, k)),
    decreases left,
{
    if left > 0 {
        match q.desc(m, head) {
            Some(d) if d.flags & VIRTQ_DESC_F_INDIRECT == 0 && d.flags & VIRTQ_DESC_F_NEXT != 0 => {
                let rest = (left - 1) as nat;
                law_endless_chain_is_refused(q, m, d.next, rest);
                assert forall|k: nat| k < rest implies #[trigger] q.goes_on(m, d.next, k)
                    == q.goes_on(m, head, k + 1) by {}
                if forall|k: nat| k < left ==> #[trigger] q.goes_on(m, head, k) {
                    assert forall|k: nat| k < rest implies #[trigger] q.goes_on(m, d.next, k) by {
                        assert(q.goes_on(m, head, k + 1));
                    }
                }
                if forall|k: nat| k < rest ==> #[trigger] q.goes_on(m, d.next, k) {
                    assert forall|k: nat| k < left implies #[trigger] q.goes_on(m, head, k) by {
                        if k > 0 {
                            assert(q.goes_on(m, d.next, (k - 1) as nat));
                        }
                    }
                }
            },
            _ => {
                assert(!q.goes_on(m, head, 0));
            },
        }
    }
}

/// Whether a chain of descriptors lies in guest memory: `path` are its indices in
/// the table at `desc_addr`, from its head on, and `descs` what stands there. A
/// descriptor has 16 bytes: the buffer's guest-physical address, its length, the
/// flags, and the index of the next one. All but the last say that the chain goes
/// on (flag 1), each to the one that follows it, and none is indirect (flag 4).
#[verifier::opaque]
pub open spec fn is_chain(desc_addr: u64, m: MemView, path: Seq<u16>, descs: Seq<Desc>) -> bool {
    &&& 0 < path.len() == descs.len()
    &&& forall|i: int|
        #![trigger descs[i]]
        0 <= i < path.len() ==> {
            let at = desc_addr + 16 * path[i];
            &&& u64_at(m, AddrSpace::User, (at % 0x1_0000_0000_0000_0000) as u64) == Some(
                descs[i].addr,
            )
            &&& u32_at(m, AddrSpace::User, ((at + 8) % 0x1_0000_0000_0000_0000) as u64) == Some(
                descs[i].len,
            )
            &&& u16_at(m, AddrSpace::User, ((at + 12) % 0x1_0000_0000_0000_0000) as u64) == Some(
                descs[i].flags,
            )
            &&& u16_at(m, AddrSpace::User, ((at + 14) % 0x1_0000_0000_0000_0000) as u64) == Some(
                descs[i].next,
            )
            &&& descs[i].flags & 4 == 0
            &&& i + 1 < path.len() ==> descs[i].flags & 1 != 0 && descs[i].next == path[i + 1]
            &&& i + 1 == path.len() ==> descs[i].flags & 1 == 0
        }
}

/// How many of the first `k` descriptors are for us to write (flag 2).
pub open spec fn writes_before(descs: Seq<Desc>, k: int) -> int
    decreases k,
{
    if k <= 0 {
        0
    } else if descs[k - 1].flags & 2 != 0 {
        writes_before(descs, k - 1) + 1
    } else {
        writes_before(descs, k - 1)
    }
}

/// Whether the buffers are those of the descriptors, each in its place: the `k`th
/// descriptor's is the writable one, or the readable one, after as many as there
/// are descriptors of its sort before it, and there are no others.
#[verifier::opaque]
pub open spec fn are_buffers_of(
    readable: Seq<(u64, u64)>,
    writable: Seq<(u64, u64)>,
    descs: Seq<Desc>,
) -> bool {
    let n = descs.len() as int;
    &&& writable.len() == writes_before(descs, n)
    &&& readable.len() == n - writes_before(descs, n)
    &&& forall|k: int|
        #![trigger descs[k]]
        0 <= k < n ==> {
            let w = writes_before(descs, k);
            let buffer = (descs[k].addr, descs[k].len as u64);
            &&& 0 <= w <= k
            &&& descs[k].flags & 2 != 0 ==> w < writable.len() && writable[w] == buffer
            &&& descs[k].flags & 2 == 0 ==> k - w < readable.len() && readable[k - w] == buffer
        }
}

/// A chain in guest memory is accepted if it has no more descriptors than are
/// followed, and then its buffers are those of its descriptors: the readable
/// ones and the writable ones, each in the order in which the descriptors follow
/// each other. A chain from which a request is taken may have 128 descriptors.
pub proof fn law_chain_lists_its_buffers_in_order(
    q: QueueView,
    m: MemView,
    path: Seq<u16>,
    descs: Seq<Desc>,
    left: nat,
)
    requires
        is_chain(q.desc_addr, m, path, descs),
    ensures
        path.len() <= left ==> {
            &&& q.chain(m, path[0], left) matches Ok(b)
            &&& are_buffers_of(b.readable, b.writable, descs)
        },
        path.len() > left ==> q.chain(m, path[0], left) == Err::<Buffers, _>(
            VirtqueueError::ChainTooLong,
        ),
        MAX_CHAIN_LEN == 128,
    decreases path.len(),
{
    lemma_chain_head(q, m, path, descs);
    if left > 0 && path.len() > 1 {
        lemma_chain_tail(q.desc_addr, m, path, descs);
        law_chain_lists_its_buffers_in_order(
            q,
            m,
            path.skip(1),
            descs.skip(1),
            (left - 1) as nat,
        );
        if path.len() <= left {
            let tail = q.chain(m, path[1], (left - 1) as nat)->Ok_0;
            lemma_more_buffers(tail, descs);
        }
    } else if left > 0 {
        lemma_one_buffer(descs);
    }
}

/// What stands where a chain starts.
proof fn lemma_chain_head(q: QueueView, m: MemView, path: Seq<u16>, descs: Seq<Desc>)
    requires
        is_chain(q.desc_addr, m, path, descs),
    ensures
        0 < path.len() == descs.len(),
        q.desc(m, path[0]) == Some(descs[0]),
        descs[0].flags & 4 == 0,
        path.len() > 1 ==> descs[0].flags & 1 != 0 && descs[0].next == path[1],
        path.len() == 1 ==> descs[0].flags & 1 == 0,
{
    reveal(is_chain);
    let d = descs[0];
    let at = 16 * path[0];
    lemma_plus(q.desc_addr, at, 8);
    lemma_plus(q.desc_addr, at, 12);
    lemma_plus(q.desc_addr, at, 14);
    assert(q.desc(m, path[0]) == Some(d));
}

/// Going on twice is going on by both.
proof fn lemma_plus(addr: u64, n: int, k: int)
    requires
        0 <= n,
        0 <= k,
    ensures
        plus(plus(addr, n), k) == ((addr + n + k) % 0x1_0000_0000_0000_0000) as u64,
{
}

/// A chain without its first descriptor is a chain.
proof fn lemma_chain_tail(desc_addr: u64, m: MemView, path: Seq<u16>, descs: Seq<Desc>)
    requires
        is_chain(desc_addr, m, path, descs),
        path.len() > 1,
    ensures
        is_chain(desc_addr, m, path.skip(1), descs.skip(1)),
{
    reveal(is_chain);
    let rest = descs.skip(1);
    assert forall|i: int| #![trigger rest[i]] 0 <= i < rest.len() implies rest[i] == descs[i + 1]
        && path.skip(1)[i] == path[i + 1] by {}
}

/// The buffer of a chain with one descriptor.
proof fn lemma_one_buffer(descs: Seq<Desc>)
    requires
        descs.len() == 1,
    ensures
        are_buffers_of(buffer_of(descs[0]).readable, buffer_of(descs[0]).writable, descs),
{
    reveal(are_buffers_of);
    reveal_with_fuel(writes_before, 2);
}

/// Whether the buffer of the `k`th descriptor is in its place.
spec fn is_in_place(
    readable: Seq<(u64, u64)>,
    writable: Seq<(u64, u64)>,
    descs: Seq<Desc>,
    k: int,
) -> bool {
    let w = writes_before(descs, k);
    let buffer = (descs[k].addr, descs[k].len as u64);
    &&& 0 <= w <= k
    &&& descs[k].flags & 2 != 0 ==> w < writable.len() && writable[w] == buffer
    &&& descs[k].flags & 2 == 0 ==> k - w < readable.len() && readable[k - w] == buffer
}

/// The buffers of a chain are its first descriptor's and then those of the rest.
proof fn lemma_more_buffers(tail: Buffers, descs: Seq<Desc>)
    requires
        descs.len() > 1,
        are_buffers_of(tail.readable, tail.writable, descs.skip(1)),
    ensures
        ({
            let b = buffer_of(descs[0]).and(tail);
            are_buffers_of(b.readable, b.writable, descs)
        }),
{
    let b = buffer_of(descs[0]).and(tail);
    let n = descs.len() as int;
    lemma_writes_shift(descs, n);
    assert forall|k: int| #![trigger descs[k]] 0 <= k < n implies is_in_place(
        b.readable,
        b.writable,
        descs,
        k,
    ) by {
        if k > 0 {
            assert(is_in_place(tail.readable, tail.writable, descs.skip(1), k - 1)) by {
                reveal(are_buffers_of);
                assert(descs.skip(1)[k - 1] == descs[k]);
            }
            lemma_one_place_on(tail, descs, k);
        } else {
            lemma_first_place(tail, descs);
        }
    }
    reveal(are_buffers_of);
}

/// The first descriptor's buffer is in its place.
proof fn lemma_first_place(tail: Buffers, descs: Seq<Desc>)
    requires
        descs.len() > 1,
    ensures
        ({
            let b = buffer_of(descs[0]).and(tail);
            is_in_place(b.readable, b.writable, descs, 0)
        }),
{
}

/// A buffer that is in its place in the rest of a chain is in its place in all of it.
proof fn lemma_one_place_on(tail: Buffers, descs: Seq<Desc>, k: int)
    requires
        0 < k < descs.len(),
        is_in_place(tail.readable, tail.writable, descs.skip(1), k - 1),
    ensures
        ({
            let b = buffer_of(descs[0]).and(tail);
            is_in_place(b.readable, b.writable, descs, k)
        }),
{
    lemma_writes_shift(descs, k);
    assert(descs.skip(1)[k - 1] == descs[k]);
}

/// Counting from the second descriptor on misses the first.
proof fn lemma_writes_shift(descs: Seq<Desc>, k: int)
    requires
        0 < k <= descs.len(),
    ensures
        writes_before(descs, k) == writes_before(descs.skip(1), k - 1) + if descs[0].flags & 2
            != 0 {
            1int
        } else {
            0int
        },
    decreases k,
{
    if k > 1 {
        lemma_writes_shift(descs, k - 1);
        assert(descs.skip(1)[k - 2] == descs[k - 1]);
    } else {
        reveal_with_fuel(writes_before, 2);
    }
}

/// Only chains are accepted: if buffers are given for a head, there is a chain in
/// guest memory that starts there and is not too long, and they are its buffers.
pub proof fn law_accepted_chain_is_in_memory(
    q: QueueView,
    m: MemView,
    head: u16,
    left: nat,
) -> (found: (Seq<u16>, Seq<Desc>))
    requires
        q.chain(m, head, left) is Ok,
    ensures
        is_chain(q.desc_addr, m, found.0, found.1),
        found.0[0] == head,
        found.0.len() <= left,
        are_buffers_of(
            q.chain(m, head, left)->Ok_0.readable,
            q.chain(m, head, left)->Ok_0.writable,
            found.1,
        ),
    decreases left,
{
    let d = q.desc(m, head)->0;
    let found = if d.flags & 1 == 0 {
        lemma_short_chain(q, m, head, d);
        (seq![head], seq![d])
    } else {
        let (path, descs) = law_accepted_chain_is_in_memory(q, m, d.next, (left - 1) as nat);
        lemma_longer_chain(q, m, head, d, path, descs);
        lemma_chain_head(q, m, path, descs);
        (seq![head] + path, seq![d] + descs)
    };
    law_chain_lists_its_buffers_in_order(q, m, found.0, found.1, left);
    found
}

/// A descriptor after which the chain does not go on is a chain.
proof fn lemma_short_chain(q: QueueView, m: MemView, head: u16, d: Desc)
    requires
        q.desc(m, head) == Some(d),
        d.flags & 4 == 0,
        d.flags & 1 == 0,
    ensures
        is_chain(q.desc_addr, m, seq![head], seq![d]),
{
    reveal(is_chain);
    let at = 16 * head;
    lemma_plus(q.desc_addr, at, 8);
    lemma_plus(q.desc_addr, at, 12);
    lemma_plus(q.desc_addr, at, 14);
}

/// A descriptor that goes on to a chain starts a longer one.
proof fn lemma_longer_chain(
    q: QueueView,
    m: MemView,
    head: u16,
    d: Desc,
    path: Seq<u16>,
    descs: Seq<Desc>,
)
    requires
        is_chain(q.desc_addr, m, path, descs),
        q.desc(m, head) == Some(d),
        d.flags & 4 == 0,
        d.flags & 1 != 0,
        d.next == path[0],
    ensures
        is_chain(q.desc_addr, m, seq![head] + path, seq![d] + descs),
{
    reveal(is_chain);
    let at = 16 * head;
    lemma_plus(q.desc_addr, at, 8);
    lemma_plus(q.desc_addr, at, 12);
    lemma_plus(q.desc_addr, at, 14);
    let p = seq![head] + path;
    let ds = seq![d] + descs;
    assert forall|i: int| 0 < i < p.len() implies p[i] == path[i - 1] && #[trigger] ds[i]
        == descs[i - 1] by {}
}

/// A chain whose head, or a descriptor that it goes on to, is not in mapped
/// memory is refused as out of bounds.
pub proof fn law_unmapped_descriptor_is_out_of_bounds(q: QueueView, m: MemView, idx: u16, left: nat)
    requires
        left > 0,
        !mapped(
            m,
            AddrSpace::User,
            ((q.desc_addr + 16 * idx) % 0x1_0000_0000_0000_0000) as u64,
            8,
        ),
    ensures
        q.chain(m, idx, left) == Err::<Buffers, _>(VirtqueueError::OutOfBounds),
        forall|head: u16|
            #![trigger q.desc(m, head)]
            left > 1 && (q.desc(m, head) matches Some(d) && d.flags & 4 == 0 && d.flags & 1 != 0
                && d.next == idx) ==> q.chain(m, head, left) == Err::<Buffers, _>(
                VirtqueueError::OutOfBounds,
            ),
{
    reveal(u64_at);
    reveal_with_fuel(QueueView::chain, 3);
}

/// The available ring has the guest's index two bytes after its start, and the
/// head for an index 4 bytes after its start, two bytes a slot, where slots are
/// used round and round. The next chain is the one at the index where the queue
/// is; there is none if that is the guest's index. Taking it moves the queue on
/// by one, and changes nothing else of it.
pub proof fn law_next_chain_is_in_the_available_ring(
    q: QueueView,
    m: MemView,
    published: u16,
    head: u16,
)
    requires
        u16_at(
            m,
            AddrSpace::User,
            ((q.avail_addr + 2) % 0x1_0000_0000_0000_0000) as u64,
        ) == Some(published),
    ensures
        published == q.last_avail_idx ==> q.popped(m) == Ok::<Option<u16>, VirtqueueError>(None)
            && q.after_pop(m) == q && !q.pending(m),
        published != q.last_avail_idx ==> q.pending(m),
        published != q.last_avail_idx && u16_at(
            m,
            AddrSpace::User,
            ((q.avail_addr + 4 + 2 * (q.last_avail_idx % q.queue_size)) % 0x1_0000_0000_0000_0000)
                as u64,
        ) == Some(head) ==> {
            let after = q.after_pop(m);
            &&& q.popped(m) == Ok::<Option<u16>, VirtqueueError>(Some(head))
            &&& after.last_avail_idx as int == (q.last_avail_idx + 1) % 0x1_0000
            &&& after.desc_addr == q.desc_addr
            &&& after.avail_addr == q.avail_addr
            &&& after.used_addr == q.used_addr
            &&& after.queue_size == q.queue_size
        },
{
}

/// The used ring has our index two bytes after its start, and the entry for an
/// index 4 bytes after its start, eight bytes a slot: the chain's head, and then
/// the number of bytes written. A chain that is published is in the slot of the
/// index as it was, and the index has gone up by one.
pub proof fn law_published_chain_is_in_the_used_ring(
    q: QueueView,
    m: MemView,
    head: u16,
    len: u32,
    idx: u16,
)
    requires
        q.queue_size != 0,
        q.used_addr + 4 + 8 * q.queue_size <= u64::MAX,
        u16_at(m, AddrSpace::User, (q.used_addr + 2) as u64) == Some(idx),
        mapped(m, AddrSpace::User, (q.used_addr + 4 + 8 * (idx % q.queue_size)) as u64, 4),
        mapped(m, AddrSpace::User, (q.used_addr + 8 + 8 * (idx % q.queue_size)) as u64, 4),
    ensures
        ({
            let (after, r) = q.pushed(m, head, len);
            let slot = q.used_addr + 4 + 8 * (idx % q.queue_size);
            &&& r is Ok
            &&& u16_at(after, AddrSpace::User, (q.used_addr + 2) as u64) == Some(
                ((idx + 1) % 0x1_0000) as u16,
            )
            &&& u32_at(after, AddrSpace::User, slot as u64) == Some(head as u32)
            &&& u32_at(after, AddrSpace::User, (slot + 4) as u64) == Some(len)
        }),
{
    reveal(put);
    reveal(u16_at);
    let user = AddrSpace::User;
    assert(idx % q.queue_size < q.queue_size);
    let slot = q.used_slot(idx);
    let at = plus(q.used_addr, 2);
    let m1 = stored(m, user, slot, le::u32_bytes(head as u32));
    let m2 = stored(m1, user, plus(slot, 4), le::u32_bytes(len));
    law_memory_read_back(m, user, slot, le::u32_bytes(head as u32));
    lemma_layout_places(m, m1, user, plus(slot, 4), 4);
    lemma_layout_places(m, m1, user, at, 2);
    law_memory_read_back(m1, user, plus(slot, 4), le::u32_bytes(len));
    lemma_layout_places(m1, m2, user, at, 2);
    law_push_used_publishes(q, m, head, len, user, 0, 0);
}

/// Publishing a chain puts its head and length into the slot of the used index
/// and moves the index on by one, and that is all it changes: whatever is
/// apart from the slot and from the index stays.
pub proof fn law_push_used_publishes(
    q: QueueView,
    m: MemView,
    head: u16,
    len: u32,
    space: AddrSpace,
    addr: u64,
    n: int,
)
    requires
        q.queue_size != 0,
        q.used_addr + 4 + 8 * q.queue_size <= u64::MAX,
        q.pushed(m, head, len).1 is Ok,
    ensures
        ({
            let after = q.pushed(m, head, len).0;
            let idx = q.used_idx(m)->0;
            let slot = q.used_slot(idx);
            &&& same_layout(m, after)
            &&& q.used_idx(after) == Some(((idx + 1) % 0x1_0000) as u16)
            &&& u32_at(after, AddrSpace::User, slot) == Some(head as u32)
            &&& u32_at(after, AddrSpace::User, plus(slot, 4)) == Some(len)
            &&& mapped(m, space, addr, n) && 0 <= n && apart(
                m,
                AddrSpace::User,
                slot,
                4,
                space,
                addr,
                n,
            ) && apart(m, AddrSpace::User, plus(slot, 4), 4, space, addr, n) && apart(
                m,
                AddrSpace::User,
                plus(q.used_addr, 2),
                2,
                space,
                addr,
                n,
            ) ==> mapped(after, space, addr, n) && bytes_at(after, space, addr, n) == bytes_at(
                m,
                space,
                addr,
                n,
            )
        }),
{
    reveal(put);
    reveal(u16_at);
    reveal(u32_at);
    let user = AddrSpace::User;
    let idx = q.used_idx(m)->0;
    let next = ((idx + 1) % 0x1_0000) as u16;
    let slot = q.used_slot(idx);
    let slot4 = plus(slot, 4);
    let at = plus(q.used_addr, 2);
    assert(idx % q.queue_size < q.queue_size);
    assert(slot == q.used_addr + 4 + 8 * (idx % q.queue_size));
    assert(slot4 == slot + 4);
    assert(at == q.used_addr + 2);
    let m1 = stored(m, user, slot, le::u32_bytes(head as u32));
    let m2 = stored(m1, user, slot4, le::u32_bytes(len));
    let m3 = stored(m2, user, at, le::u16_bytes(next));
    law_memory_read_back(m, user, slot, le::u32_bytes(head as u32));
    law_memory_read_back(m1, user, slot4, le::u32_bytes(len));
    law_memory_read_back(m2, user, at, le::u16_bytes(next));
    le::law_u32_roundtrip(head as u32);
    le::law_u32_roundtrip(len);
    le::law_u16_roundtrip(next);
    lemma_layout_places(m, m1, user, slot, 4);
    lemma_layout_places(m, m1, user, slot4, 4);
    lemma_layout_places(m, m1, user, at, 2);
    lemma_layout_places(m1, m2, user, slot, 4);
    lemma_layout_places(m1, m2, user, slot4, 4);
    lemma_layout_places(m1, m2, user, at, 2);
    law_memory_frame(m1, user, slot4, le::u32_bytes(len), user, slot, 4);
    law_memory_frame(m2, user, at, le::u16_bytes(next), user, slot, 4);
    law_memory_frame(m2, user, at, le::u16_bytes(next), user, slot4, 4);
    if mapped(m, space, addr, n) && 0 <= n && apart(m, user, slot, 4, space, addr, n) && apart(
        m,
        user,
        slot4,
        4,
        space,
        addr,
        n,
    ) && apart(m, user, at, 2, space, addr, n) {
        lemma_layout_places(m, m1, space, addr, n);
        lemma_layout_places(m1, m2, space, addr, n);
        law_memory_frame(m, user, slot, le::u32_bytes(head as u32), space, addr, n);
        law_memory_frame(m1, user, slot4, le::u32_bytes(len), space, addr, n);
        law_memory_frame(m2, user, at, le::u16_bytes(next), space, addr, n);
    }
}

/// Memories with the same layout have the same addresses at the same places.
proof fn lemma_layout_places(a: MemView, b: MemView, space: AddrSpace, addr: u64, n: int)
    requires
        same_layout(a, b),
    ensures
        region_for(a, space, addr, n) == region_for(b, space, addr, n),
        mapped(a, space, addr, n) == mapped(b, space, addr, n),
        mapped(a, space, addr, n) ==> offset_of(a, space, addr, n) == offset_of(b, space, addr, n),
{
    crate::vhost_user::memory::lemma_same_layout(a, b, space, addr, n, 0);
    lemma_region_from(a, space, addr, n, 0);
}

/// How many bytes the buffers from the `i`th on can take.
pub open spec fn capacity(buffers: Seq<(u64, u64)>, i: int) -> nat
    decreases buffers.len() - i,
{
    if i >= buffers.len() {
        0
    } else {
        (buffers[i].1 + capacity(buffers, i + 1)) as nat
    }
}

/// A reply that gets through fills the buffers as far as there is data, or as
/// far as there is room.
pub proof fn law_scatter_writes_what_fits(
    m: MemView,
    buffers: Seq<(u64, u64)>,
    i: int,
    data: Seq<u8>,
)
    requires
        0 <= i,
        scattered(m, buffers, i, data).complete,
    ensures
        scattered(m, buffers, i, data).written == if data.len() < capacity(buffers, i) {
            data.len()
        } else {
            capacity(buffers, i)
        },
    decreases buffers.len() - i,
{
    if i < buffers.len() && data.len() > 0 {
        let (addr, len) = buffers[i];
        let n: int = if len < data.len() {
            len as int
        } else {
            data.len() as int
        };
        law_scatter_writes_what_fits(
            stored(m, AddrSpace::Gpa, addr, data.take(n)),
            buffers,
            i + 1,
            data.skip(n),
        );
    }
}

/// Whether the buffers from the `i`th on are mapped.
pub open spec fn all_mapped(m: MemView, buffers: Seq<(u64, u64)>, i: int) -> bool {
    forall|k: int|
        i <= k < buffers.len() ==> mapped(
            m,
            AddrSpace::Gpa,
            (#[trigger] buffers[k]).0,
            buffers[k].1 as int,
        )
}

/// Whether a range has no byte in common with the `k`th buffer.
pub open spec fn apart_from(
    m: MemView,
    buffers: Seq<(u64, u64)>,
    k: int,
    space: AddrSpace,
    addr: u64,
    n: int,
) -> bool {
    apart(m, AddrSpace::Gpa, buffers[k].0, buffers[k].1 as int, space, addr, n)
}

/// Whether no two of the buffers have a byte in common.
pub open spec fn all_apart(m: MemView, buffers: Seq<(u64, u64)>) -> bool {
    forall|j: int, k: int|
        0 <= j < k < buffers.len() ==> #[trigger] apart_from(
            m,
            buffers,
            k,
            AddrSpace::Gpa,
            buffers[j].0,
            buffers[j].1 as int,
        )
}

/// Memories with the same layout agree on which ranges are apart.
proof fn lemma_layout_apart(
    a: MemView,
    b: MemView,
    buffers: Seq<(u64, u64)>,
    k: int,
    space: AddrSpace,
    addr: u64,
    n: int,
)
    requires
        same_layout(a, b),
        0 <= k < buffers.len(),
        mapped(a, AddrSpace::Gpa, buffers[k].0, buffers[k].1 as int),
        mapped(a, space, addr, n),
    ensures
        apart_from(a, buffers, k, space, addr, n) == apart_from(b, buffers, k, space, addr, n),
{
    lemma_layout_places(a, b, AddrSpace::Gpa, buffers[k].0, buffers[k].1 as int);
    lemma_layout_places(a, b, space, addr, n);
}

/// Data that fills the buffers gets through, and leaves alone a range that is
/// apart from all of them.
proof fn lemma_scatter_frame(
    m: MemView,
    buffers: Seq<(u64, u64)>,
    i: int,
    data: Seq<u8>,
    space: AddrSpace,
    addr: u64,
    n: int,
)
    requires
        0 <= i <= buffers.len(),
        data.len() >= capacity(buffers, i),
        all_mapped(m, buffers, i),
        0 <= n,
        mapped(m, space, addr, n),
        forall|k: int|
            i <= k < buffers.len() ==> #[trigger] apart_from(m, buffers, k, space, addr, n),
    ensures
        ({
            let r = scattered(m, buffers, i, data);
            &&& r.complete
            &&& same_layout(m, r.memory)
            &&& mapped(r.memory, space, addr, n)
            &&& bytes_at(r.memory, space, addr, n) == bytes_at(m, space, addr, n)
        }),
    decreases buffers.len() - i,
{
    if i < buffers.len() && data.len() > 0 {
        let (at, len) = buffers[i];
        assert(len <= data.len());
        let here = data.take(len as int);
        let m1 = stored(m, AddrSpace::Gpa, at, here);
        assert(mapped(m, AddrSpace::Gpa, buffers[i].0, buffers[i].1 as int));
        law_memory_read_back(m, AddrSpace::Gpa, at, here);
        assert(apart_from(m, buffers, i, space, addr, n));
        law_memory_frame(m, AddrSpace::Gpa, at, here, space, addr, n);
        assert forall|k: int| i + 1 <= k < buffers.len() implies mapped(
            m1,
            AddrSpace::Gpa,
            (#[trigger] buffers[k]).0,
            buffers[k].1 as int,
        ) by {
            lemma_layout_places(m, m1, AddrSpace::Gpa, buffers[k].0, buffers[k].1 as int);
        }
        assert forall|k: int| i + 1 <= k < buffers.len() implies #[trigger] apart_from(
            m1,
            buffers,
            k,
            space,
            addr,
            n,
        ) by {
            assert(apart_from(m, buffers, k, space, addr, n));
            lemma_layout_apart(m, m1, buffers, k, space, addr, n);
        }
        lemma_scatter_frame(m1, buffers, i + 1, data.skip(len as int), space, addr, n);
    }
}

/// Data that fills the buffers ends up in the `k`th buffer with the part that is
/// its turn.
proof fn lemma_scatter_part(
    m: MemView,
    buffers: Seq<(u64, u64)>,
    i: int,
    data: Seq<u8>,
    k: int,
)
    requires
        0 <= i <= k < buffers.len(),
        data.len() >= capacity(buffers, i),
        all_mapped(m, buffers, i),
        all_apart(m, buffers),
        all_mapped(m, buffers, 0),
    ensures
        ({
            let r = scattered(m, buffers, i, data);
            let from = capacity(buffers, i) - capacity(buffers, k);
            &&& r.complete
            &&& same_layout(m, r.memory)
            &&& 0 <= from <= data.len() - buffers[k].1
            &&& mapped(r.memory, AddrSpace::Gpa, buffers[k].0, buffers[k].1 as int)
            &&& bytes_at(r.memory, AddrSpace::Gpa, buffers[k].0, buffers[k].1 as int)
                == data.subrange(from, from + buffers[k].1)
        }),
    decreases buffers.len() - i,
{
    let gpa = AddrSpace::Gpa;
    let (at, len) = buffers[i];
    assert(mapped(m, gpa, buffers[k].0, buffers[k].1 as int));
    assert(mapped(m, gpa, buffers[i].0, buffers[i].1 as int));
    if data.len() == 0 {
        lemma_capacity_zero(buffers, i, k);
        lemma_region_from(m, gpa, buffers[k].0, 0, 0);
        assert(bytes_at(m, gpa, buffers[k].0, 0) =~= data.subrange(0, 0));
    } else {
        let here = data.take(len as int);
        let m1 = stored(m, gpa, at, here);
        let rest = data.skip(len as int);
        law_memory_read_back(m, gpa, at, here);
        assert forall|j: int| 0 <= j < buffers.len() implies mapped(
            m1,
            gpa,
            (#[trigger] buffers[j]).0,
            buffers[j].1 as int,
        ) by {
            lemma_layout_places(m, m1, gpa, buffers[j].0, buffers[j].1 as int);
        }
        assert forall|j: int, l: int| 0 <= j < l < buffers.len() implies #[trigger] apart_from(
            m1,
            buffers,
            l,
            gpa,
            buffers[j].0,
            buffers[j].1 as int,
        ) by {
            assert(apart_from(m, buffers, l, gpa, buffers[j].0, buffers[j].1 as int));
            assert(mapped(m, gpa, buffers[l].0, buffers[l].1 as int));
            assert(mapped(m, gpa, buffers[j].0, buffers[j].1 as int));
            lemma_layout_apart(m, m1, buffers, l, gpa, buffers[j].0, buffers[j].1 as int);
        }
        if k == i {
            lemma_scatter_frame(m1, buffers, i + 1, rest, gpa, at, len as int);
            assert(here =~= data.subrange(0, len as int));
        } else {
            lemma_scatter_part(m1, buffers, i + 1, rest, k);
            let from = capacity(buffers, i + 1) - capacity(buffers, k);
            assert(rest.subrange(from, from + buffers[k].1) =~= data.subrange(
                from + len,
                from + len + buffers[k].1,
            ));
        }
    }
}

/// Without room, no buffer has room.
proof fn lemma_capacity_zero(buffers: Seq<(u64, u64)>, i: int, k: int)
    requires
        0 <= i <= k < buffers.len(),
        capacity(buffers, i) == 0,
    ensures
        capacity(buffers, k) == 0,
        buffers[k].1 == 0,
    decreases k - i,
{
    if i < k {
        lemma_capacity_zero(buffers, i + 1, k);
    }
}

/// Data that fills buffers that do not overlap gets through, and as much of it
/// as they take is what is then in them.
proof fn lemma_scatter_then_gather(m: MemView, buffers: Seq<(u64, u64)>, data: Seq<u8>)
    requires
        data.len() >= capacity(buffers, 0),
        all_mapped(m, buffers, 0),
        all_apart(m, buffers),
    ensures
        ({
            let r = scattered(m, buffers, 0, data);
            &&& r.complete
            &&& same_layout(m, r.memory)
            &&& gathered(r.memory, buffers) == Some(data.take(capacity(buffers, 0) as int))
        }),
{
    lemma_gather_parts(m, buffers, data, buffers.len() as int);
    assert(buffers.take(buffers.len() as int) =~= buffers);
    if buffers.len() > 0 {
        lemma_scatter_part(m, buffers, 0, data, 0);
    }
}

/// The parts of the buffers from the `i`th on that `n` bytes take up.
pub open spec fn filled(buffers: Seq<(u64, u64)>, i: int, n: nat) -> Seq<(u64, u64)>
    decreases buffers.len() - i,
{
    if i >= buffers.len() || n == 0 {
        Seq::empty()
    } else {
        let (addr, len) = buffers[i];
        if len < n {
            seq![(addr, len)] + filled(buffers, i + 1, (n - len) as nat)
        } else {
            seq![(addr, n as u64)]
        }
    }
}

/// The first buffer matters only while it is not passed.
proof fn lemma_scatter_shift(m: MemView, buffers: Seq<(u64, u64)>, i: int, data: Seq<u8>)
    requires
        1 <= i,
        0 < buffers.len(),
    ensures
        scattered(m, buffers, i, data) == scattered(m, buffers.skip(1), i - 1, data),
        capacity(buffers, i) == capacity(buffers.skip(1), i - 1),
    decreases buffers.len() - i,
{
    if i < buffers.len() {
        let (addr, len) = buffers[i];
        let n: int = if len < data.len() {
            len as int
        } else {
            data.len() as int
        };
        lemma_scatter_shift(
            stored(m, AddrSpace::Gpa, addr, data.take(n)),
            buffers,
            i + 1,
            data.skip(n),
        );
    }
}

/// What of `data` the buffers take: all of it, or as much as there is room for.
pub open spec fn taken(buffers: Seq<(u64, u64)>, data: Seq<u8>) -> Seq<u8> {
    if data.len() <= capacity(buffers, 0) {
        data
    } else {
        data.take(capacity(buffers, 0) as int)
    }
}

/// The number of bytes that the buffers take of `data`, as the used ring has it
/// (modulo 2^32).
pub open spec fn taken_len(buffers: Seq<(u64, u64)>, data: Seq<u8>) -> u32 {
    (taken(buffers, data).len() % 0x1_0000_0000) as u32
}

/// Data is written over the parts it takes up, which it fills, and nowhere else.
proof fn lemma_scatter_filled(m: MemView, buffers: Seq<(u64, u64)>, i: int, data: Seq<u8>)
    requires
        0 <= i,
    ensures
        capacity(filled(buffers, i, data.len()), 0) == if data.len() <= capacity(buffers, i) {
            data.len()
        } else {
            capacity(buffers, i)
        },
        scattered(m, buffers, i, data) == scattered(m, filled(buffers, i, data.len()), 0, data),
    decreases buffers.len() - i,
{
    let parts = filled(buffers, i, data.len());
    if i < buffers.len() && data.len() > 0 {
        let (addr, len) = buffers[i];
        if len < data.len() {
            let m1 = stored(m, AddrSpace::Gpa, addr, data.take(len as int));
            let rest = data.skip(len as int);
            lemma_scatter_filled(m1, buffers, i + 1, rest);
            assert(parts.skip(1) =~= filled(buffers, i + 1, rest.len()));
            lemma_scatter_shift(m1, parts, 1, rest);
        } else {
            let m1 = stored(m, AddrSpace::Gpa, addr, data.take(data.len() as int));
            assert(data.skip(data.len() as int).len() == 0);
            assert(capacity(parts, 1) == 0);
            assert(scattered(m1, buffers, i + 1, data.skip(data.len() as int)) == scattered(
                m1,
                parts,
                1,
                data.skip(data.len() as int),
            ));
        }
    }
}

/// What is written over buffers is what is read out of them: data gets through
/// if the parts that it takes up are mapped and do not overlap, and gathering
/// those parts gives back as much of it as the buffers take, which is all of it
/// if it fits.
pub proof fn law_scatter_then_gather(m: MemView, buffers: Seq<(u64, u64)>, data: Seq<u8>)
    requires
        all_mapped(m, filled(buffers, 0, data.len()), 0),
        all_apart(m, filled(buffers, 0, data.len())),
    ensures
        ({
            let r = scattered(m, buffers, 0, data);
            &&& r.complete
            &&& r.written == taken(buffers, data).len()
            &&& same_layout(m, r.memory)
            &&& gathered(r.memory, filled(buffers, 0, data.len())) == Some(taken(buffers, data))
        }),
{
    let parts = filled(buffers, 0, data.len());
    lemma_scatter_filled(m, buffers, 0, data);
    lemma_scatter_then_gather(m, parts, data);
    law_scatter_writes_what_fits(m, buffers, 0, data);
    assert(data.take(capacity(parts, 0) as int) =~= taken(buffers, data));
}

/// Gathering depends on nothing but the bytes in the buffers.
proof fn lemma_gather_same(a: MemView, b: MemView, buffers: Seq<(u64, u64)>)
    requires
        all_mapped(a, buffers, 0),
        all_mapped(b, buffers, 0),
        forall|k: int|
            0 <= k < buffers.len() ==> bytes_at(
                a,
                AddrSpace::Gpa,
                (#[trigger] buffers[k]).0,
                buffers[k].1 as int,
            ) == bytes_at(b, AddrSpace::Gpa, buffers[k].0, buffers[k].1 as int),
    ensures
        gathered(a, buffers) == gathered(b, buffers),
    decreases buffers.len(),
{
    if buffers.len() > 0 {
        let before = buffers.drop_last();
        assert forall|k: int| 0 <= k < before.len() implies mapped(
            a,
            AddrSpace::Gpa,
            (#[trigger] before[k]).0,
            before[k].1 as int,
        ) && mapped(b, AddrSpace::Gpa, before[k].0, before[k].1 as int) && bytes_at(
            a,
            AddrSpace::Gpa,
            before[k].0,
            before[k].1 as int,
        ) == bytes_at(b, AddrSpace::Gpa, before[k].0, before[k].1 as int) by {
            assert(before[k] == buffers[k]);
        }
        lemma_gather_same(a, b, before);
        let last = buffers.len() - 1;
        assert(buffers.last() == buffers[last]);
    }
}

/// Whether a buffer has no byte in common with what publishing a chain writes.
pub open spec fn apart_from_used(q: QueueView, m: MemView, buffer: (u64, u64)) -> bool {
    let slot = q.used_slot(q.used_idx(m)->0);
    let n = buffer.1 as int;
    &&& apart(m, AddrSpace::User, slot, 4, AddrSpace::Gpa, buffer.0, n)
    &&& apart(m, AddrSpace::User, plus(slot, 4), 4, AddrSpace::Gpa, buffer.0, n)
    &&& apart(m, AddrSpace::User, plus(q.used_addr, 2), 2, AddrSpace::Gpa, buffer.0, n)
}

/// Publishing a chain leaves buffers alone that the used ring does not run
/// into.
pub proof fn law_push_used_keeps_buffers(
    q: QueueView,
    m: MemView,
    head: u16,
    len: u32,
    buffers: Seq<(u64, u64)>,
)
    requires
        q.queue_size != 0,
        q.used_addr + 4 + 8 * q.queue_size <= u64::MAX,
        q.pushed(m, head, len).1 is Ok,
        all_mapped(m, buffers, 0),
        forall|k: int| 0 <= k < buffers.len() ==> apart_from_used(q, m, #[trigger] buffers[k]),
    ensures
        gathered(q.pushed(m, head, len).0, buffers) == gathered(m, buffers),
{
    let after = q.pushed(m, head, len).0;
    assert forall|k: int| 0 <= k < buffers.len() implies mapped(
        after,
        AddrSpace::Gpa,
        (#[trigger] buffers[k]).0,
        buffers[k].1 as int,
    ) && bytes_at(after, AddrSpace::Gpa, buffers[k].0, buffers[k].1 as int) == bytes_at(
        m,
        AddrSpace::Gpa,
        buffers[k].0,
        buffers[k].1 as int,
    ) by {
        assert(apart_from_used(q, m, buffers[k]));
        law_push_used_publishes(
            q,
            m,
            head,
            len,
            AddrSpace::Gpa,
            buffers[k].0,
            buffers[k].1 as int,
        );
    }
    lemma_gather_same(after, m, buffers);
}

/// A reply reaches the guest: if the parts of the buffers that it takes up are
/// mapped and neither overlap nor run into the used ring, and if the used ring
/// is mapped, then writing it and publishing the chain work, the guest finds the
/// reply in the buffers, as far as they take it, and the chain's head and the
/// number of bytes in the next slot of the used ring.
pub proof fn law_reply_reaches_the_guest(
    q: QueueView,
    m: MemView,
    head: u16,
    buffers: Seq<(u64, u64)>,
    data: Seq<u8>,
)
    requires
        q.queue_size != 0,
        q.used_addr + 4 + 8 * q.queue_size <= u64::MAX,
        q.used_idx(m) is Some,
        mapped(m, AddrSpace::User, q.used_slot(q.used_idx(m)->0), 4),
        mapped(m, AddrSpace::User, plus(q.used_slot(q.used_idx(m)->0), 4), 4),
        all_mapped(m, filled(buffers, 0, data.len()), 0),
        all_apart(m, filled(buffers, 0, data.len())),
        forall|k: int|
            0 <= k < filled(buffers, 0, data.len()).len() ==> apart_from_used(
                q,
                m,
                #[trigger] filled(buffers, 0, data.len())[k],
            ),
    ensures
        ({
            let parts = filled(buffers, 0, data.len());
            let r = scattered(m, buffers, 0, data);
            let idx = q.used_idx(m)->0;
            let (after, published) = q.pushed(r.memory, head, taken_len(buffers, data));
            &&& r.complete
            &&& r.written == taken(buffers, data).len()
            &&& published is Ok
            &&& q.used_idx(r.memory) == Some(idx)
            &&& q.used_idx(after) == Some(((idx + 1) % 0x1_0000) as u16)
            &&& u32_at(after, AddrSpace::User, q.used_slot(idx)) == Some(head as u32)
            &&& u32_at(after, AddrSpace::User, plus(q.used_slot(idx), 4)) == Some(
                taken_len(buffers, data),
            )
            &&& gathered(after, parts) == Some(taken(buffers, data))
        }),
{
    reveal(put);
    reveal(u16_at);
    let user = AddrSpace::User;
    let parts = filled(buffers, 0, data.len());
    let r = scattered(m, buffers, 0, data);
    let idx = q.used_idx(m)->0;
    let slot = q.used_slot(idx);
    let at = plus(q.used_addr, 2);
    let len = taken_len(buffers, data);
    law_scatter_then_gather(m, buffers, data);
    lemma_scatter_filled(m, buffers, 0, data);
    assert forall|k: int| 0 <= k < parts.len() implies #[trigger] apart_from(
        m,
        parts,
        k,
        user,
        at,
        2,
    ) by {
        assert(apart_from_used(q, m, parts[k]));
    }
    lemma_scatter_frame(m, parts, 0, data, user, at, 2);
    assert(q.used_idx(r.memory) == Some(idx));
    lemma_layout_places(m, r.memory, user, slot, 4);
    lemma_layout_places(m, r.memory, user, plus(slot, 4), 4);
    lemma_layout_places(m, r.memory, user, at, 2);
    let m1 = stored(r.memory, user, slot, le::u32_bytes(head as u32));
    let m2 = stored(m1, user, plus(slot, 4), le::u32_bytes(len));
    law_memory_read_back(r.memory, user, slot, le::u32_bytes(head as u32));
    lemma_layout_places(r.memory, m1, user, plus(slot, 4), 4);
    lemma_layout_places(r.memory, m1, user, at, 2);
    law_memory_read_back(m1, user, plus(slot, 4), le::u32_bytes(len));
    lemma_layout_places(m1, m2, user, at, 2);
    assert(q.pushed(r.memory, head, len).1 is Ok);
    law_push_used_publishes(q, r.memory, head, len, user, at, 2);
    assert forall|k: int| 0 <= k < parts.len() implies mapped(
        r.memory,
        AddrSpace::Gpa,
        (#[trigger] parts[k]).0,
        parts[k].1 as int,
    ) && apart_from_used(q, r.memory, parts[k]) by {
        assert(apart_from_used(q, m, parts[k]));
        assert(mapped(m, AddrSpace::Gpa, parts[k].0, parts[k].1 as int));
        lemma_layout_places(m, r.memory, AddrSpace::Gpa, parts[k].0, parts[k].1 as int);
    }
    law_push_used_keeps_buffers(q, r.memory, head, len, parts);
}

proof fn lemma_gather_parts(m: MemView, buffers: Seq<(u64, u64)>, data: Seq<u8>, j: int)
    requires
        0 <= j <= buffers.len(),
        data.len() >= capacity(buffers, 0),
        all_mapped(m, buffers, 0),
        all_apart(m, buffers),
    ensures
        capacity(buffers, j) <= capacity(buffers, 0),
        gathered(scattered(m, buffers, 0, data).memory, buffers.take(j)) == Some(
            data.take(capacity(buffers, 0) - capacity(buffers, j)),
        ),
    decreases j,
{
    let after = scattered(m, buffers, 0, data).memory;
    if j == 0 {
        assert(data.take(0) =~= Seq::empty());
    } else {
        lemma_gather_parts(m, buffers, data, j - 1);
        lemma_scatter_part(m, buffers, 0, data, j - 1);
        assert(buffers.take(j).drop_last() =~= buffers.take(j - 1));
        assert(buffers.take(j).last() == buffers[j - 1]);
        let from = capacity(buffers, 0) - capacity(buffers, j - 1);
        assert(data.take(from) + data.subrange(from, from + buffers[j - 1].1) =~= data.take(
            capacity(buffers, 0) - capacity(buffers, j),
        ));
    }
}

/// Whether a range has no byte in common with what publishing chains writes.
pub open spec fn clear_of_used(q: QueueView, m: MemView, space: AddrSpace, addr: u64, n: int) -> bool {
    &&& apart(m, AddrSpace::User, plus(q.used_addr, 2), 2, space, addr, n)
    &&& forall|i: u16|
        {
            let slot = #[trigger] q.used_slot(i);
            &&& apart(m, AddrSpace::User, slot, 4, space, addr, n)
            &&& apart(m, AddrSpace::User, plus(slot, 4), 4, space, addr, n)
        }
}

/// Whether a buffer has no byte in common with the rings.
pub open spec fn clear_of_rings(q: QueueView, m: MemView, buffer: (u64, u64)) -> bool {
    let n = buffer.1 as int;
    &&& clear_of_used(q, m, AddrSpace::Gpa, buffer.0, n)
    &&& apart(m, AddrSpace::User, plus(q.avail_addr, 2), 2, AddrSpace::Gpa, buffer.0, n)
    &&& forall|i: u16|
        apart(m, AddrSpace::User, #[trigger] q.avail_place(i), 2, AddrSpace::Gpa, buffer.0, n)
}

/// Whether the rings of a queue are in order: they have slots, they are mapped,
/// the used ring does not run over the end of the address space, and it does
/// not run into the available ring.
#[verifier::opaque]
pub open spec fn rings_in_order(q: QueueView, m: MemView) -> bool {
    let user = AddrSpace::User;
    &&& q.queue_size != 0
    &&& q.used_addr + 4 + 8 * q.queue_size <= u64::MAX
    &&& mapped(m, user, plus(q.avail_addr, 2), 2)
    &&& mapped(m, user, plus(q.used_addr, 2), 2)
    &&& clear_of_used(q, m, user, plus(q.avail_addr, 2), 2)
    &&& forall|i: u16|
        {
            let place = #[trigger] q.avail_place(i);
            mapped(m, user, place, 2) && clear_of_used(q, m, user, place, 2)
        }
    &&& forall|i: u16|
        {
            let slot = #[trigger] q.used_slot(i);
            mapped(m, user, slot, 4) && mapped(m, user, plus(slot, 4), 4)
        }
}

/// Whether a chain's buffers are in order for a reply: the parts that the reply
/// takes up are mapped and run neither into each other nor into the rings. The
/// reply may be larger than the buffers.
#[verifier::opaque]
pub open spec fn buffers_in_order(
    q: QueueView,
    m: MemView,
    buffers: Seq<(u64, u64)>,
    data: Seq<u8>,
) -> bool {
    let parts = filled(buffers, 0, data.len());
    &&& all_mapped(m, parts, 0)
    &&& all_apart(m, parts)
    &&& forall|k: int| 0 <= k < parts.len() ==> clear_of_rings(q, m, #[trigger] parts[k])
}

/// Memories with the same layout agree on whether a range is clear of the used
/// ring.
proof fn lemma_layout_clear(
    q: QueueView,
    a: MemView,
    b: MemView,
    space: AddrSpace,
    addr: u64,
    n: int,
)
    requires
        same_layout(a, b),
        mapped(a, space, addr, n),
        mapped(a, AddrSpace::User, plus(q.used_addr, 2), 2),
        forall|i: u16|
            {
                let slot = #[trigger] q.used_slot(i);
                mapped(a, AddrSpace::User, slot, 4) && mapped(a, AddrSpace::User, plus(slot, 4), 4)
            },
        clear_of_used(q, a, space, addr, n),
    ensures
        clear_of_used(q, b, space, addr, n),
{
    lemma_layout_places(a, b, space, addr, n);
    lemma_layout_places(a, b, AddrSpace::User, plus(q.used_addr, 2), 2);
    assert forall|i: u16|
        {
            let slot = #[trigger] q.used_slot(i);
            &&& apart(b, AddrSpace::User, slot, 4, space, addr, n)
            &&& apart(b, AddrSpace::User, plus(slot, 4), 4, space, addr, n)
        } by {
        let slot = q.used_slot(i);
        lemma_layout_places(a, b, AddrSpace::User, slot, 4);
        lemma_layout_places(a, b, AddrSpace::User, plus(slot, 4), 4);
    }
}

/// Rings stay in order as long as the layout of memory does.
proof fn lemma_layout_rings(q: QueueView, a: MemView, b: MemView)
    requires
        same_layout(a, b),
        rings_in_order(q, a),
    ensures
        rings_in_order(q, b),
{
    reveal(rings_in_order);
    let user = AddrSpace::User;
    lemma_layout_places(a, b, user, plus(q.avail_addr, 2), 2);
    lemma_layout_places(a, b, user, plus(q.used_addr, 2), 2);
    lemma_layout_clear(q, a, b, user, plus(q.avail_addr, 2), 2);
    assert forall|i: u16|
        {
            let place = #[trigger] q.avail_place(i);
            mapped(b, user, place, 2) && clear_of_used(q, b, user, place, 2)
        } by {
        lemma_layout_places(a, b, user, q.avail_place(i), 2);
        lemma_layout_clear(q, a, b, user, q.avail_place(i), 2);
    }
    assert forall|i: u16|
        {
            let slot = #[trigger] q.used_slot(i);
            mapped(b, user, slot, 4) && mapped(b, user, plus(slot, 4), 4)
        } by {
        lemma_layout_places(a, b, user, q.used_slot(i), 4);
        lemma_layout_places(a, b, user, plus(q.used_slot(i), 4), 4);
    }
}

/// A reply that is written and published leaves alone a range that is clear of
/// its buffers and of the used ring.
proof fn lemma_reply_frame(
    q: QueueView,
    m: MemView,
    head: u16,
    buffers: Seq<(u64, u64)>,
    data: Seq<u8>,
    addr: u64,
    n: int,
)
    requires
        rings_in_order(q, m),
        buffers_in_order(q, m, buffers, data),
        0 <= n,
        mapped(m, AddrSpace::User, addr, n),
        clear_of_used(q, m, AddrSpace::User, addr, n),
        forall|k: int|
            0 <= k < filled(buffers, 0, data.len()).len() ==> #[trigger] apart_from(
                m,
                filled(buffers, 0, data.len()),
                k,
                AddrSpace::User,
                addr,
                n,
            ),
        q.pushed(scattered(m, buffers, 0, data).memory, head, taken_len(buffers, data)).1 is Ok,
    ensures
        ({
            let after = q.pushed(
                scattered(m, buffers, 0, data).memory,
                head,
                taken_len(buffers, data),
            ).0;
            &&& mapped(after, AddrSpace::User, addr, n)
            &&& bytes_at(after, AddrSpace::User, addr, n) == bytes_at(m, AddrSpace::User, addr, n)
        }),
{
    reveal(rings_in_order);
    reveal(buffers_in_order);
    let user = AddrSpace::User;
    let parts = filled(buffers, 0, data.len());
    let r = scattered(m, buffers, 0, data);
    lemma_scatter_filled(m, buffers, 0, data);
    lemma_scatter_frame(m, parts, 0, data, user, addr, n);
    lemma_layout_clear(q, m, r.memory, user, addr, n);
    let idx = q.used_idx(r.memory)->0;
    let slot = q.used_slot(idx);
    assert(apart(r.memory, user, slot, 4, user, addr, n));
    law_push_used_publishes(q, r.memory, head, taken_len(buffers, data), user, addr, n);
}

/// A reply gets through, as far as the buffers take it, and is published, and
/// the rings stay in order: the used index goes up by one and its slot has the
/// head and the number of bytes written, and nothing changes in the available
/// ring.
pub proof fn law_reply_keeps_rings(
    q: QueueView,
    m: MemView,
    head: u16,
    buffers: Seq<(u64, u64)>,
    data: Seq<u8>,
)
    requires
        rings_in_order(q, m),
        buffers_in_order(q, m, buffers, data),
    ensures
        ({
            let r = scattered(m, buffers, 0, data);
            let idx = q.used_idx(m)->0;
            let (after, published) = q.pushed(r.memory, head, taken_len(buffers, data));
            &&& r.complete
            &&& r.written == taken(buffers, data).len()
            &&& published is Ok
            &&& same_layout(m, after)
            &&& rings_in_order(q, after)
            &&& q.used_idx(m) is Some
            &&& q.used_idx(after) == Some(((idx + 1) % 0x1_0000) as u16)
            &&& u32_at(after, AddrSpace::User, q.used_slot(idx)) == Some(head as u32)
            &&& u32_at(after, AddrSpace::User, plus(q.used_slot(idx), 4)) == Some(
                taken_len(buffers, data),
            )
            &&& gathered(after, filled(buffers, 0, data.len())) == Some(taken(buffers, data))
            &&& q.avail_idx(after) == q.avail_idx(m)
            &&& forall|i: u16| #[trigger] q.avail_entry(after, i) == q.avail_entry(m, i)
        }),
{
    reveal(u16_at);
    reveal(rings_in_order);
    reveal(buffers_in_order);
    let user = AddrSpace::User;
    let parts = filled(buffers, 0, data.len());
    let r = scattered(m, buffers, 0, data);
    let idx = q.used_idx(m)->0;
    let slot = q.used_slot(idx);
    let len = taken_len(buffers, data);
    let after = q.pushed(r.memory, head, len).0;
    assert(mapped(m, user, slot, 4) && mapped(m, user, plus(slot, 4), 4));
    assert forall|k: int| 0 <= k < parts.len() implies apart_from_used(
        q,
        m,
        #[trigger] parts[k],
    ) by {
        assert(clear_of_rings(q, m, parts[k]));
        assert(apart(m, user, slot, 4, AddrSpace::Gpa, parts[k].0, parts[k].1 as int));
    }
    law_reply_reaches_the_guest(q, m, head, buffers, data);
    law_scatter_then_gather(m, buffers, data);
    law_push_used_publishes(q, r.memory, head, len, user, 0, 0);
    lemma_same_layout_transitive(m, r.memory, after);
    lemma_layout_rings(q, m, after);
    assert forall|k: int| 0 <= k < parts.len() implies #[trigger] apart_from(
        m,
        parts,
        k,
        user,
        plus(q.avail_addr, 2),
        2,
    ) by {
        assert(clear_of_rings(q, m, parts[k]));
    }
    lemma_reply_frame(q, m, head, buffers, data, plus(q.avail_addr, 2), 2);
    assert forall|i: u16| #[trigger] q.avail_entry(after, i) == q.avail_entry(m, i) by {
        let place = q.avail_place(i);
        assert forall|k: int| 0 <= k < parts.len() implies #[trigger] apart_from(
            m,
            parts,
            k,
            user,
            place,
            2,
        ) by {
            assert(clear_of_rings(q, m, parts[k]));
        }
        lemma_reply_frame(q, m, head, buffers, data, place, 2);
    }
}

proof fn lemma_same_layout_transitive(a: MemView, b: MemView, c: MemView)
    requires
        same_layout(a, b),
        same_layout(b, c),
    ensures
        same_layout(a, c),
{
    assert forall|i: int| 0 <= i < a.len() implies (#[trigger] a[i]).gpa == c[i].gpa
        && a[i].user_addr == c[i].user_addr && a[i].bytes.len() == c[i].bytes.len() by {
        assert(b[i].gpa == c[i].gpa);
    }
}

/// Where a queue is makes no difference to its rings.
pub(crate) proof fn lemma_same_rings(
    q: QueueView,
    at: u16,
    m: MemView,
    buffers: Seq<(u64, u64)>,
    data: Seq<u8>,
)
    ensures
        ({
            let now = QueueView { last_avail_idx: at, ..q };
            &&& rings_in_order(now, m) == rings_in_order(q, m)
            &&& buffers_in_order(now, m, buffers, data) == buffers_in_order(q, m, buffers, data)
        }),
{
    reveal(rings_in_order);
    reveal(buffers_in_order);
    let now = QueueView { last_avail_idx: at, ..q };
    assert(forall|i: u16| #[trigger] now.used_slot(i) == q.used_slot(i));
    assert(forall|i: u16| #[trigger] q.used_slot(i) == now.used_slot(i));
    assert(forall|i: u16| #[trigger] now.avail_place(i) == q.avail_place(i));
    assert(forall|i: u16| #[trigger] q.avail_place(i) == now.avail_place(i));
    assert forall|space: AddrSpace, addr: u64, n: int|
        #[trigger] clear_of_used(now, m, space, addr, n) == clear_of_used(q, m, space, addr, n) by {}
    assert forall|space: AddrSpace, addr: u64, n: int|
        #[trigger] clear_of_used(q, m, space, addr, n) == clear_of_used(now, m, space, addr, n) by {}
    assert forall|b: (u64, u64)| #[trigger] clear_of_rings(now, m, b) == clear_of_rings(q, m, b) by {}
    assert forall|b: (u64, u64)| #[trigger] clear_of_rings(q, m, b) == clear_of_rings(now, m, b) by {}
}

/// Where a queue is makes no difference to what publishing a chain does.
proof fn lemma_same_pushed(q: QueueView, at: u16, m: MemView, head: u16, len: u32)
    ensures
        (QueueView { last_avail_idx: at, ..q }).pushed(m, head, len) == q.pushed(m, head, len),
{
}

/// Whether the guest's index of the available ring is `avail`, and the index of
/// the used ring is `used`.
#[verifier::opaque]
pub open spec fn indices(q: QueueView, m: MemView, avail: u16, used: u16) -> bool {
    q.avail_idx(m) == Some(avail) && q.used_idx(m) == Some(used)
}

/// Whether the available ring has the chain `head` at an index.
#[verifier::opaque]
pub open spec fn offered_at(q: QueueView, m: MemView, idx: u16, head: u16) -> bool {
    q.avail_entry(m, idx) == Some(head)
}

/// Whether the available ring is the same in two memories.
#[verifier::opaque]
pub open spec fn same_offers(q: QueueView, a: MemView, b: MemView) -> bool {
    &&& q.avail_idx(a) == q.avail_idx(b)
    &&& forall|i: u16| #[trigger] q.avail_entry(a, i) == q.avail_entry(b, i)
}

/// Whether the used ring has the chain `head` at an index, with `len` bytes
/// written.
#[verifier::opaque]
pub open spec fn published_at(q: QueueView, m: MemView, idx: u16, head: u16, len: u32) -> bool {
    let slot = q.used_slot(idx);
    &&& u32_at(m, AddrSpace::User, slot) == Some(head as u32)
    &&& u32_at(m, AddrSpace::User, plus(slot, 4)) == Some(len)
}

/// Whether a reply is in the buffers that it was written over, as far as they
/// take it.
#[verifier::opaque]
pub open spec fn reply_is_in(m: MemView, buffers: Seq<(u64, u64)>, data: Seq<u8>) -> bool {
    gathered(m, filled(buffers, 0, data.len())) == Some(taken(buffers, data))
}

/// What [`law_reply_keeps_rings`] says, in the words above, wherever the queue
/// is. `q` is the queue but for where it is.
pub(crate) proof fn lemma_reply_step(
    q: QueueView,
    at: u16,
    m: MemView,
    head: u16,
    buffers: Seq<(u64, u64)>,
    data: Seq<u8>,
    avail: u16,
    used: u16,
) -> (after: MemView)
    requires
        rings_in_order(q, m),
        buffers_in_order(q, m, buffers, data),
        indices(q, m, avail, used),
    ensures
        (QueueView { last_avail_idx: at, ..q }).finished(m, head, buffers, data) == (
            after,
            Ok::<(), VirtqueueError>(()),
        ),
        rings_in_order(q, after),
        same_offers(q, m, after),
        indices(q, after, avail, ((used + 1) % 0x1_0000) as u16),
        published_at(q, after, used, head, taken_len(buffers, data)),
        reply_is_in(after, buffers, data),
{
    let memory = scattered(m, buffers, 0, data).memory;
    let len = taken_len(buffers, data);
    let after = q.pushed(memory, head, len).0;
    law_reply_keeps_rings(q, m, head, buffers, data);
    assert(q.used_idx(m) == Some(used) && q.avail_idx(m) == Some(avail)) by {
        reveal(indices);
    }
    assert(indices(q, after, avail, ((used + 1) % 0x1_0000) as u16)) by {
        reveal(indices);
    }
    assert(same_offers(q, m, after)) by {
        reveal(same_offers);
    }
    assert(published_at(q, after, used, head, len)) by {
        reveal(published_at);
    }
    assert(reply_is_in(after, buffers, data)) by {
        reveal(reply_is_in);
    }
    lemma_same_pushed(q, at, memory, head, len);
    lemma_finished(QueueView { last_avail_idx: at, ..q }, m, head, buffers, data);
    after
}

/// Completing a chain with data that gets through.
proof fn lemma_finished(
    q: QueueView,
    m: MemView,
    head: u16,
    buffers: Seq<(u64, u64)>,
    data: Seq<u8>,
)
    requires
        scattered(m, buffers, 0, data).complete,
        scattered(m, buffers, 0, data).written == taken(buffers, data).len(),
    ensures
        q.finished(m, head, buffers, data) == q.pushed(
            scattered(m, buffers, 0, data).memory,
            head,
            taken_len(buffers, data),
        ),
{
    reveal(QueueView::finished);
}

/// A chain that is completed is published, be the reply cut short or not: the
/// used index goes up by one, and the slot it was at holds the chain's head and
/// the number of bytes that were written. Without data the buffers stay as they
/// are.
pub proof fn law_finished_chain_is_published(
    q: QueueView,
    m: MemView,
    head: u16,
    buffers: Seq<(u64, u64)>,
    data: Seq<u8>,
)
    requires
        q.queue_size != 0,
        q.used_addr + 4 + 8 * q.queue_size <= u64::MAX,
        q.finished(m, head, buffers, data).1 is Ok,
    ensures
        ({
            let after = q.finished(m, head, buffers, data).0;
            let r = scattered(m, buffers, 0, data);
            let idx = q.used_idx(r.memory);
            &&& r.complete
            &&& idx is Some
            &&& q.used_idx(after) == Some(((idx->0 + 1) % 0x1_0000) as u16)
            &&& u32_at(after, AddrSpace::User, q.used_slot(idx->0)) == Some(head as u32)
            &&& u32_at(after, AddrSpace::User, plus(q.used_slot(idx->0), 4)) == Some(
                (r.written % 0x1_0000_0000) as u32,
            )
            &&& data.len() == 0 ==> r.memory == m && r.written == 0
        }),
{
    reveal(QueueView::finished);
    let r = scattered(m, buffers, 0, data);
    law_push_used_publishes(
        q,
        r.memory,
        head,
        (r.written % 0x1_0000_0000) as u32,
        AddrSpace::User,
        0,
        0,
    );
}

/// The chain that is taken next is the one that the available ring has where
/// the queue is. `q` is the queue but for where it is.
pub(crate) proof fn lemma_next_offer(q: QueueView, at: u16, m: MemView, avail: u16, used: u16)
    requires
        indices(q, m, avail, used),
    ensures
        ({
            let now = QueueView { last_avail_idx: at, ..q };
            &&& avail == at ==> now.popped(m) == Ok::<Option<u16>, VirtqueueError>(None)
                && now.after_pop(m) == now
            &&& now.popped(m) matches Ok(Some(head)) ==> offered_at(q, m, at, head)
                && now.after_pop(m) == now.advanced()
        }),
{
    reveal(indices);
    reveal(offered_at);
    lemma_pop_at(q, m, at);
}

/// What the available ring has, it has in every memory where it is the same.
pub(crate) proof fn lemma_same_offers(q: QueueView, a: MemView, b: MemView, c: MemView, idx: u16, head: u16)
    requires
        same_offers(q, a, b),
    ensures
        same_offers(q, a, a),
        same_offers(q, b, c) ==> same_offers(q, a, c),
        offered_at(q, b, idx, head) ==> offered_at(q, a, idx, head),
{
    reveal(same_offers);
    reveal(offered_at);
}

/// How many bytes the first `k` buffers have.
pub open spec fn room_before(buffers: Seq<(u64, u64)>, k: int) -> int
    decreases k,
{
    if k <= 0 {
        0
    } else {
        room_before(buffers, k - 1) + buffers[k - 1].1
    }
}

/// The room before a buffer and from it on is all the room.
proof fn lemma_room(buffers: Seq<(u64, u64)>, k: int)
    requires
        0 <= k <= buffers.len(),
    ensures
        room_before(buffers, k) + capacity(buffers, k) == capacity(buffers, 0),
    decreases k,
{
    if k > 0 {
        lemma_room(buffers, k - 1);
    }
}

/// A request is the bytes of its buffers, one buffer after another: the `k`th
/// buffer's stand behind as many bytes as the buffers before it have.
pub proof fn law_gathered_bytes_are_in_order(m: MemView, buffers: Seq<(u64, u64)>, k: int)
    requires
        0 <= k < buffers.len(),
        forall|j: int|
            0 <= j < buffers.len() ==> mapped(
                m,
                AddrSpace::Gpa,
                (#[trigger] buffers[j]).0,
                buffers[j].1 as int,
            ),
    ensures
        ({
            let from = room_before(buffers, k);
            &&& gathered(m, buffers) matches Some(all)
            &&& all.len() == room_before(buffers, buffers.len() as int)
            &&& 0 <= from <= from + buffers[k].1 <= all.len()
            &&& all.subrange(from, from + buffers[k].1) == bytes_at(
                m,
                AddrSpace::Gpa,
                buffers[k].0,
                buffers[k].1 as int,
            )
        }),
    decreases buffers.len(),
{
    let before = buffers.drop_last();
    let n = before.len() as int;
    assert forall|j: int| 0 <= j < before.len() implies mapped(
        m,
        AddrSpace::Gpa,
        (#[trigger] before[j]).0,
        before[j].1 as int,
    ) by {
        assert(before[j] == buffers[j]);
    }
    lemma_room_same(before, buffers, n);
    let last = buffers[n];
    assert(mapped(m, AddrSpace::Gpa, buffers[n].0, buffers[n].1 as int));
    lemma_region_from(m, AddrSpace::Gpa, last.0, last.1 as int, 0);
    if n > 0 {
        let j = if k < n {
            k
        } else {
            0
        };
        law_gathered_bytes_are_in_order(m, before, j);
        lemma_room_same(before, buffers, j);
    }
    let b = gathered(m, before)->0;
    let all = gathered(m, buffers)->0;
    assert(b.len() == room_before(buffers, n));
    if k < n {
        let from = room_before(buffers, k);
        assert(before[k] == buffers[k]);
        assert(all.subrange(from, from + buffers[k].1) =~= b.subrange(from, from + buffers[k].1));
    } else {
        assert(all.subrange(b.len() as int, all.len() as int) =~= bytes_at(
            m,
            AddrSpace::Gpa,
            last.0,
            last.1 as int,
        ));
    }
}

proof fn lemma_room_same(a: Seq<(u64, u64)>, b: Seq<(u64, u64)>, k: int)
    requires
        0 <= k <= a.len() <= b.len(),
        forall|j: int| 0 <= j < a.len() ==> #[trigger] a[j] == b[j],
    ensures
        room_before(a, k) == room_before(b, k),
    decreases k,
{
    if k > 0 {
        lemma_room_same(a, b, k - 1);
        assert(a[k - 1] == b[k - 1]);
    }
}

/// A reply is laid over the buffers in their order, each filled before the next:
/// the `k`th gets the part of the reply that stands behind as many bytes as the
/// buffers before it have. This is of a reply that is as large as the buffers or
/// larger; [`law_scatter_fills_from_the_front`] is of every reply.
pub proof fn law_scatter_fills_in_order(
    m: MemView,
    buffers: Seq<(u64, u64)>,
    data: Seq<u8>,
    k: int,
)
    requires
        0 <= k < buffers.len(),
        data.len() >= room_before(buffers, buffers.len() as int),
        all_mapped(m, buffers, 0),
        all_apart(m, buffers),
    ensures
        ({
            let r = scattered(m, buffers, 0, data);
            let from = room_before(buffers, k);
            &&& r.complete
            &&& r.written == room_before(buffers, buffers.len() as int)
            &&& 0 <= from <= data.len() - buffers[k].1
            &&& bytes_at(r.memory, AddrSpace::Gpa, buffers[k].0, buffers[k].1 as int)
                == data.subrange(from, from + buffers[k].1)
        }),
{
    lemma_room(buffers, k);
    lemma_room(buffers, buffers.len() as int);
    lemma_scatter_part(m, buffers, 0, data, k);
    law_scatter_writes_what_fits(m, buffers, 0, data);
}

/// However large a reply is, it takes up its buffers from the first one on: those
/// before the one that it ends in are filled, and that one has the rest of it.
pub proof fn law_scatter_fills_from_the_front(
    m: MemView,
    buffers: Seq<(u64, u64)>,
    data: Seq<u8>,
    k: int,
)
    requires
        0 <= k < filled(buffers, 0, data.len()).len(),
        all_mapped(m, filled(buffers, 0, data.len()), 0),
        all_apart(m, filled(buffers, 0, data.len())),
    ensures
        ({
            let r = scattered(m, buffers, 0, data);
            let from = room_before(buffers, k);
            let n = if from + buffers[k].1 <= data.len() {
                buffers[k].1 as int
            } else {
                data.len() - from
            };
            &&& r.complete
            &&& k < buffers.len()
            &&& 0 <= from <= from + n <= data.len()
            &&& bytes_at(r.memory, AddrSpace::Gpa, buffers[k].0, n) == data.subrange(
                from,
                from + n,
            )
        }),
{
    let parts = filled(buffers, 0, data.len());
    lemma_scatter_filled(m, buffers, 0, data);
    lemma_scatter_part(m, parts, 0, data, k);
    lemma_room(parts, k);
    lemma_filled(buffers, 0, data.len(), k);
}

/// What the parts are that some bytes take up of the buffers from the `i`th on.
proof fn lemma_filled(buffers: Seq<(u64, u64)>, i: int, n: nat, k: int)
    requires
        0 <= i,
        0 <= k < filled(buffers, i, n).len(),
    ensures
        ({
            let parts = filled(buffers, i, n);
            let from = room_before(buffers, i + k) - room_before(buffers, i);
            &&& i + k < buffers.len()
            &&& parts[k].0 == buffers[i + k].0
            &&& room_before(parts, k) == from
            &&& 0 <= from <= n
            &&& parts[k].1 as int == if from + buffers[i + k].1 <= n {
                buffers[i + k].1 as int
            } else {
                n - from
            }
        }),
    decreases k,
{
    let parts = filled(buffers, i, n);
    let (addr, len) = buffers[i];
    if k > 0 {
        let rest = filled(buffers, i + 1, (n - len) as nat);
        assert(parts == seq![(addr, len)] + rest);
        lemma_filled(buffers, i + 1, (n - len) as nat, k - 1);
        lemma_room_shift(parts, k);
        assert(parts.skip(1) =~= rest);
        lemma_room_step(buffers, i);
    } else {
        reveal_with_fuel(room_before, 2);
    }
}

proof fn lemma_room_step(buffers: Seq<(u64, u64)>, i: int)
    requires
        0 <= i,
    ensures
        room_before(buffers, i + 1) == room_before(buffers, i) + buffers[i].1,
{
}

proof fn lemma_room_shift(buffers: Seq<(u64, u64)>, k: int)
    requires
        0 < k <= buffers.len(),
    ensures
        room_before(buffers, k) == buffers[0].1 + room_before(buffers.skip(1), k - 1),
    decreases k,
{
    if k > 1 {
        lemma_room_shift(buffers, k - 1);
        assert(buffers.skip(1)[k - 2] == buffers[k - 1]);
    } else {
        reveal_with_fuel(room_before, 2);
    }
}

/// A reply changes nothing in memory but the parts of the buffers that it takes
/// up.
pub proof fn law_scatter_leaves_the_rest_alone(
    m: MemView,
    buffers: Seq<(u64, u64)>,
    data: Seq<u8>,
    space: AddrSpace,
    addr: u64,
    n: int,
)
    requires
        all_mapped(m, filled(buffers, 0, data.len()), 0),
        0 <= n,
        mapped(m, space, addr, n),
        forall|k: int|
            0 <= k < filled(buffers, 0, data.len()).len() ==> #[trigger] apart_from(
                m,
                filled(buffers, 0, data.len()),
                k,
                space,
                addr,
                n,
            ),
    ensures
        bytes_at(scattered(m, buffers, 0, data).memory, space, addr, n) == bytes_at(
            m,
            space,
            addr,
            n,
        ),
{
    lemma_scatter_filled(m, buffers, 0, data);
    lemma_scatter_frame(m, filled(buffers, 0, data.len()), 0, data, space, addr, n);
}

/// Buffers can be gathered exactly if all of them are mapped.
pub proof fn law_only_mapped_buffers_are_gathered(m: MemView, buffers: Seq<(u64, u64)>)
    ensures
        gathered(m, buffers) is Some <==> forall|k: int|
            0 <= k < buffers.len() ==> mapped(
                m,
                AddrSpace::Gpa,
                (#[trigger] buffers[k]).0,
                buffers[k].1 as int,
            ),
    decreases buffers.len(),
{
    if buffers.len() > 0 {
        let before = buffers.drop_last();
        law_only_mapped_buffers_are_gathered(m, before);
        assert forall|k: int| 0 <= k < before.len() implies before[k] == #[trigger] buffers[k] by {}
        assert(buffers.last() == buffers[before.len() as int]);
    }
}

/// A reply whose first bytes would go where no memory is mapped is not written, and its
/// chain is not published.
pub proof fn law_unmapped_buffer_is_out_of_bounds(
    q: QueueView,
    m: MemView,
    head: u16,
    buffers: Seq<(u64, u64)>,
    data: Seq<u8>,
)
    requires
        buffers.len() > 0,
        data.len() > 0,
        !mapped(
            m,
            AddrSpace::Gpa,
            buffers[0].0,
            if buffers[0].1 < data.len() {
                buffers[0].1 as int
            } else {
                data.len() as int
            },
        ),
    ensures
        q.finished(m, head, buffers, data) == (
            m,
            Err::<(), _>(VirtqueueError::OutOfBounds),
        ),
{
    reveal(QueueView::finished);
}

/// A chain cannot be published where the index of the used ring, or the slot that is
/// next, is not mapped; nothing is written.
pub proof fn law_unmapped_used_ring_is_out_of_bounds(
    q: QueueView,
    m: MemView,
    head: u16,
    len: u32,
    idx: u16,
)
    requires
        q.queue_size != 0,
        q.used_addr + 4 + 8 * q.queue_size <= u64::MAX,
    ensures
        ({
            let lost = (m, Err::<(), _>(VirtqueueError::OutOfBounds));
            let at = (q.used_addr + 2) as u64;
            let slot = (q.used_addr + 4 + 8 * (idx % q.queue_size)) as u64;
            &&& !mapped(m, AddrSpace::User, at, 2) ==> q.pushed(m, head, len) == lost
            &&& u16_at(m, AddrSpace::User, at) == Some(idx) && !mapped(m, AddrSpace::User, slot, 4)
                ==> q.pushed(m, head, len) == lost
        }),
{
    reveal(put);
    reveal(u16_at);
    assert(idx % q.queue_size < q.queue_size);
}

} // verus!
