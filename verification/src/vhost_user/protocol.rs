//! What the back-end owes to the front-end and to the guest, from the bytes of a
//! message, or of the rings, to what comes of them. The numbers are those of the
//! vhost-user protocol.
use crate::error::{ProtoError, ProtoResult};
use crate::fuse::dispatch::{Progress, Reply};
use crate::le;
use crate::vhost_user::connection::{message_bytes, Received};
use crate::vhost_user::header::{header_bytes, law_header_roundtrip, request_of, MsgHeader};
use crate::vhost_user::memory::{mapped, u16_at, AddrSpace, MemView};
use crate::vhost_user::payload::{regions_bytes, vring_fd_of, MemoryRegion, VringState};
use crate::vhost_user::server::{
    action_for, vrings_after, Action, ActionView, InFlightView, ServerAction,
    ServerView, SlotView, Turn, TurnView,
};
use crate::vhost_user::virtqueue::{
    are_buffers_of, gathered, is_chain, law_chain_lists_its_buffers_in_order,
    law_gathered_bytes_are_in_order, law_next_chain_is_in_the_available_ring, Desc, QueueView,
    VirtqueueError,
};
use vstd::prelude::*;

verus! {

/// What a message with this request code and payload calls for.
pub open spec fn answer<K>(
    vrings: Seq<SlotView<K>>,
    code: u32,
    payload: Seq<u8>,
    fds: Seq<K>,
) -> ProtoResult<ActionView<K>> {
    action_for(vrings, request_of(code)->Ok_0, payload, fds)
}

/// The vrings after a message with this request code and payload.
pub open spec fn told<K>(
    vrings: Seq<SlotView<K>>,
    code: u32,
    payload: Seq<u8>,
    fds: Seq<K>,
) -> Seq<SlotView<K>> {
    vrings_after(vrings, request_of(code)->Ok_0, payload, fds)
}

/// Whether a message is the reply to the request with this code: the code, the
/// flags of a reply (version 1, reply), the length of the body, and the body.
pub open spec fn is_reply(message: Seq<u8>, code: u32, body: Seq<u8>) -> bool {
    &&& message.len() == 12 + body.len()
    &&& le::le32_at(message, 0) == code
    &&& le::le32_at(message, 4) == 5
    &&& le::le32_at(message, 8) == body.len()
    &&& message.skip(12) == body
}

/// A message on the wire is the request code, the flags and the length of the
/// payload, each in four bytes, and the payload.
pub proof fn law_message_layout(h: MsgHeader, payload: Seq<u8>)
    ensures
        ({
            let w = message_bytes(h, payload);
            &&& w.len() == 12 + payload.len()
            &&& le::le32_at(w, 0) == h.request
            &&& le::le32_at(w, 4) == h.flags
            &&& le::le32_at(w, 8) == h.size
            &&& w.skip(12) == payload
        }),
{
    let w = message_bytes(h, payload);
    law_header_roundtrip(h);
    assert(w.subrange(0, 12) =~= header_bytes(h));
    le::lemma_le_shift(w, 0, 12, 0);
    le::lemma_le_shift(w, 0, 12, 4);
    le::lemma_le_shift(w, 0, 12, 8);
    assert(w.skip(12) =~= payload);
}

/// A vring of which nothing was heard has no size, no queue, no descriptors and base zero,
/// and is not enabled.
pub proof fn law_vrings_start_with_nothing<K>()
    ensures
        ({
            let slot = SlotView::<K>::fresh();
            &&& slot.queue_size is None
            &&& slot.pending_avail_base == 0
            &&& slot.queue is None
            &&& slot.kick is None
            &&& slot.call is None
            &&& !slot.enabled
        }),
{
}

/// The requests have the numbers 1 to 18, and no other number is a request.
pub proof fn law_known_requests(code: u32)
    ensures
        request_of(code) is Ok <==> 1 <= code <= 18,
        request_of(code) matches Err(e) ==> e == ProtoError::UnknownRequest(code),
{
}

/// The front-end is told the features (1): protocol features (bit 30) and version
/// 1 (bit 32). It is told that there are no protocol features (15), and that there
/// are two queues (17). Telling changes nothing.
pub proof fn law_features_are_told<K>(vrings: Seq<SlotView<K>>, payload: Seq<u8>, fds: Seq<K>)
    ensures
        answer(vrings, 1, payload, fds) matches Ok(Action::Reply(message)) && is_reply(
            message,
            1,
            le::u64_bytes(0x1_4000_0000),
        ),
        answer(vrings, 15, payload, fds) matches Ok(Action::Reply(message)) && is_reply(
            message,
            15,
            le::u64_bytes(0),
        ),
        answer(vrings, 17, payload, fds) matches Ok(Action::Reply(message)) && is_reply(
            message,
            17,
            le::u64_bytes(2),
        ),
        told(vrings, 1, payload, fds) == vrings,
        told(vrings, 15, payload, fds) == vrings,
        told(vrings, 17, payload, fds) == vrings,
{
    law_message_layout(MsgHeader { request: 1, flags: 5, size: 8 }, le::u64_bytes(0x1_4000_0000));
    law_message_layout(MsgHeader { request: 15, flags: 5, size: 8 }, le::u64_bytes(0));
    law_message_layout(MsgHeader { request: 17, flags: 5, size: 8 }, le::u64_bytes(2));
}

/// A memory table (5) is a count, four bytes of padding, and the regions, 32 bytes
/// each. If it is whole, and as many descriptors came with it as it has regions,
/// the regions are to be mapped, each from the descriptor at its own position:
/// the `i`th from the `i`th that was received. Otherwise it is refused. Either
/// way no vring changes.
pub proof fn law_each_region_has_its_descriptor<K>(
    vrings: Seq<SlotView<K>>,
    payload: Seq<u8>,
    fds: Seq<K>,
)
    ensures
        ({
            let n = le::le32_at(payload, 0);
            let whole = payload.len() >= 8 && payload.len() >= 8 + 32 * n && fds.len() == n;
            &&& whole ==> {
                &&& answer(vrings, 5, payload, fds) matches Ok(
                    Action::MapMemory { regions, fds: backing },
                )
                &&& regions.len() == n
                &&& backing.len() == n
                &&& forall|i: int|
                    #![trigger regions[i]]
                    #![trigger backing[i]]
                    0 <= i < n ==> {
                        &&& backing[i] == fds[i]
                        &&& regions[i].guest_phys_addr == le::le64_at(payload, 8 + 32 * i)
                        &&& regions[i].memory_size == le::le64_at(payload, 16 + 32 * i)
                        &&& regions[i].userspace_addr == le::le64_at(payload, 24 + 32 * i)
                        &&& regions[i].mmap_offset == le::le64_at(payload, 32 + 32 * i)
                    }
            }
            &&& !whole ==> answer(vrings, 5, payload, fds) == Err::<ActionView<K>, _>(
                ProtoError::Truncated,
            )
            &&& told(vrings, 5, payload, fds) == vrings
        }),
{
}

/// A front-end that sends a memory table, with a descriptor for each region,
/// has exactly those regions mapped from exactly those descriptors.
pub proof fn law_memory_table_is_mapped_as_sent<K>(
    vrings: Seq<SlotView<K>>,
    regions: Seq<MemoryRegion>,
    fds: Seq<K>,
)
    requires
        regions.len() == fds.len(),
        regions.len() < 0x1_0000_0000,
    ensures
        answer(vrings, 5, regions_bytes(regions), fds) matches Ok(
            Action::MapMemory { regions: mapped, fds: backing },
        ) && mapped == regions && backing == fds,
{
    crate::vhost_user::payload::law_memory_regions_roundtrip(regions);
}

/// Whether nothing but the `i`th vring changed.
pub open spec fn only_changed<K>(
    before: Seq<SlotView<K>>,
    after: Seq<SlotView<K>>,
    i: int,
) -> bool {
    &&& after.len() == before.len()
    &&& forall|j: int|
        0 <= j < before.len() && j != i ==> #[trigger] after[j] == before[j]
}

/// The size (8), the base (10) and the switch (18) of a vring come with its index,
/// in the first four bytes, and the value, in the next four. A size or base is
/// taken modulo 2^16. The base is where the queue is, at once if there is one, and
/// otherwise when it is built. A vring is enabled by any value but zero. Each
/// changes that and nothing else.
pub proof fn law_vring_state_is_taken<K>(
    vrings: Seq<SlotView<K>>,
    payload: Seq<u8>,
    fds: Seq<K>,
)
    requires
        payload.len() >= 8,
        le::le32_at(payload, 0) < vrings.len(),
    ensures
        ({
            let i = le::le32_at(payload, 0) as int;
            let num = le::le32_at(payload, 4);
            let was = vrings[i];
            let sized = told(vrings, 8, payload, fds);
            let based = told(vrings, 10, payload, fds);
            let switched = told(vrings, 18, payload, fds);
            &&& only_changed(vrings, sized, i)
            &&& sized[i].queue_size matches Some(n) && n as int == num as int % 0x1_0000
            &&& sized[i].pending_avail_base == was.pending_avail_base
            &&& sized[i].queue == was.queue
            &&& sized[i].kick == was.kick
            &&& sized[i].call == was.call
            &&& sized[i].enabled == was.enabled
            &&& only_changed(vrings, based, i)
            &&& based[i].pending_avail_base as int == num as int % 0x1_0000
            &&& based[i].queue_size == was.queue_size
            &&& based[i].kick == was.kick
            &&& based[i].call == was.call
            &&& based[i].enabled == was.enabled
            &&& was.queue is None <==> based[i].queue is None
            &&& was.queue matches Some(q) ==> {
                let now = based[i].queue->0;
                &&& now.last_avail_idx as int == num as int % 0x1_0000
                &&& now.desc_addr == q.desc_addr
                &&& now.avail_addr == q.avail_addr
                &&& now.used_addr == q.used_addr
                &&& now.queue_size == q.queue_size
            }
            &&& only_changed(vrings, switched, i)
            &&& switched[i].enabled <==> num != 0
            &&& switched[i].queue_size == was.queue_size
            &&& switched[i].pending_avail_base == was.pending_avail_base
            &&& switched[i].queue == was.queue
            &&& switched[i].kick == was.kick
            &&& switched[i].call == was.call
            &&& answer(vrings, 8, payload, fds) == Ok::<ActionView<K>, ProtoError>(Action::Nothing)
            &&& answer(vrings, 10, payload, fds) == Ok::<ActionView<K>, ProtoError>(Action::Nothing)
            &&& answer(vrings, 18, payload, fds) == Ok::<ActionView<K>, ProtoError>(Action::Nothing)
        }),
{
}

/// The addresses of a vring (9) come with its index, in the first four bytes: the
/// descriptor table at 8, the used ring at 16, and the available ring at 24. If
/// its size is known, its queue has its parts there, has that size, and starts at
/// the base that was set. If not, nothing changes.
pub proof fn law_vring_is_built_where_it_is<K>(
    vrings: Seq<SlotView<K>>,
    payload: Seq<u8>,
    fds: Seq<K>,
)
    requires
        payload.len() >= 40,
        le::le32_at(payload, 0) < vrings.len(),
    ensures
        ({
            let i = le::le32_at(payload, 0) as int;
            let was = vrings[i];
            let after = told(vrings, 9, payload, fds);
            &&& only_changed(vrings, after, i)
            &&& was.queue_size is None ==> after == vrings
            &&& was.queue_size matches Some(n) ==> {
                &&& after[i].queue matches Some(q)
                &&& q.desc_addr == le::le64_at(payload, 8)
                &&& q.used_addr == le::le64_at(payload, 16)
                &&& q.avail_addr == le::le64_at(payload, 24)
                &&& q.queue_size == n
                &&& q.last_avail_idx == was.pending_avail_base
            }
            &&& after[i].queue_size == was.queue_size
            &&& after[i].pending_avail_base == was.pending_avail_base
            &&& after[i].kick == was.kick
            &&& after[i].call == was.call
            &&& after[i].enabled == was.enabled
            &&& answer(vrings, 9, payload, fds) == Ok::<ActionView<K>, ProtoError>(Action::Nothing)
        }),
{
    let i = le::le32_at(payload, 0) as int;
    if vrings[i].queue_size is None {
        assert(told(vrings, 9, payload, fds) =~= vrings);
    }
}

/// The descriptors of a vring, the one by which the guest kicks us (12) and the
/// one by which we call the guest (13), come with its index in the first byte. The
/// lowest bit of the second byte says that there is none. Each is the first that
/// came with the message, replaces what was there before, and changes nothing
/// else.
pub proof fn law_vring_descriptors_are_taken<K>(
    vrings: Seq<SlotView<K>>,
    payload: Seq<u8>,
    fds: Seq<K>,
)
    requires
        payload.len() >= 8,
        payload[0] < vrings.len(),
    ensures
        ({
            let i = payload[0] as int;
            let was = vrings[i];
            let fd = if payload[1] % 2 == 1 || fds.len() == 0 {
                None
            } else {
                Some(fds[0])
            };
            let kicked = told(vrings, 12, payload, fds);
            let called = told(vrings, 13, payload, fds);
            &&& only_changed(vrings, kicked, i)
            &&& kicked[i].kick == fd
            &&& kicked[i].call == was.call
            &&& kicked[i].queue_size == was.queue_size
            &&& kicked[i].pending_avail_base == was.pending_avail_base
            &&& kicked[i].queue == was.queue
            &&& kicked[i].enabled == was.enabled
            &&& only_changed(vrings, called, i)
            &&& called[i].call == fd
            &&& called[i].kick == was.kick
            &&& called[i].queue_size == was.queue_size
            &&& called[i].pending_avail_base == was.pending_avail_base
            &&& called[i].queue == was.queue
            &&& called[i].enabled == was.enabled
            &&& answer(vrings, 12, payload, fds) == Ok::<ActionView<K>, ProtoError>(Action::Nothing)
            &&& answer(vrings, 13, payload, fds) == Ok::<ActionView<K>, ProtoError>(Action::Nothing)
        }),
{
    lemma_descriptor_word(payload);
}

/// Which vring a descriptor is for, and whether there is one.
proof fn lemma_descriptor_word(payload: Seq<u8>)
    ensures
        vring_fd_of(le::le64_at(payload, 0)).index == payload[0],
        vring_fd_of(le::le64_at(payload, 0)).no_fd == (payload[1] % 2 == 1),
{
    let u = le::le64_at(payload, 0);
    le::law_least_significant_byte_first(payload, 0, 0, 0, 0);
    assert((u & 0x100u64 != 0) == (u / 0x100 % 2 == 1)) by (bit_vector);
    assert(u % 0x100 == payload[0]);
    assert(u / 0x100 % 2 == payload[1] % 2);
}

/// The base of a vring (11) is told to the front-end that asks for it by its
/// index: how far its available ring was consumed, or zero if it is not set up or
/// not there. Asking changes nothing.
pub proof fn law_base_is_told<K>(vrings: Seq<SlotView<K>>, payload: Seq<u8>, fds: Seq<K>)
    requires
        payload.len() >= 8,
    ensures
        ({
            let i = le::le32_at(payload, 0);
            let base: int = if i < vrings.len() && vrings[i as int].queue is Some {
                vrings[i as int].queue->0.last_avail_idx as int
            } else {
                0
            };
            &&& answer(vrings, 11, payload, fds) matches Ok(Action::Reply(message))
            &&& is_reply(message, 11, message.skip(12))
            &&& message.len() == 20
            &&& le::le32_at(message, 12) == i
            &&& le::le32_at(message, 16) as int == base
            &&& told(vrings, 11, payload, fds) == vrings
        }),
{
    let i = le::le32_at(payload, 0);
    let base = crate::vhost_user::server::base_of(vrings, i) as u32;
    let state = VringState { index: i, num: base };
    let body = crate::vhost_user::payload::vring_state_bytes(state);
    crate::vhost_user::payload::law_vring_state_roundtrip(state);
    law_message_layout(MsgHeader { request: 11, flags: 5, size: 8 }, body);
    let w = message_bytes(MsgHeader { request: 11, flags: 5, size: 8 }, body);
    assert(w.subrange(12, 20) =~= body);
    le::lemma_le_shift(w, 12, 20, 0);
    le::lemma_le_shift(w, 12, 20, 4);
}

/// A message about a vring that is not there changes nothing. One that is shorter
/// than what it must have is refused, and changes nothing: 40 bytes for addresses,
/// 8 for the features, a size, a base, a descriptor or a switch. The others (an
/// owner, a log, protocol features) are taken note of without effect, and so are
/// the features and the descriptor for errors.
pub proof fn law_other_messages_change_nothing<K>(
    vrings: Seq<SlotView<K>>,
    code: u32,
    payload: Seq<u8>,
    fds: Seq<K>,
)
    requires
        1 <= code <= 18,
    ensures
        (code == 8 || code == 10 || code == 18 || code == 9) && le::le32_at(payload, 0)
            >= vrings.len() ==> told(vrings, code, payload, fds) == vrings,
        (code == 12 || code == 13) && payload.len() >= 8 && payload[0] >= vrings.len() ==> told(
            vrings,
            code,
            payload,
            fds,
        ) == vrings,
        (code == 2 || code == 8 || code == 10 || code == 11 || code == 12 || code == 13 || code
            == 14 || code == 18) && payload.len() < 8 || code == 9 && payload.len() < 40 ==> {
            &&& answer(vrings, code, payload, fds) == Err::<ActionView<K>, _>(
                ProtoError::Truncated,
            )
            &&& told(vrings, code, payload, fds) == vrings
        },
        code == 3 || code == 4 || code == 6 || code == 7 || code == 16 || (code == 2 || code == 14)
            && payload.len() >= 8 ==> {
            &&& answer(vrings, code, payload, fds) == Ok::<ActionView<K>, ProtoError>(
                Action::Nothing,
            )
            &&& told(vrings, code, payload, fds) == vrings
        },
{
    lemma_descriptor_word(payload);
}

/// The flags of a vring's addresses are at 4, and the address of its log at 32.
pub proof fn law_vring_address_layout(payload: Seq<u8>)
    ensures
        ({
            let a = crate::vhost_user::payload::vring_addr_at(payload, 0);
            &&& a.index == le::le32_at(payload, 0)
            &&& a.flags == le::le32_at(payload, 4)
            &&& a.descriptor == le::le64_at(payload, 8)
            &&& a.used == le::le64_at(payload, 16)
            &&& a.avail == le::le64_at(payload, 24)
            &&& a.log == le::le64_at(payload, 32)
        }),
{
}

/// A message has 12 bytes of header and then as many as the header says at 8. It is all
/// there when that many have come, and it is too large if it says more than 1 MiB.
/// Descriptors are kept in the order in which they come.
pub proof fn law_message_is_as_long_as_it_says<K>(
    r: Received<K>,
    chunk: Seq<u8>,
    fds: Seq<K>,
)
    ensures
        r.bytes.len() < 12 ==> r.whole() == 12 && !r.complete() && !r.too_large(),
        r.bytes.len() >= 12 ==> {
            &&& r.whole() == 12 + le::le32_at(r.bytes, 8)
            &&& r.complete() <==> r.bytes.len() == 12 + le::le32_at(r.bytes, 8)
            &&& r.too_large() <==> le::le32_at(r.bytes, 8) > 0x10_0000
        },
        r.with(chunk, fds).bytes == r.bytes + chunk,
        r.with(chunk, fds).fds == r.fds + fds,
{
}

/// A vring can be looked at unless a chain is waiting on it while it has no slots, and a
/// chain can be completed on it if there is memory and it has slots.
pub proof fn law_vring_is_ready_unless_it_has_no_slots<K, F, D>(
    s: ServerView<K, F, D>,
    vring: int,
    published: Option<u16>,
)
    requires
        published == u16_at(
            s.memory->0,
            AddrSpace::User,
            ((s.vrings[vring].queue->0.avail_addr + 2) % 0x1_0000_0000_0000_0000) as u64,
        ),
    ensures
        ({
            let set_up = s.memory is Some && s.vrings[vring].queue is Some;
            let q = s.vrings[vring].queue->0;
            let waiting = published is Some && published != Some(q.last_avail_idx);
            &&& s.ready(vring) <==> !(set_up && waiting && q.queue_size == 0)
            &&& s.live(vring) <==> set_up && q.queue_size != 0
        }),
{
}

/// An action at run time stands for itself: nothing becomes nothing, a reply has
/// its bytes, and regions and descriptors stay in their places.
pub proof fn law_actions_stand_for_themselves<K>(a: ServerAction<K>)
    ensures
        a matches Action::Nothing ==> a@ == ActionView::<K>::Nothing,
        a matches Action::Reply(b) ==> a@ == ActionView::<K>::Reply(b@),
        a matches Action::MapMemory { regions, fds } ==> a@ == (ActionView::<K>::MapMemory {
            regions: regions@,
            fds: fds@,
        }),
{
}

/// What a chain is does not depend on where the queue is.
proof fn lemma_same_chain(q: QueueView, m: MemView, head: u16, left: nat)
    ensures
        q.advanced().chain(m, head, left) == q.chain(m, head, left),
    decreases left,
{
    if left > 0 {
        if let Some(d) = q.desc(m, head) {
            lemma_same_chain(q, m, d.next, (left - 1) as nat);
        }
    }
}

/// A turn serves the chain that is next in the available ring: the session is
/// given the bytes of its readable buffers, in order, and the chain is taken. If
/// the request needs a call, it is in flight with the chain's vring, head and
/// writable buffers. If it is answered, that chain is completed, over those
/// buffers, with that answer.
pub proof fn law_turn_serves_the_next_chain<K, F, D>(
    s: ServerView<K, F, D>,
    vring: int,
    now: (i64, u32),
    published: u16,
    path: Seq<u16>,
    descs: Seq<Desc>,
)
    requires
        0 <= vring < s.vrings.len(),
        s.memory is Some,
        s.vrings[vring].queue is Some,
        is_chain(s.vrings[vring].queue->0.desc_addr, s.memory->0, path, descs),
        path.len() <= 128,
        ({
            let q = s.vrings[vring].queue->0;
            let m = s.memory->0;
            let end = 0x1_0000_0000_0000_0000int;
            let place = q.avail_addr + 4 + 2 * (q.last_avail_idx % q.queue_size);
            &&& u16_at(m, AddrSpace::User, ((q.avail_addr + 2) % end) as u64) == Some(published)
            &&& published != q.last_avail_idx
            &&& u16_at(m, AddrSpace::User, (place % end) as u64) == Some(path[0])
        }),
        forall|k: int|
            0 <= k < descs.len() && (#[trigger] descs[k]).flags & 2 == 0 ==> mapped(
                s.memory->0,
                AddrSpace::Gpa,
                descs[k].addr,
                descs[k].len as int,
            ),
    ensures
        ({
            let q = s.vrings[vring].queue->0;
            let m = s.memory->0;
            let b = q.chain(m, path[0], 128)->Ok_0;
            let request = gathered(m, b.readable)->0;
            let (session, progress) = s.session.handled(request, now);
            let (after, turn) = s.turned(vring, now);
            &&& are_buffers_of(b.readable, b.writable, descs)
            &&& gathered(m, b.readable) is Some
            &&& after.session == session
            &&& only_changed(s.vrings, after.vrings, vring)
            &&& after.vrings[vring].queue matches Some(next)
            &&& next.last_avail_idx as int == (q.last_avail_idx + 1) % 0x1_0000
            &&& progress matches Progress::Call(call, pending) ==> {
                &&& turn == Ok::<TurnView<F>, ProtoError>(
                    Turn::Call(
                        call,
                        InFlightView { vring, head: path[0], writable: b.writable, pending },
                    ),
                )
                &&& after.memory == s.memory
            }
            &&& progress matches Progress::Reply(reply) ==> (after, turn) == (ServerView {
                memory: s.memory,
                ..after
            }).completed(vring, path[0], b.writable, reply)
        }),
{
    let q = s.vrings[vring].queue->0;
    let m = s.memory->0;
    law_next_chain_is_in_the_available_ring(q, m, published, path[0]);
    law_chain_lists_its_buffers_in_order(q, m, path, descs, 128);
    lemma_same_chain(q, m, path[0], 128);
    let b = q.chain(m, path[0], 128)->Ok_0;
    lemma_readable_mapped(m, b.readable, b.writable, descs);
    if b.readable.len() > 0 {
        law_gathered_bytes_are_in_order(m, b.readable, 0);
    }
}

/// A request that was answered is completed with the answer's own bytes, in its
/// own chain and over its own buffers; one that is met with silence is completed
/// without a byte. It is served if that works, and if not, the error is told.
/// Neither the vrings nor the session change.
pub proof fn law_answer_is_what_is_written<K, F, D>(
    s: ServerView<K, F, D>,
    vring: int,
    head: u16,
    writable: Seq<(u64, u64)>,
    answer: Reply<Seq<u8>>,
)
    ensures
        ({
            let data = match answer {
                Reply::Bytes(bytes) => bytes,
                Reply::Nothing => Seq::<u8>::empty(),
            };
            let (memory, published) = s.vrings[vring].queue->0.finished(
                s.memory->0,
                head,
                writable,
                data,
            );
            let (after, turn) = s.went_on(vring, head, writable, Progress::Reply(answer));
            &&& after.memory == Some(memory)
            &&& after.vrings == s.vrings
            &&& after.session == s.session
            &&& published is Ok ==> turn == Ok::<TurnView<F>, ProtoError>(Turn::Served)
            &&& published matches Err(e) ==> turn == Err::<TurnView<F>, _>(
                ProtoError::Virtqueue(e),
            )
            &&& s.completed(vring, head, writable, answer) == (after, turn)
        }),
{
}

/// There is nothing to do on a vring that is not set up, or before there is
/// memory, or when the queue is where the guest is: nothing changes. If the guest's
/// index, or the entry that is next, is not in mapped memory, that is an error, and
/// no chain is taken. A chain that is refused is taken, and the error told; the
/// session does not hear of it.
pub proof fn law_turn_without_a_request<K, F, D>(
    s: ServerView<K, F, D>,
    vring: int,
    now: (i64, u32),
    head: u16,
    e: VirtqueueError,
)
    requires
        0 <= vring < s.vrings.len(),
    ensures
        ({
            let q = s.vrings[vring].queue->0;
            let m = s.memory->0;
            let user = AddrSpace::User;
            let end = 0x1_0000_0000_0000_0000int;
            let index = u16_at(m, user, ((q.avail_addr + 2) % end) as u64);
            let place = q.avail_addr + 4 + 2 * (q.last_avail_idx % q.queue_size);
            let entry = u16_at(m, user, (place % end) as u64);
            let set_up = s.memory is Some && s.vrings[vring].queue is Some;
            let nothing = (s, Ok::<TurnView<F>, ProtoError>(Turn::Empty));
            let lost = (
                s,
                Err::<TurnView<F>, _>(ProtoError::Virtqueue(VirtqueueError::OutOfBounds)),
            );
            let (after, turn) = s.turned(vring, now);
            &&& !set_up ==> (after, turn) == nothing
            &&& set_up && index == Some(q.last_avail_idx) ==> (after, turn) == nothing
            &&& set_up && index is None ==> (after, turn) == lost
            &&& set_up && index is Some && index != Some(q.last_avail_idx) && entry is None ==> (
                after,
                turn,
            ) == lost
            &&& set_up && index is Some && index != Some(q.last_avail_idx) && entry == Some(head)
                && q.chain(m, head, 128) == Err::<crate::vhost_user::virtqueue::Buffers, _>(e) ==> {
                &&& turn == Err::<TurnView<F>, _>(ProtoError::Virtqueue(e))
                &&& after.session == s.session
                &&& after.memory == s.memory
                &&& only_changed(s.vrings, after.vrings, vring)
                &&& after.vrings[vring].queue matches Some(next)
                &&& next.last_avail_idx as int == (q.last_avail_idx + 1) % 0x1_0000
            }
        }),
{
    let q = s.vrings[vring].queue->0;
    let m = s.memory->0;
    lemma_same_chain(q, m, head, 128);
    if s.vrings[vring].queue is Some {
        assert(s.with_queue(vring, q).vrings =~= s.vrings);
    }
}

/// The readable buffers of a chain are mapped if its readable descriptors' are.
proof fn lemma_readable_mapped(
    m: MemView,
    readable: Seq<(u64, u64)>,
    writable: Seq<(u64, u64)>,
    descs: Seq<Desc>,
)
    requires
        are_buffers_of(readable, writable, descs),
        forall|k: int|
            0 <= k < descs.len() && (#[trigger] descs[k]).flags & 2 == 0 ==> mapped(
                m,
                AddrSpace::Gpa,
                descs[k].addr,
                descs[k].len as int,
            ),
    ensures
        forall|j: int|
            0 <= j < readable.len() ==> mapped(
                m,
                AddrSpace::Gpa,
                (#[trigger] readable[j]).0,
                readable[j].1 as int,
            ),
{
    reveal(are_buffers_of);
    assert forall|j: int| 0 <= j < readable.len() implies mapped(
        m,
        AddrSpace::Gpa,
        (#[trigger] readable[j]).0,
        readable[j].1 as int,
    ) by {
        let k = lemma_readable_from(descs, descs.len() as int, j);
        assert(descs[k].flags & 2 == 0);
    }
}

/// The descriptor that the `j`th readable buffer is of.
proof fn lemma_readable_from(descs: Seq<Desc>, n: int, j: int) -> (k: int)
    requires
        0 <= n <= descs.len(),
        0 <= j < n - crate::vhost_user::virtqueue::writes_before(descs, n),
    ensures
        0 <= k < n,
        descs[k].flags & 2 == 0,
        k - crate::vhost_user::virtqueue::writes_before(descs, k) == j,
    decreases n,
{
    if descs[n - 1].flags & 2 == 0 && n - 1 - crate::vhost_user::virtqueue::writes_before(
        descs,
        n - 1,
    ) == j {
        n - 1
    } else {
        lemma_readable_from(descs, n - 1, j)
    }
}

} // verus!
