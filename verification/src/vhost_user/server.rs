//! The back-end: it answers the front-end's messages, which set up guest
//! memory and the vrings, and takes requests off the vrings, has the session
//! serve them, and puts the replies back.
//!
//! Sockets, polling and the mapping of memory are not here: the functions say
//! what to do, and are told what came of it.
use crate::engine::call::{HostResult, SysCall};
use crate::error::{ProtoError, ProtoResult};
use crate::fuse::dispatch::{Pending, Progress, Reply, Session, SessionState};
use crate::host::{HostErrnos, AT_EINTR};
use crate::le;
use crate::vhost_user::connection::{encode_message, message_bytes};
use crate::vhost_user::header::{request_code, request_of, MsgHeader, Request};
use crate::vhost_user::memory::{GuestMemory, MemView};
use crate::vhost_user::payload::{
    has_regions, regions_of, vring_addr_at, vring_fd_of, vring_state_at, vring_state_bytes,
    MemoryRegion, MemoryRegions, U64Payload, VringAddr, VringFdPayload, VringState,
};
use crate::vhost_user::virtqueue::{
    buffers_in_order, gathered, indices, lemma_next_offer, lemma_reply_step, lemma_ring_distance,
    lemma_same_offers, lemma_same_rings, offered_at, published_at, reply_is_in, rings_in_order,
    same_offers, taken_len, DescChain, QueueView, Virtqueue, VirtqueueError, MAX_CHAIN_LEN,
};
use vstd::prelude::*;

verus! {

/// No optional protocol feature is offered.
pub const PROTOCOL_FEATURES: u64 = 0;

/// The device is a modern one, without which front-ends do not attach.
pub const VIRTIO_F_VERSION_1: u64 = 0x1_0000_0000;

/// The features that are offered: protocol features at all (bit 30), and
/// version 1.
pub const VIRTIO_FEATURES: u64 = 0x1_4000_0000;

/// How many vrings there are: one for high-priority requests, and one for the
/// others. Both are served in the same way.
pub const NUM_QUEUES: usize = 2;

/// A vring, as a value.
#[verifier::ext_equal]
pub struct SlotView<K> {
    pub queue_size: Option<u16>,
    pub pending_avail_base: u16,
    pub queue: Option<QueueView>,
    pub kick: Option<K>,
    pub call: Option<K>,
    pub enabled: bool,
}

impl<K> SlotView<K> {
    /// Nothing is known of the vring yet.
    pub open spec fn fresh() -> Self {
        SlotView {
            queue_size: None,
            pending_avail_base: 0,
            queue: None,
            kick: None,
            call: None,
            enabled: false,
        }
    }

    /// The vring once it is known where its parts are: a queue, if its size is
    /// known too; otherwise nothing changes.
    pub open spec fn built(self, addr: VringAddr) -> Self {
        match self.queue_size {
            Some(queue_size) => SlotView {
                queue: Some(
                    QueueView {
                        desc_addr: addr.descriptor,
                        avail_addr: addr.avail,
                        used_addr: addr.used,
                        queue_size,
                        last_avail_idx: self.pending_avail_base,
                    },
                ),
                ..self
            },
            None => self,
        }
    }

    /// The vring with its base set, now and for when its queue is built.
    pub open spec fn based(self, base: u16) -> Self {
        SlotView {
            pending_avail_base: base,
            queue: match self.queue {
                Some(q) => Some(QueueView { last_avail_idx: base, ..q }),
                None => None,
            },
            ..self
        }
    }
}

/// A vring.
pub struct VringSlot<K> {
    queue_size: Option<u16>,
    pending_avail_base: u16,
    vq: Option<Virtqueue>,
    kick_fd: Option<K>,
    call_fd: Option<K>,
    enabled: bool,
}

impl<K> View for VringSlot<K> {
    type V = SlotView<K>;

    closed spec fn view(&self) -> SlotView<K> {
        SlotView {
            queue_size: self.queue_size,
            pending_avail_base: self.pending_avail_base,
            queue: match self.vq {
                Some(q) => Some(q@),
                None => None,
            },
            kick: self.kick_fd,
            call: self.call_fd,
            enabled: self.enabled,
        }
    }
}

impl<K> VringSlot<K> {
    fn new() -> (s: Self)
        ensures
            s@ == SlotView::<K>::fresh(),
    {
        VringSlot {
            queue_size: None,
            pending_avail_base: 0,
            vq: None,
            kick_fd: None,
            call_fd: None,
            enabled: false,
        }
    }

    /// Makes the queue, now that it is known where its parts are, if its size
    /// is known too.
    fn maybe_build(&mut self, addr: &VringAddr)
        ensures
            final(self)@ == old(self)@.built(*addr),
    {
        if let Some(qs) = self.queue_size {
            let mut vq = Virtqueue::new(qs, addr.descriptor, addr.avail, addr.used);
            vq.set_avail_base(self.pending_avail_base);
            self.vq = Some(vq);
        }
    }

    fn set_base(&mut self, base: u16)
        ensures
            final(self)@ == old(self)@.based(base),
    {
        self.pending_avail_base = base;
        if let Some(vq) = &mut self.vq {
            vq.set_avail_base(base);
        }
    }

    fn set_queue_size(&mut self, n: u16)
        ensures
            final(self)@ == (SlotView { queue_size: Some(n), ..old(self)@ }),
    {
        self.queue_size = Some(n);
    }

    fn set_kick(&mut self, fd: Option<K>)
        ensures
            final(self)@ == (SlotView { kick: fd, ..old(self)@ }),
    {
        self.kick_fd = fd;
    }

    fn set_call(&mut self, fd: Option<K>)
        ensures
            final(self)@ == (SlotView { call: fd, ..old(self)@ }),
    {
        self.call_fd = fd;
    }

    fn set_enabled(&mut self, on: bool)
        ensures
            final(self)@ == (SlotView { enabled: on, ..old(self)@ }),
    {
        self.enabled = on;
    }
}

/// The descriptor that comes with a message, if one does: the first of them,
/// unless the message says that there is none.
pub open spec fn taken<K>(fds: Seq<K>, no_fd: bool) -> Option<K> {
    if no_fd || fds.len() == 0 {
        None
    } else {
        Some(fds[0])
    }
}

/// Takes the descriptor that comes with a message, if one does.
pub fn take_fd<K>(fds: &mut Vec<K>, no_fd: bool) -> (r: Option<K>)
    ensures
        r == taken(old(fds)@, no_fd),
        r is None ==> final(fds)@ == old(fds)@,
        r is Some ==> final(fds)@ == old(fds)@.skip(1),
{
    if no_fd || fds.len() == 0 {
        return None;
    }
    let fd = fds.remove(0);
    assert(fds@ =~= old(fds)@.skip(1));
    Some(fd)
}

/// What a message of the front-end calls for.
pub enum Action<B, R, L> {
    Nothing,
    /// Send this message back.
    Reply(B),
    /// Map these regions, each of the descriptor at its position.
    MapMemory { regions: R, fds: L },
}

/// An action at run time.
pub type ServerAction<K> = Action<Vec<u8>, Vec<MemoryRegion>, Vec<K>>;

/// An action in contracts.
pub type ActionView<K> = Action<Seq<u8>, Seq<MemoryRegion>, Seq<K>>;

impl<K> View for Action<Vec<u8>, Vec<MemoryRegion>, Vec<K>> {
    type V = Action<Seq<u8>, Seq<MemoryRegion>, Seq<K>>;

    open spec fn view(&self) -> Action<Seq<u8>, Seq<MemoryRegion>, Seq<K>> {
        match *self {
            Action::Nothing => Action::Nothing,
            Action::Reply(b) => Action::Reply(b@),
            Action::MapMemory { regions, fds } => Action::MapMemory { regions: regions@, fds: fds@ },
        }
    }
}

/// The reply to a request.
pub open spec fn reply_message(request: Request, body: Seq<u8>) -> Seq<u8> {
    message_bytes(
        MsgHeader {
            request: request_code(request),
            flags: 5,
            size: (body.len() % 0x1_0000_0000) as u32,
        },
        body,
    )
}

/// The reply to a request.
fn reply<K>(request: Request, body: &[u8]) -> (r: ServerAction<K>)
    ensures
        r@ == Action::<Seq<u8>, Seq<MemoryRegion>, Seq<K>>::Reply(reply_message(request, body@)),
{
    let header = MsgHeader::reply(request, (body.len() as u128 % 0x1_0000_0000) as u32);
    Action::Reply(encode_message(header, body))
}

/// The base that a vring is at: none of a vring that is not set up.
pub open spec fn base_of<K>(vrings: Seq<SlotView<K>>, index: u32) -> u16 {
    if index < vrings.len() {
        match vrings[index as int].queue {
            Some(q) => q.last_avail_idx,
            None => 0,
        }
    } else {
        0
    }
}

/// The vrings with the one at `index`, if there is one, replaced.
pub open spec fn with_slot<K>(vrings: Seq<SlotView<K>>, index: int, slot: SlotView<K>) -> Seq<
    SlotView<K>,
> {
    if index < vrings.len() {
        vrings.update(index, slot)
    } else {
        vrings
    }
}

/// The vrings after a message.
pub open spec fn vrings_after<K>(
    vrings: Seq<SlotView<K>>,
    request: Request,
    payload: Seq<u8>,
    fds: Seq<K>,
) -> Seq<SlotView<K>> {
    let s = vring_state_at(payload, 0);
    let i = s.index as int;
    let a = vring_addr_at(payload, 0);
    let p = vring_fd_of(le::le64_at(payload, 0));
    let k = p.index as int;
    match request {
        Request::SetVringNum if payload.len() >= 8 => with_slot(
            vrings,
            i,
            SlotView { queue_size: Some(le::low16(s.num)), ..vrings[i] },
        ),
        Request::SetVringAddr if payload.len() >= 40 => with_slot(
            vrings,
            a.index as int,
            vrings[a.index as int].built(a),
        ),
        Request::SetVringBase if payload.len() >= 8 => with_slot(
            vrings,
            i,
            vrings[i].based(le::low16(s.num)),
        ),
        Request::SetVringKick if payload.len() >= 8 => with_slot(
            vrings,
            k,
            SlotView { kick: taken(fds, p.no_fd), ..vrings[k] },
        ),
        Request::SetVringCall if payload.len() >= 8 => with_slot(
            vrings,
            k,
            SlotView { call: taken(fds, p.no_fd), ..vrings[k] },
        ),
        Request::SetVringEnable if payload.len() >= 8 => with_slot(
            vrings,
            i,
            SlotView { enabled: s.num != 0, ..vrings[i] },
        ),
        _ => vrings,
    }
}

/// What a message calls for, or why it cannot be handled.
pub open spec fn action_for<K>(
    vrings: Seq<SlotView<K>>,
    request: Request,
    payload: Seq<u8>,
    fds: Seq<K>,
) -> ProtoResult<ActionView<K>> {
    let truncated = Err(ProtoError::Truncated);
    match request {
        Request::GetFeatures => Ok(
            Action::Reply(reply_message(request, le::u64_bytes(VIRTIO_FEATURES))),
        ),
        Request::GetProtocolFeatures => Ok(
            Action::Reply(reply_message(request, le::u64_bytes(PROTOCOL_FEATURES))),
        ),
        Request::GetQueueNum => Ok(
            Action::Reply(reply_message(request, le::u64_bytes(NUM_QUEUES as u64))),
        ),
        Request::SetOwner | Request::ResetOwner | Request::SetProtocolFeatures
        | Request::SetLogBase | Request::SetLogFd => Ok(Action::Nothing),
        Request::SetMemTable => if has_regions(payload) && regions_of(payload).len() == fds.len() {
            Ok(Action::MapMemory { regions: regions_of(payload), fds })
        } else {
            truncated
        },
        Request::SetVringAddr => if payload.len() >= 40 {
            Ok(Action::Nothing)
        } else {
            truncated
        },
        Request::GetVringBase => if payload.len() >= 8 {
            let s = vring_state_at(payload, 0);
            Ok(
                Action::Reply(
                    reply_message(
                        request,
                        vring_state_bytes(
                            VringState { index: s.index, num: base_of(vrings, s.index) as u32 },
                        ),
                    ),
                ),
            )
        } else {
            truncated
        },
        Request::SetFeatures | Request::SetVringNum | Request::SetVringBase | Request::SetVringKick
        | Request::SetVringCall | Request::SetVringErr | Request::SetVringEnable =>
            if payload.len() >= 8 {
                Ok(Action::Nothing)
            } else {
                truncated
            },
    }
}

/// A request that was taken off a vring and waits for a call, as a value.
#[verifier::ext_equal]
pub struct InFlightView<F> {
    pub vring: int,
    pub head: u16,
    pub writable: Seq<(u64, u64)>,
    pub pending: Pending<F, Seq<u8>>,
}

/// A request that was taken off a vring and waits for a call.
pub struct InFlight<F> {
    vring: usize,
    chain: DescChain,
    pending: Pending<F, Vec<u8>>,
}

impl<F> View for InFlight<F> {
    type V = InFlightView<F>;

    closed spec fn view(&self) -> InFlightView<F> {
        InFlightView {
            vring: self.vring as int,
            head: self.chain.head,
            writable: self.chain.writable@,
            pending: self.pending@,
        }
    }
}

/// What came of looking for a request.
pub enum Turn<C, I> {
    /// There is none.
    Empty,
    /// One was served, and its reply is in place.
    Served,
    /// One needs this call.
    Call(C, I),
}

/// A turn at run time.
pub type ServerTurn<F> = Turn<SysCall<F, Vec<u8>>, InFlight<F>>;

/// A turn in contracts.
pub type TurnView<F> = Turn<SysCall<F, Seq<u8>>, InFlightView<F>>;

impl<F> View for Turn<SysCall<F, Vec<u8>>, InFlight<F>> {
    type V = Turn<SysCall<F, Seq<u8>>, InFlightView<F>>;

    open spec fn view(&self) -> Turn<SysCall<F, Seq<u8>>, InFlightView<F>> {
        match *self {
            Turn::Empty => Turn::Empty,
            Turn::Served => Turn::Served,
            Turn::Call(call, flight) => Turn::Call(call@, flight@),
        }
    }
}

/// A turn's result, with the turn taken by its view.
pub open spec fn turn_view<F>(r: ProtoResult<ServerTurn<F>>) -> ProtoResult<TurnView<F>> {
    match r {
        Ok(turn) => Ok(turn@),
        Err(e) => Err(e),
    }
}

/// A request as it lies in a chain of a vring.
pub struct Fetched {
    pub head: u16,
    pub writable: Seq<(u64, u64)>,
    pub request: Seq<u8>,
}

/// The next request of a vring, if there is one.
pub open spec fn fetched(q: QueueView, m: MemView) -> Result<Option<Fetched>, VirtqueueError> {
    match q.popped(m) {
        Err(e) => Err(e),
        Ok(None) => Ok(None),
        Ok(Some(head)) => match q.advanced().chain(m, head, MAX_CHAIN_LEN as nat) {
            Err(e) => Err(e),
            Ok(b) => match gathered(m, b.readable) {
                None => Err(VirtqueueError::OutOfBounds),
                Some(request) => Ok(Some(Fetched { head, writable: b.writable, request })),
            },
        },
    }
}

/// Takes the next request off a vring, if there is one.
fn fetch<'a>(vq: &mut Virtqueue, mem: &GuestMemory<'a>) -> (r: Result<
    Option<(DescChain, Vec<u8>)>,
    VirtqueueError,
>)
    requires
        old(vq)@.pending(mem@) ==> old(vq)@.queue_size != 0,
    ensures
        final(vq)@ == old(vq)@.after_pop(mem@),
        match fetched(old(vq)@, mem@) {
            Err(e) => r matches Err(x) && x == e,
            Ok(None) => r matches Ok(o) && o is None,
            Ok(Some(f)) => {
                &&& r matches Ok(Some((chain, request)))
                &&& chain.head == f.head
                &&& chain.writable@ == f.writable
                &&& request@ == f.request
            },
        },
{
    let head: u16 = match vq.pop_avail(mem)? {
        Some(head) => head,
        None => {
            return Ok(None);
        },
    };
    let chain = vq.read_chain(mem, head)?;
    let request = vq.gather_readable(mem, &chain)?;
    Ok(Some((chain, request)))
}

/// The bytes that a reply puts into a chain's buffers.
pub open spec fn reply_data(reply: Reply<Seq<u8>>) -> Seq<u8> {
    match reply {
        Reply::Bytes(b) => b,
        Reply::Nothing => Seq::empty(),
    }
}

/// The back-end, as a value.
#[verifier::ext_equal]
pub struct ServerView<K, F, D> {
    pub memory: Option<MemView>,
    pub vrings: Seq<SlotView<K>>,
    pub session: SessionState<F, D>,
}

impl<K, F, D> ServerView<K, F, D> {
    /// With another queue state of a vring.
    pub open spec fn with_queue(self, vring: int, q: QueueView) -> Self {
        ServerView {
            vrings: self.vrings.update(
                vring,
                SlotView { queue: Some(q), ..self.vrings[vring] },
            ),
            ..self
        }
    }

    /// Whether a vring whose next chain is waiting has a size.
    pub open spec fn ready(self, vring: int) -> bool {
        match (self.memory, self.vrings[vring].queue) {
            (Some(m), Some(q)) => q.pending(m) ==> q.queue_size != 0,
            _ => true,
        }
    }

    /// Whether a vring can complete a chain: there is memory, and a queue that
    /// has a size.
    pub open spec fn live(self, vring: int) -> bool {
        self.memory is Some && (self.vrings[vring].queue matches Some(q) && q.queue_size != 0)
    }

    /// What becomes of the back-end when the chain `head` of a vring is
    /// completed with a reply: the reply goes into the chain's buffers, and
    /// the chain on the used ring with the number of bytes written.
    pub open spec fn completed(
        self,
        vring: int,
        head: u16,
        writable: Seq<(u64, u64)>,
        reply: Reply<Seq<u8>>,
    ) -> (Self, ProtoResult<TurnView<F>>) {
        let (after, published) = self.vrings[vring].queue->0.finished(
            self.memory->0,
            head,
            writable,
            reply_data(reply),
        );
        (
            ServerView { memory: Some(after), ..self },
            match published {
                Ok(_) => Ok(Turn::Served),
                Err(e) => Err(ProtoError::Virtqueue(e)),
            },
        )
    }

    /// What becomes of the back-end, and of a request that was taken off a
    /// vring, when the request has come this far.
    pub open spec fn went_on(
        self,
        vring: int,
        head: u16,
        writable: Seq<(u64, u64)>,
        progress: Progress<F, Seq<u8>>,
    ) -> (Self, ProtoResult<TurnView<F>>) {
        match progress {
            Progress::Reply(reply) => self.completed(vring, head, writable, reply),
            Progress::Call(call, pending) => (
                self,
                Ok(Turn::Call(call, InFlightView { vring, head, writable, pending })),
            ),
        }
    }

    /// What becomes of the back-end when it looks for a request on a vring.
    pub open spec fn turned(self, vring: int, now: (i64, u32)) -> (Self, ProtoResult<TurnView<F>>) {
        match (self.memory, self.vrings[vring].queue) {
            (Some(m), Some(q)) => {
                let popped = self.with_queue(vring, q.after_pop(m));
                match fetched(q, m) {
                    Err(e) => (popped, Err(ProtoError::Virtqueue(e))),
                    Ok(None) => (popped, Ok(Turn::Empty)),
                    Ok(Some(f)) => {
                        let (session, progress) = self.session.handled(f.request, now);
                        (ServerView { session, ..popped }).went_on(
                            vring,
                            f.head,
                            f.writable,
                            progress,
                        )
                    },
                }
            },
            _ => (self, Ok(Turn::Empty)),
        }
    }
}

/// Which of the first `n` vrings are to be polled: those that are enabled and
/// have a descriptor to poll.
pub open spec fn polled<K>(vrings: Seq<SlotView<K>>, n: int) -> Seq<usize>
    decreases n,
{
    if n <= 0 {
        Seq::empty()
    } else if vrings[n - 1].enabled && vrings[n - 1].kick is Some {
        polled(vrings, n - 1).push((n - 1) as usize)
    } else {
        polled(vrings, n - 1)
    }
}

/// The back-end. `K` is the type of the descriptors that the front-end passes,
/// and `F` and `D` are those of the session's files and directories.
pub struct Server<'a, K, F, D> {
    mem: Option<GuestMemory<'a>>,
    vrings: Vec<VringSlot<K>>,
    session: Session<F, D>,
}

impl<'a, K, F, D> View for Server<'a, K, F, D> {
    type V = ServerView<K, F, D>;

    closed spec fn view(&self) -> ServerView<K, F, D> {
        ServerView {
            memory: match self.mem {
                Some(m) => Some(m@),
                None => None,
            },
            vrings: self.vrings@.map_values(|s: VringSlot<K>| s@),
            session: self.session@,
        }
    }
}

/// Writes a reply into a chain's buffers and publishes the chain.
fn complete<'a>(
    vq: &mut Virtqueue,
    mem: &mut GuestMemory<'a>,
    chain: &DescChain,
    reply: &Reply<Vec<u8>>,
) -> (r: Result<(), VirtqueueError>)
    requires
        old(vq)@.queue_size != 0,
    ensures
        final(vq)@ == old(vq)@,
        (final(mem)@, r) == old(vq)@.finished(
            old(mem)@,
            chain.head,
            chain.writable@,
            reply_data(reply@),
        ),
{
    proof {
        reveal(QueueView::finished);
    }
    let written: u32 = match reply {
        Reply::Bytes(bytes) => vq.scatter_writable(mem, chain, bytes.as_slice())?,
        Reply::Nothing => 0,
    };
    vq.push_used(mem, chain.head, written)
}

impl<'a, K, F, D> Server<'a, K, F, D> {
    /// The session's tables are well formed, and all vrings are there.
    pub closed spec fn wf(&self) -> bool {
        self.session.wf() && self.vrings@.len() == NUM_QUEUES
    }

    /// What a well-formed back-end stands for is well formed.
    pub proof fn lemma_wf(&self)
        requires
            self.wf(),
        ensures
            self@.session.fs.inodes.wf(),
            self@.vrings.len() == NUM_QUEUES,
    {
        self.session.lemma_wf();
    }

    /// A back-end that has heard nothing from its front-end yet.
    pub fn new(session: Session<F, D>) -> (s: Self)
        requires
            session.wf(),
        ensures
            s.wf(),
            s@ == (ServerView {
                memory: None,
                vrings: seq![SlotView::<K>::fresh(), SlotView::<K>::fresh()],
                session: session@,
            }),
    {
        let mut vrings: Vec<VringSlot<K>> = Vec::new();
        vrings.push(VringSlot::new());
        vrings.push(VringSlot::new());
        let s = Server { mem: None, vrings, session };
        assert(s@.vrings =~= seq![SlotView::<K>::fresh(), SlotView::<K>::fresh()]);
        s
    }

    /// The session.
    pub fn session(&self) -> (s: &Session<F, D>)
        ensures
            s@ == self@.session,
            self.wf() ==> s.wf(),
    {
        &self.session
    }

    /// Takes guest memory into use, in place of what was mapped before.
    pub fn set_memory(&mut self, mem: GuestMemory<'a>)
        requires
            old(self).wf(),
        ensures
            final(self).wf(),
            final(self)@ == (ServerView { memory: Some(mem@), ..old(self)@ }),
    {
        self.mem = Some(mem);
    }

    /// Handles one message of the front-end. One with an unknown request code
    /// is ignored.
    pub fn handle_one_message(&mut self, header: MsgHeader, payload: &[u8], fds: Vec<K>) -> (r:
        ProtoResult<ServerAction<K>>)
        requires
            old(self).wf(),
        ensures
            final(self).wf(),
            request_of(header.request) is Err ==> {
                &&& final(self)@ == old(self)@
                &&& r matches Ok(action)
                &&& action@ == Action::<Seq<u8>, Seq<MemoryRegion>, Seq<K>>::Nothing
            },
            request_of(header.request) matches Ok(request) ==> {
                &&& final(self)@ == (ServerView {
                    vrings: vrings_after(old(self)@.vrings, request, payload@, fds@),
                    ..old(self)@
                })
                &&& match action_for(old(self)@.vrings, request, payload@, fds@) {
                    Ok(action) => r matches Ok(a) && a@ == action,
                    Err(e) => r matches Err(x) && x == e,
                }
            },
    {
        let request = match header.request() {
            Ok(request) => request,
            Err(_) => {
                return Ok(Action::Nothing);
            },
        };
        let ghost old_fds = fds@;
        let mut fds = fds;
        match request {
            Request::GetFeatures => {
                return Ok(reply(request, &U64Payload(VIRTIO_FEATURES).to_bytes()));
            },
            Request::SetFeatures => {
                U64Payload::from_bytes(payload)?;
            },
            Request::SetOwner => {},
            Request::ResetOwner => {},
            Request::GetProtocolFeatures => {
                return Ok(reply(request, &U64Payload(PROTOCOL_FEATURES).to_bytes()));
            },
            Request::SetProtocolFeatures => {},
            Request::GetQueueNum => {
                return Ok(reply(request, &U64Payload(NUM_QUEUES as u64).to_bytes()));
            },
            Request::SetMemTable => {
                let table = MemoryRegions::from_bytes(payload)?;
                if table.regions.len() != fds.len() {
                    return Err(ProtoError::Truncated);
                }
                return Ok(Action::MapMemory { regions: table.regions, fds });
            },
            Request::SetVringNum => {
                let s = VringState::from_bytes(payload)?;
                if (s.index as usize) < self.vrings.len() {
                    self.vrings[s.index as usize].set_queue_size(le::to_low16(s.num));
                }
            },
            Request::SetVringAddr => {
                let a = VringAddr::from_bytes(payload)?;
                if (a.index as usize) < self.vrings.len() {
                    self.vrings[a.index as usize].maybe_build(&a);
                }
            },
            Request::SetVringBase => {
                let s = VringState::from_bytes(payload)?;
                if (s.index as usize) < self.vrings.len() {
                    self.vrings[s.index as usize].set_base(le::to_low16(s.num));
                }
            },
            Request::GetVringBase => {
                let s = VringState::from_bytes(payload)?;
                let base: u16 = self.vring_base(s.index);
                let state = VringState { index: s.index, num: base as u32 };
                return Ok(reply(request, &state.to_bytes()));
            },
            Request::SetVringKick => {
                let p = VringFdPayload::from_bytes(payload)?;
                if (p.index as usize) < self.vrings.len() {
                    let fd = take_fd(&mut fds, p.no_fd);
                    self.vrings[p.index as usize].set_kick(fd);
                }
            },
            Request::SetVringCall => {
                let p = VringFdPayload::from_bytes(payload)?;
                if (p.index as usize) < self.vrings.len() {
                    let fd = take_fd(&mut fds, p.no_fd);
                    self.vrings[p.index as usize].set_call(fd);
                }
            },
            Request::SetVringErr => {
                VringFdPayload::from_bytes(payload)?;
            },
            Request::SetVringEnable => {
                let s = VringState::from_bytes(payload)?;
                if (s.index as usize) < self.vrings.len() {
                    self.vrings[s.index as usize].set_enabled(s.num != 0);
                }
            },
            Request::SetLogBase => {},
            Request::SetLogFd => {},
        }
        assert(self@.vrings =~= vrings_after(old(self)@.vrings, request, payload@, old_fds));
        Ok(Action::Nothing)
    }

    /// The base that a vring is at.
    fn vring_base(&self, index: u32) -> (base: u16)
        ensures
            base == base_of(self@.vrings, index),
    {
        if (index as usize) < self.vrings.len() {
            match &self.vrings[index as usize].vq {
                Some(vq) => vq.avail_base(),
                None => 0,
            }
        } else {
            0
        }
    }

    /// Whether it can be looked for a request on a vring: not if a chain is
    /// waiting on a vring whose size is zero.
    pub fn vring_ready(&self, vring: usize) -> (b: bool)
        requires
            self.wf(),
            vring < NUM_QUEUES,
        ensures
            b == self@.ready(vring as int),
    {
        assert(self@.vrings[vring as int] == self.vrings@[vring as int]@);
        match &self.mem {
            Some(mem) => match &self.vrings[vring].vq {
                Some(vq) => !vq.has_pending(mem) || vq.queue_size() != 0,
                None => true,
            },
            None => true,
        }
    }

    /// Goes on with a request that was taken off a vring and has come this
    /// far.
    fn go_on(&mut self, vring: usize, chain: DescChain, progress: Progress<F, Vec<u8>>) -> (r:
        ProtoResult<ServerTurn<F>>)
        requires
            old(self).wf(),
            vring < NUM_QUEUES,
            old(self)@.live(vring as int),
        ensures
            final(self).wf(),
            ({
                let end = old(self)@.went_on(
                    vring as int,
                    chain.head,
                    chain.writable@,
                    progress@,
                );
                &&& final(self)@ == end.0
                &&& turn_view(r) == end.1
            }),
    {
        assert(self@.vrings[vring as int] == self.vrings@[vring as int]@);
        match progress {
            Progress::Call(call, pending) => Ok(Turn::Call(call, InFlight { vring, chain, pending })),
            Progress::Reply(reply) => {
                let done = match &mut self.mem {
                    Some(mem) => match &mut self.vrings[vring].vq {
                        Some(vq) => complete(vq, mem, &chain, &reply),
                        None => Ok(()),
                    },
                    None => Ok(()),
                };
                assert(self@.vrings =~= old(self)@.vrings);
                match done {
                    Ok(_) => Ok(Turn::Served),
                    Err(e) => Err(ProtoError::Virtqueue(e)),
                }
            },
        }
    }

    /// Takes the next request off a vring and serves it, as far as that goes
    /// without a call. `now` is the present, as in [`Session::handle`].
    pub fn next_request(&mut self, vring: usize, now: (i64, u32)) -> (r: ProtoResult<ServerTurn<F>>)
        requires
            old(self).wf(),
            vring < NUM_QUEUES,
            old(self)@.ready(vring as int),
        ensures
            final(self).wf(),
            final(self)@ == old(self)@.turned(vring as int, now).0,
            turn_view(r) == old(self)@.turned(vring as int, now).1,
            turn_view(r) matches Ok(Turn::Call(_, flight)) ==> flight.vring == vring && final(self)@.live(vring as int),
    {
        assert(self@.vrings[vring as int] == self.vrings@[vring as int]@);
        let found = match &self.mem {
            Some(mem) => match &mut self.vrings[vring].vq {
                Some(vq) => fetch(vq, mem),
                None => Ok(None),
            },
            None => Ok(None),
        };
        proof {
            let before = old(self)@;
            match (before.memory, before.vrings[vring as int].queue) {
                (Some(m), Some(q)) => {
                    assert(self@.vrings =~= before.with_queue(vring as int, q.after_pop(m)).vrings);
                },
                _ => {
                    assert(self@.vrings =~= before.vrings);
                },
            }
        }
        let (chain, request) = match found {
            Ok(Some(pair)) => pair,
            Ok(None) => {
                return Ok(Turn::Empty);
            },
            Err(e) => {
                return Err(ProtoError::Virtqueue(e));
            },
        };
        let progress = self.session.handle(request.as_slice(), now);
        self.go_on(vring, chain, progress)
    }

    /// Goes on with a request: `result` is what its call gave.
    pub fn resume_request(&mut self, flight: InFlight<F>, result: HostResult<F, D>) -> (r:
        ProtoResult<ServerTurn<F>>)
        requires
            old(self).wf(),
            0 <= flight@.vring < NUM_QUEUES,
            old(self)@.live(flight@.vring),
            old(self)@.session.fs.inodes.next_id < u64::MAX,
        ensures
            final(self).wf(),
            ({
                let session = final(self)@.session;
                let progress = old(self)@.session.resumed(flight@.pending, result@);
                let end = (ServerView { session, ..old(self)@ }).went_on(
                    flight@.vring,
                    flight@.head,
                    flight@.writable,
                    progress,
                );
                &&& final(self)@ == end.0
                &&& turn_view(r) == end.1
                &&& old(self)@.session.fs.becomes(flight@.pending.task(), result@, session.fs)
                &&& session.listings == old(self)@.session.listings_after(flight@.pending, result@)
            }),
            turn_view(r) matches Ok(Turn::Call(_, next)) ==> next.vring == flight@.vring && final(self)@.live(flight@.vring),
    {
        let InFlight { vring, chain, pending } = flight;
        let progress = self.session.resume(pending, result);
        self.go_on(vring, chain, progress)
    }

    /// The vrings whose descriptor is to be polled, in order.
    pub fn kick_slots(&self) -> (r: Vec<usize>)
        requires
            self.wf(),
        ensures
            r@ == polled(self@.vrings, NUM_QUEUES as int),
    {
        let mut r: Vec<usize> = Vec::new();
        let mut i: usize = 0;
        while i < self.vrings.len()
            invariant
                i <= self.vrings@.len(),
                self.vrings@.len() == NUM_QUEUES,
                r@ == polled(self@.vrings, i as int),
            decreases self.vrings@.len() - i,
        {
            assert(self@.vrings[i as int] == self.vrings@[i as int]@);
            if self.vrings[i].enabled && self.vrings[i].kick_fd.is_some() {
                r.push(i);
            }
            i += 1;
        }
        r
    }

    /// The descriptor to poll of a vring.
    pub fn kick_fd(&self, vring: usize) -> (r: Option<&K>)
        requires
            self.wf(),
            vring < NUM_QUEUES,
        ensures
            self@.vrings[vring as int].kick matches Some(k) ==> r == Some(&k),
            self@.vrings[vring as int].kick is None ==> r is None,
    {
        assert(self@.vrings[vring as int] == self.vrings@[vring as int]@);
        self.vrings[vring].kick_fd.as_ref()
    }

    /// The descriptor by which to notify the guest, when the vring has been
    /// looked through and `served` requests were served: none if there were
    /// none, or if the front-end gave none.
    pub fn notify_fd(&self, vring: usize, served: u64) -> (r: Option<&K>)
        requires
            self.wf(),
            vring < NUM_QUEUES,
        ensures
            served > 0 ==> (self@.vrings[vring as int].call matches Some(k) ==> r == Some(&k)),
            served == 0 || self@.vrings[vring as int].call is None ==> r is None,
    {
        assert(self@.vrings[vring as int] == self.vrings@[vring as int]@);
        if served > 0 {
            self.vrings[vring].call_fd.as_ref()
        } else {
            None
        }
    }
}

/// How the server goes on.
#[derive(Debug, Clone, Copy, PartialEq, Eq, Structural)]
pub enum Control {
    Continue,
    /// The front-end is gone, and all is well.
    Stop,
    Fail(ProtoError),
}

/// How the server goes on when polling failed.
pub open spec fn poll_failed(host: HostErrnos, errno: i32) -> Control {
    if errno == host.number(AT_EINTR) {
        Control::Continue
    } else {
        Control::Fail(ProtoError::Io { errno })
    }
}

/// How the server goes on after the front-end's socket was looked at.
pub open spec fn looked_at(handled: ProtoResult<()>, hung_up: bool) -> Control {
    match handled {
        Err(ProtoError::Disconnected) => Control::Stop,
        Err(e) => Control::Fail(e),
        Ok(_) => if hung_up {
            Control::Stop
        } else {
            Control::Continue
        },
    }
}

/// The server goes on exactly while its front-end is there and what it says can be
/// handled. It stops, with nothing wrong, when the front-end is gone, and fails with any
/// other error. That polling was interrupted (`EINTR`, at place 3 of the host's errors) is
/// no error; any other failure of it is.
pub proof fn law_server_goes_on_while_it_can(
    handled: ProtoResult<()>,
    hung_up: bool,
    host: HostErrnos,
    errno: i32,
)
    ensures
        looked_at(handled, hung_up) == Control::Continue <==> handled is Ok && !hung_up,
        looked_at(handled, hung_up) == Control::Stop <==> handled == Err::<(), _>(
            ProtoError::Disconnected,
        ) || handled is Ok && hung_up,
        handled matches Err(e) ==> e != ProtoError::Disconnected ==> looked_at(handled, hung_up)
            == Control::Fail(e),
        poll_failed(host, errno) == Control::Continue <==> errno == host.numbers@[3],
        errno != host.numbers@[3] ==> poll_failed(host, errno) == Control::Fail(
            ProtoError::Io { errno },
        ),
{
}

/// How the server goes on when polling failed: an interruption is no reason to
/// end.
pub fn after_failed_poll(host: &HostErrnos, errno: i32) -> (c: Control)
    ensures
        errno == host.number(AT_EINTR) ==> c == Control::Continue,
        errno != host.number(AT_EINTR) ==> c == Control::Fail(ProtoError::Io { errno }),
        c == poll_failed(*host, errno),
{
    if errno == host.numbers[AT_EINTR] {
        Control::Continue
    } else {
        Control::Fail(ProtoError::Io { errno })
    }
}

/// How the server goes on after the front-end's socket was looked at:
/// `handled` is what came of its message, if there was one, and `hung_up`
/// whether the socket was closed or broken.
pub fn after_control(handled: ProtoResult<()>, hung_up: bool) -> (c: Control)
    ensures
        c == match handled {
            Err(ProtoError::Disconnected) => Control::Stop,
            Err(e) => Control::Fail(e),
            Ok(_) => if hung_up {
                Control::Stop
            } else {
                Control::Continue
            },
        },
        c == looked_at(handled, hung_up),
{
    match handled {
        Err(ProtoError::Disconnected) => Control::Stop,
        Err(e) => Control::Fail(e),
        Ok(_) => if hung_up {
            Control::Stop
        } else {
            Control::Continue
        },
    }
}

/// What is offered is protocol features and version 1, and nothing else.
pub proof fn law_offered_features()
    ensures
        VIRTIO_FEATURES == (1u64 << 30) | VIRTIO_F_VERSION_1,
        VIRTIO_F_VERSION_1 == 1u64 << 32,
{
    assert(0x1_4000_0000u64 == (1u64 << 30) | 0x1_0000_0000u64) by (bit_vector);
    assert(0x1_0000_0000u64 == 1u64 << 32) by (bit_vector);
}

/// It makes no difference whether a vring's base comes before its addresses or
/// after them: its queue starts at that base.
pub proof fn law_base_and_address_commute<K>(slot: SlotView<K>, base: u16, addr: VringAddr)
    ensures
        slot.based(base).built(addr) == slot.built(addr).based(base),
        slot.queue_size is Some ==> (slot.based(base).built(addr).queue matches Some(q)
            && q.last_avail_idx == base),
{
}

/// The base that the front-end set is the base that it is told, as long as no
/// request was taken off the vring.
pub proof fn law_base_reads_back<K>(
    vrings: Seq<SlotView<K>>,
    payload: Seq<u8>,
    fds: Seq<K>,
)
    requires
        payload.len() >= 8,
        vring_state_at(payload, 0).index < vrings.len(),
        vrings[vring_state_at(payload, 0).index as int].queue is Some,
    ensures
        ({
            let s = vring_state_at(payload, 0);
            base_of(vrings_after(vrings, Request::SetVringBase, payload, fds), s.index)
                == le::low16(s.num)
        }),
{
}

/// A message that cannot be read, or that asks for something, changes no
/// vring, and no message changes how many there are.
pub proof fn law_messages_keep_vrings<K>(
    vrings: Seq<SlotView<K>>,
    request: Request,
    payload: Seq<u8>,
    fds: Seq<K>,
)
    ensures
        vrings_after(vrings, request, payload, fds).len() == vrings.len(),
        action_for(vrings, request, payload, fds) is Err ==> vrings_after(
            vrings,
            request,
            payload,
            fds,
        ) == vrings,
        (action_for(vrings, request, payload, fds) matches Ok(a) && !(a is Nothing))
            ==> vrings_after(vrings, request, payload, fds) == vrings,
{
}

/// A vring is polled exactly if it is enabled and has a descriptor for it, and
/// each at most once, in order.
pub proof fn law_polled_vrings<K>(vrings: Seq<SlotView<K>>, n: int)
    requires
        0 <= n <= vrings.len(),
        n <= usize::MAX,
    ensures
        forall|i: int|
            0 <= i < n ==> (polled(vrings, n).contains(i as usize) <==> (#[trigger] vrings[i]).enabled
                && vrings[i].kick is Some),
        forall|a: int| 0 <= a < polled(vrings, n).len() ==> (#[trigger] polled(vrings, n)[a]) < n,
        forall|a: int, b: int|
            0 <= a < b < polled(vrings, n).len() ==> (#[trigger] polled(vrings, n)[a])
                < (#[trigger] polled(vrings, n)[b]),
    decreases n,
{
    if n > 0 {
        law_polled_vrings(vrings, n - 1);
        let before = polled(vrings, n - 1);
        let now = polled(vrings, n);
        if vrings[n - 1].enabled && vrings[n - 1].kick is Some {
            assert(now[before.len() as int] == (n - 1) as usize);
            assert forall|i: int| 0 <= i < n implies (now.contains(i as usize) <==> (
            #[trigger] vrings[i]).enabled && vrings[i].kick is Some) by {
                if before.contains(i as usize) {
                    let a = choose|a: int| 0 <= a < before.len() && before[a] == i as usize;
                    assert(now[a] == i as usize);
                }
                if now.contains(i as usize) && i < n - 1 {
                    let a = choose|a: int| 0 <= a < now.len() && now[a] == i as usize;
                    assert(before[a] == i as usize);
                }
            }
        } else {
            assert(now == before);
            assert(!now.contains((n - 1) as usize));
        }
    }
}

/// A request's reply goes into the chain that the request came in, however
/// many calls it takes: a request that waits for a call keeps its vring, its
/// head and its buffers.
pub proof fn law_request_keeps_its_chain<K, F, D>(
    s: ServerView<K, F, D>,
    vring: int,
    head: u16,
    writable: Seq<(u64, u64)>,
    progress: Progress<F, Seq<u8>>,
)
    ensures
        s.went_on(vring, head, writable, progress).1 matches Ok(Turn::Call(_, flight)) ==> {
            &&& flight.vring == vring
            &&& flight.head == head
            &&& flight.writable == writable
        },
        s.went_on(vring, head, writable, progress).0.vrings == s.vrings,
        s.went_on(vring, head, writable, progress).0.session == s.session,
{
}

/// A request is answered in its own chain: the reply is in the chain's buffers
/// for the guest to read, whole if it fits and otherwise as far as they take it,
/// the used ring says which chain it is and how many bytes were written, and the
/// available ring stays as it is.
pub proof fn law_request_is_answered<K, F, D>(
    s: ServerView<K, F, D>,
    vring: int,
    head: u16,
    writable: Seq<(u64, u64)>,
    reply: Reply<Seq<u8>>,
    avail: u16,
    used: u16,
)
    requires
        s.live(vring),
        rings_in_order(s.vrings[vring].queue->0, s.memory->0),
        buffers_in_order(s.vrings[vring].queue->0, s.memory->0, writable, reply_data(reply)),
        indices(s.vrings[vring].queue->0, s.memory->0, avail, used),
    ensures
        ({
            let q = s.vrings[vring].queue->0;
            let data = reply_data(reply);
            let (after, turn) = s.completed(vring, head, writable, reply);
            let m = after.memory->0;
            &&& turn == Ok::<TurnView<F>, ProtoError>(Turn::Served)
            &&& after == (ServerView { memory: Some(m), ..s })
            &&& reply_is_in(m, writable, data)
            &&& published_at(q, m, used, head, taken_len(writable, data))
            &&& indices(q, m, avail, ((used + 1) % 0x1_0000) as u16)
            &&& same_offers(q, s.memory->0, m)
        }),
{
    let q = s.vrings[vring].queue->0;
    let after = lemma_reply_step(
        q,
        q.last_avail_idx,
        s.memory->0,
        head,
        writable,
        reply_data(reply),
        avail,
        used,
    );
}

/// Whether the next request of a vring, which is in the chain `head`, was taken
/// off it and answered with `reply` between these two states of the back-end.
/// The session may be in any state after it.
#[verifier::opaque]
pub open spec fn answered_next<K, F, D>(
    before: ServerView<K, F, D>,
    after: ServerView<K, F, D>,
    vring: int,
    head: u16,
    reply: Reply<Seq<u8>>,
) -> bool {
    let q = before.vrings[vring].queue->0;
    &&& fetched(q, before.memory->0) matches Ok(Some(f))
    &&& f.head == head
    &&& after == (ServerView {
        session: after.session,
        ..before.with_queue(vring, q.advanced())
    }).completed(vring, head, f.writable, reply).0
}

/// Whether the buffers of the next request of a vring are in order for `reply`.
#[verifier::opaque]
pub open spec fn buffers_in_order_next<K, F, D>(
    s: ServerView<K, F, D>,
    vring: int,
    reply: Reply<Seq<u8>>,
) -> bool {
    let q = s.vrings[vring].queue->0;
    let m = s.memory->0;
    &&& fetched(q, m) matches Ok(Some(f))
    &&& buffers_in_order(q, m, f.writable, reply_data(reply))
}

/// How many bytes of `reply` the buffers of the next request of a vring take, as
/// the used ring has it.
#[verifier::opaque]
pub open spec fn taken_next<K, F, D>(
    s: ServerView<K, F, D>,
    vring: int,
    reply: Reply<Seq<u8>>,
) -> u32 {
    taken_len(
        fetched(s.vrings[vring].queue->0, s.memory->0)->Ok_0->0.writable,
        reply_data(reply),
    )
}

/// Whether the buffers of the next request of a vring have `reply` after it, as
/// far as they take it.
#[verifier::opaque]
pub open spec fn reply_is_in_next<K, F, D>(
    before: ServerView<K, F, D>,
    after: ServerView<K, F, D>,
    vring: int,
    reply: Reply<Seq<u8>>,
) -> bool {
    reply_is_in(
        after.memory->0,
        fetched(before.vrings[vring].queue->0, before.memory->0)->Ok_0->0.writable,
        reply_data(reply),
    )
}

/// A request that is taken off a vring is answered there: at once, or, if it
/// needs calls, when the last of them has come back, as long as nothing else
/// was done to memory and the vrings in between.
pub proof fn law_turns_answer_requests<K, F, D>(
    s: ServerView<K, F, D>,
    vring: int,
    now: (i64, u32),
    then: ServerView<K, F, D>,
    reply: Reply<Seq<u8>>,
)
    requires
        0 <= vring < s.vrings.len(),
        s.memory is Some,
        s.vrings[vring].queue is Some,
    ensures
        s.turned(vring, now).1 matches Ok(Turn::Served) ==> exists|head: u16, r: Reply<Seq<u8>>|
            answered_next(s, s.turned(vring, now).0, vring, head, r),
        s.turned(vring, now).1 matches Ok(Turn::Call(_, flight)) ==> (then.memory == s.turned(
            vring,
            now,
        ).0.memory && then.vrings == s.turned(vring, now).0.vrings ==> answered_next(
            s,
            then.went_on(vring, flight.head, flight.writable, Progress::Reply(reply)).0,
            vring,
            flight.head,
            reply,
        )),
{
    reveal(answered_next);
    let q = s.vrings[vring].queue->0;
    let m = s.memory->0;
    let after = s.turned(vring, now).0;
    if let Ok(Some(f)) = fetched(q, m) {
        let (session, progress) = s.session.handled(f.request, now);
        let popped = s.with_queue(vring, q.advanced());
        if let Progress::Reply(r) = progress {
            assert(after.session == session);
            assert(answered_next(s, after, vring, f.head, r));
        } else {
            assert(after == (ServerView { session, ..popped }));
            let end = then.went_on(vring, f.head, f.writable, Progress::Reply(reply)).0;
            if then.memory == after.memory && then.vrings == after.vrings {
                assert(then =~= (ServerView { session: then.session, ..popped }));
                assert(end.session == then.session);
            }
        }
    }
}

/// Whether `n` requests of a vring were answered one after another, each in its
/// turn and over buffers that are in order. A reply may be larger than its
/// buffers: it is cut short, and the drain goes on.
pub open spec fn drains<K, F, D>(
    states: Seq<ServerView<K, F, D>>,
    vring: int,
    heads: Seq<u16>,
    replies: Seq<Reply<Seq<u8>>>,
    n: int,
) -> bool {
    &&& states.len() == n + 1
    &&& heads.len() == n
    &&& replies.len() == n
    &&& forall|i: int|
        #![trigger heads[i]]
        0 <= i < n ==> {
            &&& answered_next(states[i], states[i + 1], vring, heads[i], replies[i])
            &&& buffers_in_order_next(states[i], vring, replies[i])
        }
}

/// Draining a vring serves every request on it: when as many requests were
/// answered as the guest had published, they were those in the available ring,
/// in the order in which they are there, each in its turn had its reply put into
/// its buffers and was published with the number of bytes that they took, the
/// used index has gone up by as many, the vring's base is where the guest's index
/// is, and there is nothing more to take.
pub proof fn law_drain_serves_every_request<K, F, D>(
    states: Seq<ServerView<K, F, D>>,
    vring: int,
    heads: Seq<u16>,
    replies: Seq<Reply<Seq<u8>>>,
    n: int,
    q: QueueView,
    avail: u16,
    used: u16,
    now: (i64, u32),
)
    requires
        0 <= n,
        drains(states, vring, heads, replies, n),
        0 <= vring < states[0].vrings.len(),
        states[0].memory is Some,
        states[0].vrings[vring].queue == Some(q),
        rings_in_order(q, states[0].memory->0),
        indices(q, states[0].memory->0, avail, used),
        n == (avail - q.last_avail_idx) % 0x1_0000,
    ensures
        states[n].memory is Some,
        states[n].vrings[vring].queue == Some(QueueView { last_avail_idx: avail, ..q }),
        vring <= u32::MAX ==> base_of(states[n].vrings, vring as u32) == avail,
        indices(q, states[n].memory->0, avail, ((used + n) % 0x1_0000) as u16),
        forall|i: int|
            #![trigger heads[i]]
            0 <= i < n ==> {
                &&& offered_at(q, states[0].memory->0, q.ahead(i), heads[i])
                &&& published_at(
                    q,
                    states[i + 1].memory->0,
                    ((used + i) % 0x1_0000) as u16,
                    heads[i],
                    taken_next(states[i], vring, replies[i]),
                )
                &&& reply_is_in_next(states[i], states[i + 1], vring, replies[i])
            },
        states[n].turned(vring, now) == (states[n], Ok::<TurnView<F>, ProtoError>(Turn::Empty)),
{
    let end = states[n];
    let done = QueueView { last_avail_idx: avail, ..q };
    lemma_drained(states, vring, heads, replies, n, n, q, avail, used);
    lemma_ring_distance(q.last_avail_idx as int, avail as int, n);
    assert forall|i: int| #![trigger heads[i]] 0 <= i < n implies {
        &&& offered_at(q, states[0].memory->0, q.ahead(i), heads[i])
        &&& published_at(
            q,
            states[i + 1].memory->0,
            ((used + i) % 0x1_0000) as u16,
            heads[i],
            taken_next(states[i], vring, replies[i]),
        )
        &&& reply_is_in_next(states[i], states[i + 1], vring, replies[i])
    } by {
        lemma_drained(states, vring, heads, replies, n, i, q, avail, used);
        lemma_drained_next(states, vring, heads, replies, n, i, q, avail, used);
    }
    lemma_next_offer(q, avail, end.memory->0, avail, ((used + n) % 0x1_0000) as u16);
    lemma_turn_empty(end, vring, now, done);
}

/// A vring on which nothing is published has nothing to take.
proof fn lemma_turn_empty<K, F, D>(
    s: ServerView<K, F, D>,
    vring: int,
    now: (i64, u32),
    q: QueueView,
)
    requires
        0 <= vring < s.vrings.len(),
        s.memory is Some,
        s.vrings[vring].queue == Some(q),
        q.popped(s.memory->0) == Ok::<Option<u16>, VirtqueueError>(None),
        q.after_pop(s.memory->0) == q,
    ensures
        s.turned(vring, now) == (s, Ok::<TurnView<F>, ProtoError>(Turn::Empty)),
{
    assert(s.with_queue(vring, q).vrings =~= s.vrings);
}

/// How far a drain is after `k` requests.
proof fn lemma_drained<K, F, D>(
    states: Seq<ServerView<K, F, D>>,
    vring: int,
    heads: Seq<u16>,
    replies: Seq<Reply<Seq<u8>>>,
    n: int,
    k: int,
    q: QueueView,
    avail: u16,
    used: u16,
)
    requires
        drains(states, vring, heads, replies, n),
        0 <= k <= n,
        0 <= vring < states[0].vrings.len(),
        states[0].memory is Some,
        states[0].vrings[vring].queue == Some(q),
        rings_in_order(q, states[0].memory->0),
        indices(q, states[0].memory->0, avail, used),
    ensures
        states[k].memory is Some,
        states[k].vrings.len() == states[0].vrings.len(),
        states[k].vrings[vring].queue == Some(QueueView { last_avail_idx: q.ahead(k), ..q }),
        rings_in_order(q, states[k].memory->0),
        same_offers(q, states[0].memory->0, states[k].memory->0),
        indices(q, states[k].memory->0, avail, ((used + k) % 0x1_0000) as u16),
    decreases k,
{
    let m = states[0].memory->0;
    if k > 0 {
        lemma_drained(states, vring, heads, replies, n, k - 1, q, avail, used);
        lemma_drained_next(states, vring, heads, replies, n, k - 1, q, avail, used);
        lemma_same_offers(q, m, states[k - 1].memory->0, states[k].memory->0, 0, 0);
    } else {
        assert(same_offers(q, m, m)) by {
            reveal(same_offers);
        }
    }
}

/// What the request after `k` others does.
proof fn lemma_drained_next<K, F, D>(
    states: Seq<ServerView<K, F, D>>,
    vring: int,
    heads: Seq<u16>,
    replies: Seq<Reply<Seq<u8>>>,
    n: int,
    k: int,
    q: QueueView,
    avail: u16,
    used: u16,
)
    requires
        drains(states, vring, heads, replies, n),
        0 <= k < n,
        0 <= vring < states[k].vrings.len(),
        states[k].memory is Some,
        states[k].vrings[vring].queue == Some(QueueView { last_avail_idx: q.ahead(k), ..q }),
        rings_in_order(q, states[k].memory->0),
        same_offers(q, states[0].memory->0, states[k].memory->0),
        indices(q, states[k].memory->0, avail, ((used + k) % 0x1_0000) as u16),
    ensures
        states[k + 1].memory is Some,
        states[k + 1].vrings.len() == states[k].vrings.len(),
        states[k + 1].vrings[vring].queue == Some(
            QueueView { last_avail_idx: q.ahead(k + 1), ..q },
        ),
        rings_in_order(q, states[k + 1].memory->0),
        same_offers(q, states[k].memory->0, states[k + 1].memory->0),
        indices(q, states[k + 1].memory->0, avail, ((used + k + 1) % 0x1_0000) as u16),
        offered_at(q, states[0].memory->0, q.ahead(k), heads[k]),
        published_at(
            q,
            states[k + 1].memory->0,
            ((used + k) % 0x1_0000) as u16,
            heads[k],
            taken_next(states[k], vring, replies[k]),
        ),
        reply_is_in_next(states[k], states[k + 1], vring, replies[k]),
{
    let before = states[k];
    let at = ((used + k) % 0x1_0000) as u16;
    lemma_next_index(used as int, k);
    lemma_next_index(q.last_avail_idx as int, k);
    assert(answered_next(before, states[k + 1], vring, heads[k], replies[k]));
    lemma_drain_step(
        before,
        states[k + 1],
        vring,
        heads[k],
        replies[k],
        q,
        q.ahead(k),
        avail,
        at,
    );
    lemma_same_offers(
        q,
        states[0].memory->0,
        before.memory->0,
        before.memory->0,
        q.ahead(k),
        heads[k],
    );
}

/// One step more is the next index.
proof fn lemma_next_index(from: int, k: int)
    requires
        0 <= from,
        0 <= k,
    ensures
        ((((from + k) % 0x1_0000) as u16 + 1) % 0x1_0000) as u16 == ((from + k + 1) % 0x1_0000)
            as u16,
{
}

/// What one request of a drain does. `q` is the vring's queue but for where it
/// is, and `at` is where it is.
proof fn lemma_drain_step<K, F, D>(
    before: ServerView<K, F, D>,
    after: ServerView<K, F, D>,
    vring: int,
    head: u16,
    reply: Reply<Seq<u8>>,
    q: QueueView,
    at: u16,
    avail: u16,
    used: u16,
)
    requires
        0 <= vring < before.vrings.len(),
        before.memory is Some,
        before.vrings[vring].queue == Some(QueueView { last_avail_idx: at, ..q }),
        rings_in_order(q, before.memory->0),
        indices(q, before.memory->0, avail, used),
        answered_next(before, after, vring, head, reply),
        buffers_in_order_next(before, vring, reply),
    ensures
        after.memory is Some,
        after.vrings.len() == before.vrings.len(),
        after.vrings[vring].queue == Some(
            QueueView { last_avail_idx: ((at + 1) % 0x1_0000) as u16, ..q },
        ),
        rings_in_order(q, after.memory->0),
        same_offers(q, before.memory->0, after.memory->0),
        indices(q, after.memory->0, avail, ((used + 1) % 0x1_0000) as u16),
        offered_at(q, before.memory->0, at, head),
        published_at(q, after.memory->0, used, head, taken_next(before, vring, reply)),
        reply_is_in_next(before, after, vring, reply),
{
    reveal(answered_next);
    reveal(buffers_in_order_next);
    reveal(taken_next);
    reveal(reply_is_in_next);
    let m = before.memory->0;
    let now = QueueView { last_avail_idx: at, ..q };
    let f = fetched(now, m)->Ok_0->0;
    let data = reply_data(reply);
    let popped = ServerView {
        session: after.session,
        ..before.with_queue(vring, now.advanced())
    };
    assert(popped.vrings[vring].queue == Some(now.advanced()));
    lemma_next_offer(q, at, m, avail, used);
    lemma_same_rings(q, at, m, f.writable, data);
    let next = lemma_reply_step(
        q,
        now.advanced().last_avail_idx,
        m,
        head,
        f.writable,
        data,
        avail,
        used,
    );
}

} // verus!
