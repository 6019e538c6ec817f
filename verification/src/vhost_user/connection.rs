//! Framing: a message is a header and a payload, with descriptors beside it.
//!
//! On a stream, descriptors belong to the call that carried the bytes they
//! came with, not to a position among the bytes. So a message is sent with
//! its descriptors attached to the first piece of it, and when one is received
//! the descriptors are taken from whichever pieces they come with.
use crate::error::{ProtoError, ProtoResult};
use crate::octets::{append, copied};
use crate::vhost_user::header::{
    header_bytes, header_of, law_header_roundtrip, MsgHeader, HEADER_LEN,
};
use vstd::prelude::*;
use vstd::slice::slice_subrange;

verus! {

/// How many descriptors one receiving call has room for. A memory table has
/// eight at most, by the reference implementation.
pub const MAX_FDS_PER_RECV: usize = 32;

/// The longest payload that is received.
pub const MAX_PAYLOAD: usize = 1048576;

/// A message: header, payload, and the descriptors that came with it.
pub struct Message<K> {
    pub header: MsgHeader,
    pub payload: Vec<u8>,
    pub fds: Vec<K>,
}

/// The bytes of a message.
pub open spec fn message_bytes(header: MsgHeader, payload: Seq<u8>) -> Seq<u8> {
    header_bytes(header) + payload
}

/// The bytes of a message.
pub fn encode_message(header: MsgHeader, payload: &[u8]) -> (r: Vec<u8>)
    ensures
        r@ == message_bytes(header, payload@),
{
    let mut buf: Vec<u8> = Vec::new();
    append(&mut buf, &header.to_bytes());
    assert(buf@ =~= header_bytes(header));
    append(&mut buf, payload);
    buf
}

/// A message on its way out.
pub struct MessageWriter {
    buf: Vec<u8>,
    sent: usize,
}

impl MessageWriter {
    /// The whole message.
    pub closed spec fn bytes(&self) -> Seq<u8> {
        self.buf@
    }

    /// How much of it was sent.
    pub closed spec fn sent(&self) -> int {
        self.sent as int
    }

    pub open spec fn wf(&self) -> bool {
        0 <= self.sent() <= self.bytes().len()
    }

    pub fn new(header: MsgHeader, payload: &[u8]) -> (w: Self)
        ensures
            w.wf(),
            w.bytes() == message_bytes(header, payload@),
            w.sent() == 0,
    {
        MessageWriter { buf: encode_message(header, payload), sent: 0 }
    }

    /// What is left to send.
    pub fn remaining(&self) -> (r: &[u8])
        requires
            self.wf(),
        ensures
            r@ == self.bytes().skip(self.sent()),
    {
        let r = slice_subrange(self.buf.as_slice(), self.sent, self.buf.len());
        assert(r@ =~= self.bytes().skip(self.sent()));
        r
    }

    /// Whether the descriptors go with the next piece.
    pub fn attach_fds(&self) -> (b: bool)
        ensures
            b == (self.sent() == 0),
    {
        self.sent == 0
    }

    /// Notes that `n` bytes went out, and says whether that was all of the
    /// message. A peer that takes nothing is gone.
    pub fn advance(&mut self, n: usize) -> (r: ProtoResult<bool>)
        requires
            old(self).wf(),
            n <= old(self).bytes().len() - old(self).sent(),
        ensures
            final(self).wf(),
            final(self).bytes() == old(self).bytes(),
            final(self).sent() == old(self).sent() + n,
            n == 0 ==> r == Err::<bool, _>(ProtoError::Disconnected),
            n > 0 ==> r == Ok::<bool, ProtoError>(
                old(self).sent() + n == old(self).bytes().len(),
            ),
    {
        if n == 0 {
            return Err(ProtoError::Disconnected);
        }
        let len: usize = self.buf.len();
        assert(self.sent + n <= len);
        self.sent = self.sent + n;
        Ok(self.sent == len)
    }
}

/// What has come of a message, as a value.
#[verifier::ext_equal]
pub struct Received<K> {
    pub bytes: Seq<u8>,
    pub fds: Seq<K>,
}

impl<K> Received<K> {
    /// How many bytes the message has, as far as is known: those of a header,
    /// and once that is there, those of the payload too.
    pub open spec fn whole(self) -> int {
        if self.bytes.len() < HEADER_LEN {
            HEADER_LEN as int
        } else {
            HEADER_LEN + header_of(self.bytes).size
        }
    }

    /// With another piece.
    pub open spec fn with(self, chunk: Seq<u8>, fds: Seq<K>) -> Self {
        Received { bytes: self.bytes + chunk, fds: self.fds + fds }
    }

    /// Whether the header announces a payload that is too long.
    pub open spec fn too_large(self) -> bool {
        self.bytes.len() >= HEADER_LEN && header_of(self.bytes).size > MAX_PAYLOAD
    }

    /// Whether the message is all there.
    pub open spec fn complete(self) -> bool {
        self.bytes.len() >= HEADER_LEN && self.bytes.len() == self.whole()
    }
}

/// A message on its way in.
pub struct MessageReader<K> {
    buf: Vec<u8>,
    fds: Vec<K>,
}

impl<K> View for MessageReader<K> {
    type V = Received<K>;

    closed spec fn view(&self) -> Received<K> {
        Received { bytes: self.buf@, fds: self.fds@ }
    }
}

impl<K> MessageReader<K> {
    /// Nothing has come yet.
    pub fn new() -> (r: Self)
        ensures
            r@ == (Received { bytes: Seq::<u8>::empty(), fds: Seq::<K>::empty() }),
    {
        MessageReader { buf: Vec::new(), fds: Vec::new() }
    }

    /// The header, once it is there.
    fn header(&self) -> (h: Option<MsgHeader>)
        ensures
            self@.bytes.len() < HEADER_LEN ==> h is None,
            self@.bytes.len() >= HEADER_LEN ==> h == Some(header_of(self@.bytes)),
    {
        if self.buf.len() < HEADER_LEN {
            return None;
        }
        let mut raw: [u8; 12] = [0; 12];
        let mut i: usize = 0;
        while i < 12
            invariant
                i <= 12,
                self.buf@.len() >= HEADER_LEN,
                forall|j: int| 0 <= j < i ==> raw@[j] == self.buf@[j],
            decreases 12 - i,
        {
            raw[i] = self.buf[i];
            i += 1;
        }
        let h = MsgHeader::from_bytes(&raw);
        assert(raw@ =~= self.buf@.subrange(0, 12));
        proof {
            crate::le::lemma_le_shift(self.buf@, 0, 12, 0);
            crate::le::lemma_le_shift(self.buf@, 0, 12, 4);
            crate::le::lemma_le_shift(self.buf@, 0, 12, 8);
        }
        Some(h)
    }

    /// How many bytes to ask for next, so that no more than this message is
    /// read.
    pub fn wanted(&self) -> (n: usize)
        requires
            self@.bytes.len() <= self@.whole(),
            !self@.too_large(),
        ensures
            n == self@.whole() - self@.bytes.len(),
    {
        match self.header() {
            None => HEADER_LEN - self.buf.len(),
            Some(h) => HEADER_LEN + h.size as usize - self.buf.len(),
        }
    }

    /// Takes a piece of the message, with the descriptors that came with it,
    /// and says whether the message is all there. A piece without bytes means
    /// that the peer is gone.
    pub fn feed(&mut self, chunk: &[u8], fds: Vec<K>) -> (r: ProtoResult<bool>)
        ensures
            chunk@.len() == 0 ==> r == Err::<bool, _>(ProtoError::Disconnected) && final(self)@
                == old(self)@,
            chunk@.len() > 0 ==> {
                let now = old(self)@.with(chunk@, fds@);
                &&& final(self)@ == now
                &&& now.too_large() ==> r == Err::<bool, _>(
                    ProtoError::PayloadTooLarge(header_of(now.bytes).size as usize),
                )
                &&& !now.too_large() ==> r == Ok::<bool, ProtoError>(now.complete())
            },
    {
        if chunk.len() == 0 {
            return Err(ProtoError::Disconnected);
        }
        let mut fds = fds;
        append(&mut self.buf, chunk);
        self.fds.append(&mut fds);
        match self.header() {
            None => Ok(false),
            Some(h) => {
                if h.size as usize > MAX_PAYLOAD {
                    return Err(ProtoError::PayloadTooLarge(h.size as usize));
                }
                Ok(self.buf.len() == HEADER_LEN + h.size as usize)
            },
        }
    }

    /// The message.
    pub fn finish(self) -> (m: Message<K>)
        requires
            self@.complete(),
        ensures
            m.header == header_of(self@.bytes),
            m.payload@ == self@.bytes.skip(HEADER_LEN as int),
            m.fds@ == self@.fds,
    {
        let header = match self.header() {
            Some(h) => h,
            None => MsgHeader { request: 0, flags: 0, size: 0 },
        };
        let payload = copied(
            slice_subrange(self.buf.as_slice(), HEADER_LEN, self.buf.len()),
        );
        assert(payload@ =~= self@.bytes.skip(HEADER_LEN as int));
        Message { header, payload, fds: self.fds }
    }
}

impl<K> Received<K> {
    /// Before anything has come.
    pub open spec fn nothing() -> Self {
        Received { bytes: Seq::empty(), fds: Seq::empty() }
    }

    /// With these pieces, each with the descriptors that came with it.
    pub open spec fn with_all(self, pieces: Seq<(Seq<u8>, Seq<K>)>) -> Self
        decreases pieces.len(),
    {
        if pieces.len() == 0 {
            self
        } else {
            self.with_all(pieces.drop_last()).with(pieces.last().0, pieces.last().1)
        }
    }
}

/// However a message is cut into pieces, it is put together again: it is
/// complete when the last piece is in and not before, and then header and
/// payload are those that were sent.
pub proof fn law_message_survives_cutting<K>(
    header: MsgHeader,
    payload: Seq<u8>,
    pieces: Seq<(Seq<u8>, Seq<K>)>,
)
    requires
        header.size == payload.len(),
        payload.len() <= MAX_PAYLOAD,
        Received::<K>::nothing().with_all(pieces).bytes == message_bytes(header, payload),
        forall|i: int| 0 <= i < pieces.len() ==> (#[trigger] pieces[i]).0.len() > 0,
    ensures
        ({
            let end = Received::<K>::nothing().with_all(pieces);
            &&& end.complete()
            &&& !end.too_large()
            &&& header_of(end.bytes) == header
            &&& end.bytes.skip(HEADER_LEN as int) == payload
        }),
        forall|n: int|
            0 <= n < pieces.len() ==> {
                let early = #[trigger] Received::<K>::nothing().with_all(pieces.take(n));
                !early.complete() && !early.too_large()
            },
{
    let sent = message_bytes(header, payload);
    let end = Received::<K>::nothing().with_all(pieces);
    lemma_header_of_prefix(header, payload, sent.len() as int);
    assert(sent.take(sent.len() as int) =~= sent);
    assert(end.bytes.skip(HEADER_LEN as int) =~= payload);
    assert forall|n: int| 0 <= n < pieces.len() implies {
        let early = #[trigger] Received::<K>::nothing().with_all(pieces.take(n));
        !early.complete() && !early.too_large()
    } by {
        lemma_earlier_pieces(pieces, n);
        let early = Received::<K>::nothing().with_all(pieces.take(n));
        lemma_header_of_prefix(header, payload, early.bytes.len() as int);
    }
}

/// What the first `n` pieces hold is the front of what all of them hold, and
/// less than all of it.
proof fn lemma_earlier_pieces<K>(pieces: Seq<(Seq<u8>, Seq<K>)>, n: int)
    requires
        0 <= n <= pieces.len(),
        forall|i: int| 0 <= i < pieces.len() ==> (#[trigger] pieces[i]).0.len() > 0,
    ensures
        ({
            let early = Received::<K>::nothing().with_all(pieces.take(n)).bytes;
            let end = Received::<K>::nothing().with_all(pieces).bytes;
            &&& early.len() <= end.len()
            &&& n < pieces.len() ==> early.len() < end.len()
            &&& early == end.take(early.len() as int)
        }),
    decreases pieces.len(),
{
    let early = Received::<K>::nothing().with_all(pieces.take(n)).bytes;
    let end = Received::<K>::nothing().with_all(pieces).bytes;
    if n == pieces.len() {
        assert(pieces.take(n) =~= pieces);
    } else {
        let before = pieces.drop_last();
        assert(pieces[pieces.len() - 1].0.len() > 0);
        lemma_earlier_pieces(before, n);
        assert(before.take(n) =~= pieces.take(n));
    }
    assert(early =~= end.take(early.len() as int));
}

/// A reader that asks for what is wanted takes no more than its message: a
/// piece that is no longer than that is a piece of the message, and after it
/// the reader has that much more of the message, and all of it exactly if the
/// piece was the last.
pub proof fn law_reader_stays_in_its_message<K>(
    header: MsgHeader,
    payload: Seq<u8>,
    before: Received<K>,
    taken: int,
    piece: int,
    fds: Seq<K>,
)
    requires
        header.size == payload.len(),
        payload.len() <= MAX_PAYLOAD,
        0 <= taken < message_bytes(header, payload).len(),
        before.bytes == message_bytes(header, payload).take(taken),
        0 < piece <= before.whole() - taken,
    ensures
        ({
            let sent = message_bytes(header, payload);
            let after = before.with(sent.subrange(taken, taken + piece), fds);
            &&& taken + piece <= sent.len()
            &&& after.bytes == sent.take(taken + piece)
            &&& after.fds == before.fds + fds
            &&& !after.too_large()
            &&& after.complete() <==> taken + piece == sent.len()
            &&& after.complete() ==> header_of(after.bytes) == header && after.bytes.skip(
                HEADER_LEN as int,
            ) == payload
        }),
{
    let sent = message_bytes(header, payload);
    law_header_roundtrip(header);
    lemma_header_of_prefix(header, payload, taken);
    assert(taken + piece <= sent.len());
    let after = before.with(sent.subrange(taken, taken + piece), fds);
    assert(after.bytes =~= sent.take(taken + piece));
    lemma_header_of_prefix(header, payload, taken + piece);
    if taken + piece == sent.len() {
        assert(after.bytes.skip(HEADER_LEN as int) =~= payload);
    }
}

/// Once all of the header is there, it reads as it was.
proof fn lemma_header_of_prefix(header: MsgHeader, payload: Seq<u8>, n: int)
    requires
        0 <= n <= message_bytes(header, payload).len(),
    ensures
        message_bytes(header, payload).len() == HEADER_LEN + payload.len(),
        n >= HEADER_LEN ==> header_of(message_bytes(header, payload).take(n)) == header,
{
    law_header_roundtrip(header);
    if n >= HEADER_LEN {
        let w = message_bytes(header, payload).take(n);
        assert(w.subrange(0, 12) =~= header_bytes(header));
        crate::le::lemma_le_shift(w, 0, 12, 0);
        crate::le::lemma_le_shift(w, 0, 12, 4);
        crate::le::lemma_le_shift(w, 0, 12, 8);
    }
}

} // verus!
