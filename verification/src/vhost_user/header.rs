//! The header that precedes every vhost-user message, and the requests that a
//! front-end makes.
use crate::error::{ProtoError, ProtoResult};
use crate::le;
use vstd::prelude::*;

verus! {

pub const HEADER_LEN: usize = 12;

/// Set in every message: version 1, the only version there is.
pub const FLAG_VERSION_1: u32 = 0x1;

/// Set in the reply to a request.
pub const FLAG_REPLY: u32 = 0x4;

/// Set by a requester that wants a reply even to a message that normally gets
/// none.
pub const FLAG_NEED_REPLY: u32 = 0x8;

/// What a front-end may ask for.
#[derive(Debug, Clone, Copy, PartialEq, Eq, Structural)]
pub enum Request {
    GetFeatures,
    SetFeatures,
    SetOwner,
    ResetOwner,
    SetMemTable,
    SetLogBase,
    SetLogFd,
    SetVringNum,
    SetVringAddr,
    SetVringBase,
    GetVringBase,
    SetVringKick,
    SetVringCall,
    SetVringErr,
    GetProtocolFeatures,
    SetProtocolFeatures,
    GetQueueNum,
    SetVringEnable,
}

/// The code of a request on the wire.
pub open spec fn request_code(r: Request) -> u32 {
    match r {
        Request::GetFeatures => 1,
        Request::SetFeatures => 2,
        Request::SetOwner => 3,
        Request::ResetOwner => 4,
        Request::SetMemTable => 5,
        Request::SetLogBase => 6,
        Request::SetLogFd => 7,
        Request::SetVringNum => 8,
        Request::SetVringAddr => 9,
        Request::SetVringBase => 10,
        Request::GetVringBase => 11,
        Request::SetVringKick => 12,
        Request::SetVringCall => 13,
        Request::SetVringErr => 14,
        Request::GetProtocolFeatures => 15,
        Request::SetProtocolFeatures => 16,
        Request::GetQueueNum => 17,
        Request::SetVringEnable => 18,
    }
}

/// The request with this code.
pub open spec fn request_of(v: u32) -> ProtoResult<Request> {
    match v {
        1 => Ok(Request::GetFeatures),
        2 => Ok(Request::SetFeatures),
        3 => Ok(Request::SetOwner),
        4 => Ok(Request::ResetOwner),
        5 => Ok(Request::SetMemTable),
        6 => Ok(Request::SetLogBase),
        7 => Ok(Request::SetLogFd),
        8 => Ok(Request::SetVringNum),
        9 => Ok(Request::SetVringAddr),
        10 => Ok(Request::SetVringBase),
        11 => Ok(Request::GetVringBase),
        12 => Ok(Request::SetVringKick),
        13 => Ok(Request::SetVringCall),
        14 => Ok(Request::SetVringErr),
        15 => Ok(Request::GetProtocolFeatures),
        16 => Ok(Request::SetProtocolFeatures),
        17 => Ok(Request::GetQueueNum),
        18 => Ok(Request::SetVringEnable),
        other => Err(ProtoError::UnknownRequest(other)),
    }
}

impl Request {
    /// The code of the request on the wire.
    pub fn code(self) -> (v: u32)
        ensures
            v == request_code(self),
    {
        match self {
            Request::GetFeatures => 1,
            Request::SetFeatures => 2,
            Request::SetOwner => 3,
            Request::ResetOwner => 4,
            Request::SetMemTable => 5,
            Request::SetLogBase => 6,
            Request::SetLogFd => 7,
            Request::SetVringNum => 8,
            Request::SetVringAddr => 9,
            Request::SetVringBase => 10,
            Request::GetVringBase => 11,
            Request::SetVringKick => 12,
            Request::SetVringCall => 13,
            Request::SetVringErr => 14,
            Request::GetProtocolFeatures => 15,
            Request::SetProtocolFeatures => 16,
            Request::GetQueueNum => 17,
            Request::SetVringEnable => 18,
        }
    }
}

impl TryFrom<u32> for Request {
    type Error = ProtoError;

    fn try_from(v: u32) -> (r: Result<Self, ProtoError>) {
        match v {
            1 => Ok(Request::GetFeatures),
            2 => Ok(Request::SetFeatures),
            3 => Ok(Request::SetOwner),
            4 => Ok(Request::ResetOwner),
            5 => Ok(Request::SetMemTable),
            6 => Ok(Request::SetLogBase),
            7 => Ok(Request::SetLogFd),
            8 => Ok(Request::SetVringNum),
            9 => Ok(Request::SetVringAddr),
            10 => Ok(Request::SetVringBase),
            11 => Ok(Request::GetVringBase),
            12 => Ok(Request::SetVringKick),
            13 => Ok(Request::SetVringCall),
            14 => Ok(Request::SetVringErr),
            15 => Ok(Request::GetProtocolFeatures),
            16 => Ok(Request::SetProtocolFeatures),
            17 => Ok(Request::GetQueueNum),
            18 => Ok(Request::SetVringEnable),
            other => Err(ProtoError::UnknownRequest(other)),
        }
    }
}

impl vstd::std_specs::convert::TryFromSpecImpl<u32> for Request {
    open spec fn obeys_try_from_spec() -> bool {
        true
    }

    open spec fn try_from_spec(v: u32) -> Result<Self, ProtoError> {
        request_of(v)
    }
}

/// The header of a message: a request code that is not checked yet, flags, and
/// the length of the payload that follows.
#[derive(Debug, Clone, Copy, PartialEq, Eq, Structural)]
pub struct MsgHeader {
    pub request: u32,
    pub flags: u32,
    pub size: u32,
}

/// The bytes of a header.
pub open spec fn header_bytes(h: MsgHeader) -> Seq<u8> {
    le::u32_bytes(h.request) + le::u32_bytes(h.flags) + le::u32_bytes(h.size)
}

/// The header at the front of `b`.
pub open spec fn header_of(b: Seq<u8>) -> MsgHeader {
    MsgHeader {
        request: le::le32_at(b, 0),
        flags: le::le32_at(b, 4),
        size: le::le32_at(b, 8),
    }
}

impl MsgHeader {
    pub fn new(request: Request, flags: u32, size: u32) -> (h: Self)
        ensures
            h == (MsgHeader { request: request_code(request), flags: flags | FLAG_VERSION_1, size }),
    {
        MsgHeader { request: request.code(), flags: flags | FLAG_VERSION_1, size }
    }

    /// The header of the reply to a request.
    pub fn reply(request: Request, size: u32) -> (h: Self)
        ensures
            h == (MsgHeader { request: request_code(request), flags: 5, size }),
    {
        assert(0x4u32 | 0x1u32 == 5u32) by (bit_vector);
        Self::new(request, FLAG_REPLY, size)
    }

    pub fn request(&self) -> (r: ProtoResult<Request>)
        ensures
            r == request_of(self.request),
    {
        Request::try_from(self.request)
    }

    pub fn is_reply(&self) -> (b: bool)
        ensures
            b == (self.flags & FLAG_REPLY != 0),
    {
        self.flags & FLAG_REPLY != 0
    }

    pub fn needs_reply(&self) -> (b: bool)
        ensures
            b == (self.flags & FLAG_NEED_REPLY != 0),
    {
        self.flags & FLAG_NEED_REPLY != 0
    }

    pub fn to_bytes(self) -> (r: [u8; 12])
        ensures
            r@ == header_bytes(self),
    {
        let a: [u8; 4] = le::u32_array(self.request);
        let b: [u8; 4] = le::u32_array(self.flags);
        let c: [u8; 4] = le::u32_array(self.size);
        let r: [u8; 12] = [
            a[0], a[1], a[2], a[3], b[0], b[1], b[2], b[3], c[0], c[1], c[2], c[3],
        ];
        assert(r@ =~= header_bytes(self));
        r
    }

    pub fn from_bytes(buf: &[u8; 12]) -> (h: Self)
        ensures
            h == header_of(buf@),
    {
        MsgHeader {
            request: le::read_u32_at(buf, 0),
            flags: le::read_u32_at(buf, 4),
            size: le::read_u32_at(buf, 8),
        }
    }
}

/// A header comes back from its bytes as it was.
#[verifier::spinoff_prover]
pub proof fn law_header_roundtrip(h: MsgHeader)
    ensures
        header_bytes(h).len() == HEADER_LEN,
        header_of(header_bytes(h)) == h,
{
    let w = header_bytes(h);
    assert(w.subrange(0, 4) =~= le::u32_bytes(h.request));
    assert(w.subrange(4, 8) =~= le::u32_bytes(h.flags));
    assert(w.subrange(8, 12) =~= le::u32_bytes(h.size));
    le::lemma_at(w, 0, 0, h.request, 0);
    le::lemma_at(w, 4, 0, h.flags, 0);
    le::lemma_at(w, 8, 0, h.size, 0);
}

/// A request comes back from its code, and a code that gives a request is that
/// request's.
pub proof fn law_request_codes(r: Request, v: u32)
    ensures
        request_of(request_code(r)) == Ok::<Request, ProtoError>(r),
        request_of(v) matches Ok(q) ==> request_code(q) == v,
        request_of(v) matches Err(e) ==> e == ProtoError::UnknownRequest(v),
        request_of(v) is Ok <==> 1 <= v <= 18,
{
}

/// Every header that is made has the version flag, and a reply is a reply.
pub proof fn law_header_flags(flags: u32)
    ensures
        (flags | FLAG_VERSION_1) & FLAG_VERSION_1 == FLAG_VERSION_1,
        (flags | FLAG_VERSION_1) & FLAG_REPLY == flags & FLAG_REPLY,
        (flags | FLAG_VERSION_1) & FLAG_NEED_REPLY == flags & FLAG_NEED_REPLY,
        5u32 & FLAG_REPLY != 0,
        5u32 & FLAG_NEED_REPLY == 0,
{
    assert((flags | 0x1u32) & 0x1u32 == 0x1u32) by (bit_vector);
    assert((flags | 0x1u32) & 0x4u32 == flags & 0x4u32) by (bit_vector);
    assert((flags | 0x1u32) & 0x8u32 == flags & 0x8u32) by (bit_vector);
    assert(5u32 & 0x4u32 != 0 && 5u32 & 0x8u32 == 0) by (bit_vector);
}

/// The requests have the numbers of the vhost-user protocol.
pub proof fn law_request_numbers()
    ensures
        request_of(1) == Ok::<Request, ProtoError>(Request::GetFeatures),
        request_of(2) == Ok::<Request, ProtoError>(Request::SetFeatures),
        request_of(3) == Ok::<Request, ProtoError>(Request::SetOwner),
        request_of(4) == Ok::<Request, ProtoError>(Request::ResetOwner),
        request_of(5) == Ok::<Request, ProtoError>(Request::SetMemTable),
        request_of(6) == Ok::<Request, ProtoError>(Request::SetLogBase),
        request_of(7) == Ok::<Request, ProtoError>(Request::SetLogFd),
        request_of(8) == Ok::<Request, ProtoError>(Request::SetVringNum),
        request_of(9) == Ok::<Request, ProtoError>(Request::SetVringAddr),
        request_of(10) == Ok::<Request, ProtoError>(Request::SetVringBase),
        request_of(11) == Ok::<Request, ProtoError>(Request::GetVringBase),
        request_of(12) == Ok::<Request, ProtoError>(Request::SetVringKick),
        request_of(13) == Ok::<Request, ProtoError>(Request::SetVringCall),
        request_of(14) == Ok::<Request, ProtoError>(Request::SetVringErr),
        request_of(15) == Ok::<Request, ProtoError>(Request::GetProtocolFeatures),
        request_of(16) == Ok::<Request, ProtoError>(Request::SetProtocolFeatures),
        request_of(17) == Ok::<Request, ProtoError>(Request::GetQueueNum),
        request_of(18) == Ok::<Request, ProtoError>(Request::SetVringEnable),
{
}

} // verus!
