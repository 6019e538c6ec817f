//! The request codes of the vhost-user protocol.
use crate::vhost_user::header::{request_code, Request};
use vstd::prelude::*;

verus! {

/// The requests that a front-end makes.
#[derive(Debug, Clone, Copy, PartialEq, Eq, Structural)]
pub enum FrontEndRequest {
    GetFeatures,
    SetFeatures,
    SetOwner,
    ResetOwner,
    SetMemTable,
    SetLogBase,
    SetLogFd,
    SetVringNum,
    SetVringAddr,
    SetVringBase,
    GetVringBase,
    SetVringKick,
    SetVringCall,
    SetVringErr,
    GetProtocolFeatures,
    SetProtocolFeatures,
    GetQueueNum,
    SetVringEnable,
}

/// The same request, as the message header has it.
pub open spec fn header_request(r: FrontEndRequest) -> Request {
    match r {
        FrontEndRequest::GetFeatures => Request::GetFeatures,
        FrontEndRequest::SetFeatures => Request::SetFeatures,
        FrontEndRequest::SetOwner => Request::SetOwner,
        FrontEndRequest::ResetOwner => Request::ResetOwner,
        FrontEndRequest::SetMemTable => Request::SetMemTable,
        FrontEndRequest::SetLogBase => Request::SetLogBase,
        FrontEndRequest::SetLogFd => Request::SetLogFd,
        FrontEndRequest::SetVringNum => Request::SetVringNum,
        FrontEndRequest::SetVringAddr => Request::SetVringAddr,
        FrontEndRequest::SetVringBase => Request::SetVringBase,
        FrontEndRequest::GetVringBase => Request::GetVringBase,
        FrontEndRequest::SetVringKick => Request::SetVringKick,
        FrontEndRequest::SetVringCall => Request::SetVringCall,
        FrontEndRequest::SetVringErr => Request::SetVringErr,
        FrontEndRequest::GetProtocolFeatures => Request::GetProtocolFeatures,
        FrontEndRequest::SetProtocolFeatures => Request::SetProtocolFeatures,
        FrontEndRequest::GetQueueNum => Request::GetQueueNum,
        FrontEndRequest::SetVringEnable => Request::SetVringEnable,
    }
}

impl FrontEndRequest {
    /// The code of the request on the wire.
    pub fn code(self) -> (v: u32)
        ensures
            v == request_code(header_request(self)),
    {
        match self {
            FrontEndRequest::GetFeatures => 1,
            FrontEndRequest::SetFeatures => 2,
            FrontEndRequest::SetOwner => 3,
            FrontEndRequest::ResetOwner => 4,
            FrontEndRequest::SetMemTable => 5,
            FrontEndRequest::SetLogBase => 6,
            FrontEndRequest::SetLogFd => 7,
            FrontEndRequest::SetVringNum => 8,
            FrontEndRequest::SetVringAddr => 9,
            FrontEndRequest::SetVringBase => 10,
            FrontEndRequest::GetVringBase => 11,
            FrontEndRequest::SetVringKick => 12,
            FrontEndRequest::SetVringCall => 13,
            FrontEndRequest::SetVringErr => 14,
            FrontEndRequest::GetProtocolFeatures => 15,
            FrontEndRequest::SetProtocolFeatures => 16,
            FrontEndRequest::GetQueueNum => 17,
            FrontEndRequest::SetVringEnable => 18,
        }
    }
}

/// The requests have the numbers of the vhost-user protocol.
pub proof fn law_front_end_request_numbers()
    ensures
        request_code(header_request(FrontEndRequest::GetFeatures)) == 1,
        request_code(header_request(FrontEndRequest::SetFeatures)) == 2,
        request_code(header_request(FrontEndRequest::SetOwner)) == 3,
        request_code(header_request(FrontEndRequest::ResetOwner)) == 4,
        request_code(header_request(FrontEndRequest::SetMemTable)) == 5,
        request_code(header_request(FrontEndRequest::SetLogBase)) == 6,
        request_code(header_request(FrontEndRequest::SetLogFd)) == 7,
        request_code(header_request(FrontEndRequest::SetVringNum)) == 8,
        request_code(header_request(FrontEndRequest::SetVringAddr)) == 9,
        request_code(header_request(FrontEndRequest::SetVringBase)) == 10,
        request_code(header_request(FrontEndRequest::GetVringBase)) == 11,
        request_code(header_request(FrontEndRequest::SetVringKick)) == 12,
        request_code(header_request(FrontEndRequest::SetVringCall)) == 13,
        request_code(header_request(FrontEndRequest::SetVringErr)) == 14,
        request_code(header_request(FrontEndRequest::GetProtocolFeatures)) == 15,
        request_code(header_request(FrontEndRequest::SetProtocolFeatures)) == 16,
        request_code(header_request(FrontEndRequest::GetQueueNum)) == 17,
        request_code(header_request(FrontEndRequest::SetVringEnable)) == 18,
{
}

} // verus!
