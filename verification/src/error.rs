//! Errors of the protocol layer.
use crate::vhost_user::virtqueue::VirtqueueError;
use vstd::prelude::*;

verus! {

/// What can go wrong while speaking vhost-user.
#[derive(Debug, Clone, Copy, PartialEq, Eq, Structural)]
pub enum ProtoError {
    /// The operating system reported this errno.
    Io { errno: i32 },
    /// A request code this backend does not know.
    UnknownRequest(u32),
    /// A message, or a part of one, ended early.
    Truncated,
    /// The peer closed the connection.
    Disconnected,
    /// A header announced a payload of this many bytes, over the limit.
    PayloadTooLarge(usize),
    /// A message that must carry a descriptor carried none.
    MissingFd,
    /// A virtqueue could not be processed.
    Virtqueue(VirtqueueError),
}

pub type ProtoResult<T> = Result<T, ProtoError>;

} // verus!
