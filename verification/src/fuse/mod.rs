//! FUSE-over-virtio: decoding requests and encoding replies.
pub mod bytes;
pub mod dispatch;
pub mod layout;
pub mod linux_errno;
pub mod request;
pub mod service;
pub mod wire;
