//! A virtio-fs backend: the passthrough engine's bookkeeping, the FUSE wire
//! protocol, and the vhost-user protocol, with their behaviour stated in
//! contracts.
//!
//! Nothing in this crate performs a system call. Where an operation needs
//! one, the crate says which, and takes its outcome back as a plain value.
pub mod doorbell;
pub mod engine;
pub mod error;
pub mod fuse;
pub mod host;
pub mod le;
pub mod messages;
mod octets;
pub mod vhost_user;

pub use error::{ProtoError, ProtoResult};
