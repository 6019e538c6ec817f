//! The vhost-user protocol: message framing, guest memory, split virtqueues,
//! and the back-end that puts them together.
pub mod connection;
pub mod header;
pub mod memory;
pub mod payload;
pub mod protocol;
pub mod server;
pub mod virtqueue;
