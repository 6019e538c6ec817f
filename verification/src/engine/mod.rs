//! The passthrough filesystem engine: which system calls serve an operation,
//! and the tables of inodes and open handles they work on.
pub mod attr;
pub mod call;
pub mod effects;
pub mod error;
pub mod handle;
pub mod inode;
pub mod passthrough;
pub mod platform;

pub use attr::{Attr, SetAttr, Stat, StatVfs};
pub use call::DirEntry;
pub use error::{FsError, FsResult};
pub use inode::{FileKind, ROOT_ID};
pub use passthrough::PassthroughFs;
pub use platform::Platform;
