//! What differs between the hosts.
//!
//! The engine keeps one reference descriptor per inode, opened with the least
//! rights the host allows: `O_PATH` on Linux, `O_EVTONLY` or `O_SYMLINK` on
//! macOS. When an operation needs to read or write, it does not reopen that
//! descriptor but goes back to `(parent, name)` and opens the file afresh,
//! which works in the same way everywhere.
use crate::engine::inode::FileKind;
use crate::host::HostErrnos;
use vstd::prelude::*;

verus! {

/// The host's `open` flags, how it makes hard links, and its errno numbers.
#[derive(Debug, Clone, Copy, PartialEq, Eq)]
pub struct Platform {
    /// `O_RDONLY`.
    pub rdonly: i32,
    /// `O_WRONLY`.
    pub wronly: i32,
    /// `O_CREAT`.
    pub creat: i32,
    /// `O_EXCL`.
    pub excl: i32,
    /// `O_DIRECTORY`.
    pub directory: i32,
    /// The flags of a reference descriptor, of anything but a symbolic link.
    pub reference: i32,
    /// The flags of a reference descriptor of a symbolic link.
    pub symlink: i32,
    /// Whether a descriptor can be linked as it is (`AT_EMPTY_PATH`). If not,
    /// a link is made from the name under which the file was last seen.
    pub link_by_descriptor: bool,
    /// What it calls its errors.
    pub errnos: HostErrnos,
}

impl Platform {
    /// The flags with which to open the reference descriptor of a file.
    pub open spec fn reference_flags(self, kind: FileKind) -> i32 {
        match kind {
            FileKind::Symlink => self.symlink,
            FileKind::Dir => self.directory | self.reference,
            _ => self.reference,
        }
    }
}

/// The flags with which to open the reference descriptor of a file.
pub fn reference_open_flags(platform: &Platform, is_dir: bool, is_symlink: bool) -> (flags: i32)
    ensures
        is_symlink ==> flags == platform.symlink,
        !is_symlink && is_dir ==> flags == platform.directory | platform.reference,
        !is_symlink && !is_dir ==> flags == platform.reference,
{
    if is_symlink {
        platform.symlink
    } else if is_dir {
        platform.directory | platform.reference
    } else {
        platform.reference
    }
}

} // verus!
