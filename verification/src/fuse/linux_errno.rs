//! From the host's errno numbers to Linux's.
//!
//! The FUSE wire protocol is part of the Linux kernel ABI: an error on the
//! wire is a Linux errno, whatever the host's own number for that error is. On
//! a host that has Linux's numbers, nothing changes.
use crate::engine::error::{fs_errno, FsError};
use crate::host::{
    linux_numbers, linux_table, HostErrnos, AT_EACCES, AT_EBADF, AT_EINVAL, AT_EIO,
    AT_ENAMETOOLONG, AT_ENOSYS, ERRORS,
};
use vstd::prelude::*;

verus! {

/// Linux's number for "input/output error", which stands for every host errno
/// that has no other.
pub const LINUX_EIO: i32 = 5;

/// The last errno that Linux defines.
pub const LINUX_LAST: i32 = 133;

/// Whether Linux defines an error with this number: 1 to 133, without 41 and
/// 58, which it skips.
pub open spec fn linux_defines(errno: i32) -> bool {
    1 <= errno <= LINUX_LAST && errno != 41 && errno != 58
}

/// The Linux number in `linux` beside the first of `host[from..]` that is
/// `errno`, or Linux's `EIO`.
pub open spec fn translated(host: Seq<i32>, linux: Seq<i32>, errno: i32, from: int) -> i32
    decreases host.len() - from,
{
    if from >= host.len() {
        LINUX_EIO
    } else if host[from] == errno {
        linux[from]
    } else {
        translated(host, linux, errno, from + 1)
    }
}

/// The Linux errno for what the host calls `host_errno`: itself, if the host
/// has Linux's numbers and it is one of them; otherwise the Linux number of the
/// error that the host gives this number to, or else `EIO`.
#[verifier::opaque]
pub open spec fn linux_errno(host: HostErrnos, host_errno: i32) -> i32 {
    if host.is_linux() && linux_defines(host_errno) {
        host_errno
    } else {
        translated(host.numbers@, linux_numbers(), host_errno, 0)
    }
}

/// Translates `errno` by a table: `host[i]` is what some host calls the error
/// that Linux numbers `linux[i]`.
fn translate_errno(host: &[i32], linux: &[i32], errno: i32) -> (r: i32)
    requires
        host@.len() == linux@.len(),
    ensures
        r == translated(host@, linux@, errno, 0),
{
    let mut i: usize = 0;
    while i < host.len()
        invariant
            i <= host@.len(),
            host@.len() == linux@.len(),
            translated(host@, linux@, errno, i as int) == translated(host@, linux@, errno, 0),
        decreases host@.len() - i,
    {
        if host[i] == errno {
            return linux[i];
        }
        i += 1;
    }
    LINUX_EIO
}

/// Whether two tables are the same.
fn same_table(a: &[i32], b: &[i32]) -> (r: bool)
    ensures
        r == (a@ == b@),
{
    if a.len() != b.len() {
        return false;
    }
    let mut i: usize = 0;
    while i < a.len()
        invariant
            i <= a@.len(),
            a@.len() == b@.len(),
            forall|j: int| 0 <= j < i ==> a@[j] == b@[j],
        decreases a@.len() - i,
    {
        if a[i] != b[i] {
            return false;
        }
        i += 1;
    }
    assert(a@ =~= b@);
    true
}

/// Translates an errno of a host into the Linux errno that goes on the wire.
/// One that is no error of the table, nor of Linux on a host that has Linux's
/// numbers, becomes `EIO`: it is not passed on, since its number could mean
/// something else to Linux.
pub fn to_linux_errno(host: &HostErrnos, host_errno: i32) -> (r: i32)
    ensures
        r == linux_errno(*host, host_errno),
        host.wf() ==> forall|i: int|
            0 <= i < ERRORS && #[trigger] host.numbers@[i] == host_errno ==> r
                == linux_numbers()[i],
        host.is_linux() && linux_defines(host_errno) ==> r == host_errno,
        !host.numbers@.contains(host_errno) && !(host.is_linux() && linux_defines(host_errno))
            ==> r == LINUX_EIO,
        linux_defines(r),
{
    proof {
        reveal(linux_errno);
        law_host_numbers_become_linux(*host, host_errno);
    }
    let linux = linux_table();
    if 1 <= host_errno && host_errno <= LINUX_LAST && host_errno != 41 && host_errno != 58
        && same_table(&host.numbers, &linux) {
        return host_errno;
    }
    translate_errno(&host.numbers, &linux, host_errno)
}

/// The Linux errno that goes on the wire for `e`.
pub fn fs_error_to_linux_errno(host: &HostErrnos, e: &FsError) -> (r: i32)
    ensures
        r == linux_errno(*host, fs_errno(*host, *e)),
{
    to_linux_errno(host, e.errno(host))
}

/// What `translated` gives is beside some entry equal to `errno`, or `EIO`
/// because there is none.
proof fn lemma_translated_first(host: Seq<i32>, linux: Seq<i32>, errno: i32, from: int)
    requires
        0 <= from <= host.len() == linux.len(),
    ensures
        (exists|i: int|
            from <= i < host.len() && host[i] == errno && translated(host, linux, errno, from)
                == linux[i]) || (!(exists|i: int| from <= i < host.len() && host[i] == errno)
            && translated(host, linux, errno, from) == LINUX_EIO),
    decreases host.len() - from,
{
    if from < host.len() && host[from] != errno {
        lemma_translated_first(host, linux, errno, from + 1);
    }
}

/// Linux defines the numbers that [`linux_numbers`] has.
proof fn lemma_linux_numbers()
    ensures
        linux_numbers().len() == ERRORS,
        forall|i: int| 0 <= i < ERRORS ==> linux_defines(#[trigger] linux_numbers()[i]),
{
}

/// Whatever numbers a host has, what goes on the wire is an errno that Linux
/// defines. If the host does not have one number for different errors, each
/// error becomes its own Linux number. An errno that the host has no error for
/// becomes `EIO`, unless the host has Linux's numbers and Linux defines it.
pub proof fn law_host_numbers_become_linux(host: HostErrnos, host_errno: i32)
    ensures
        linux_defines(linux_errno(host, host_errno)),
        host.wf() ==> forall|i: int|
            0 <= i < ERRORS && #[trigger] host.numbers@[i] == host_errno ==> linux_errno(
                host,
                host_errno,
            ) == linux_numbers()[i],
        !host.numbers@.contains(host_errno) && !(host.is_linux() && linux_defines(host_errno))
            ==> linux_errno(host, host_errno) == LINUX_EIO,
{
    reveal(linux_errno);
    lemma_linux_numbers();
    lemma_translated_first(host.numbers@, linux_numbers(), host_errno, 0);
}

/// What the engine's own errors are on the wire, if the host has different
/// numbers for different errors: `EBADF` is 9, `ENOSYS` 38, `EINVAL` 22,
/// `ENAMETOOLONG` 36, `EACCES` 13 and `EIO` 5.
pub proof fn law_engine_errnos_become_linux(host: HostErrnos)
    requires
        host.wf(),
    ensures
        linux_errno(host, host.number(AT_EBADF)) == 9,
        linux_errno(host, host.number(AT_ENOSYS)) == 38,
        linux_errno(host, host.number(AT_EINVAL)) == 22,
        linux_errno(host, host.number(AT_ENAMETOOLONG)) == 36,
        linux_errno(host, host.number(AT_EACCES)) == 13,
        linux_errno(host, host.number(AT_EIO)) == 5,
{
    law_host_numbers_become_linux(host, host.number(AT_EBADF));
    law_host_numbers_become_linux(host, host.number(AT_ENOSYS));
    law_host_numbers_become_linux(host, host.number(AT_EINVAL));
    law_host_numbers_become_linux(host, host.number(AT_ENAMETOOLONG));
    law_host_numbers_become_linux(host, host.number(AT_EACCES));
    law_host_numbers_become_linux(host, host.number(AT_EIO));
}

/// On a host that has Linux's numbers the translation is the identity: it gives
/// back every errno that Linux defines, and `EIO` for what is none.
pub proof fn law_identity_on_linux(host: HostErrnos, host_errno: i32)
    requires
        host.numbers@ == linux_numbers(),
    ensures
        host.wf(),
        linux_defines(host_errno) ==> linux_errno(host, host_errno) == host_errno,
        !linux_defines(host_errno) ==> linux_errno(host, host_errno) == LINUX_EIO,
        1 <= host_errno <= 133 && host_errno != 41 && host_errno != 58 ==> linux_errno(
            host,
            host_errno,
        ) == host_errno,
        !(1 <= host_errno <= 133 && host_errno != 41 && host_errno != 58) ==> linux_errno(
            host,
            host_errno,
        ) == 5,
{
    reveal(linux_errno);
    lemma_linux_numbers();
    lemma_translated_first(host.numbers@, linux_numbers(), host_errno, 0);
}

} // verus!
