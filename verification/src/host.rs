//! The host's errno numbers.
//!
//! Hosts number the same errors differently: macOS calls `ENOSYS` 78, and
//! Linux calls it 38. So the numbers are a value, a [`HostErrnos`], and what is
//! stated of an error is stated for whatever numbers the host has.
use libc::{
    E2BIG, EACCES, EADDRINUSE, EADDRNOTAVAIL, EAFNOSUPPORT, EAGAIN, EALREADY, EBADF, EBADMSG,
    EBUSY, ECANCELED, ECHILD, ECONNABORTED, ECONNREFUSED, ECONNRESET, EDEADLK, EDESTADDRREQ, EDOM,
    EDQUOT, EEXIST, EFAULT, EFBIG, EHOSTUNREACH, EIDRM, EILSEQ, EINPROGRESS, EINTR, EINVAL, EIO,
    EISCONN, EISDIR, ELOOP, EMFILE, EMLINK, EMSGSIZE, ENAMETOOLONG, ENETDOWN, ENETRESET,
    ENETUNREACH, ENFILE, ENOBUFS, ENODEV, ENOENT, ENOEXEC, ENOLCK, ENOMEM, ENOMSG, ENOPROTOOPT,
    ENOSPC, ENOSYS, ENOTCONN, ENOTDIR, ENOTEMPTY, ENOTSOCK, ENOTSUP, ENOTTY, ENXIO, EOPNOTSUPP,
    EOVERFLOW, EPERM, EPIPE, EPROTONOSUPPORT, EPROTOTYPE, ERANGE, EROFS, ESPIPE, ESRCH, ESTALE,
    ETIMEDOUT, ETXTBSY, EXDEV,
};
use vstd::prelude::*;

verus! {

/// How many errors have a number in a [`HostErrnos`].
pub const ERRORS: usize = 71;

/// Where `EINTR` is in a [`HostErrnos`].
pub const AT_EINTR: usize = 3;

/// Where `EIO` is in a [`HostErrnos`].
pub const AT_EIO: usize = 4;

/// Where `EBADF` is in a [`HostErrnos`].
pub const AT_EBADF: usize = 8;

/// Where `EACCES` is in a [`HostErrnos`].
pub const AT_EACCES: usize = 12;

/// Where `EINVAL` is in a [`HostErrnos`].
pub const AT_EINVAL: usize = 20;

/// Where `ENAMETOOLONG` is in a [`HostErrnos`].
pub const AT_ENAMETOOLONG: usize = 34;

/// Where `ENOSYS` is in a [`HostErrnos`].
pub const AT_ENOSYS: usize = 36;

/// What a host calls the errors that it can be asked to tell of: `EPERM` to
/// `ENOTTY` without `ENOTBLK`, `ETXTBSY` to `ELOOP`, `ENOMSG`, `EIDRM`,
/// `EOVERFLOW`, `EBADMSG`, `EILSEQ`, `ENOTSOCK` to `EPROTONOSUPPORT`,
/// `ENOTSUP`, `EOPNOTSUPP`, `EAFNOSUPPORT` to `ENOTCONN`, `ETIMEDOUT`,
/// `ECONNREFUSED`, `EHOSTUNREACH` to `ESTALE`, `EDQUOT` and `ECANCELED`, where
/// "to" goes by Linux's numbers. [`linux_numbers`] has Linux's number for each,
/// in the same order.
#[derive(Debug, Clone, Copy, PartialEq, Eq)]
pub struct HostErrnos {
    pub numbers: [i32; ERRORS],
}

/// Linux's numbers of the errors of a [`HostErrnos`].
pub open spec fn linux_numbers() -> Seq<i32> {
    seq![1i32, 2, 3, 4, 5, 6, 7, 8, 9, 10, 11, 12, 13, 14, 16, 17, 18, 19, 20, 21, 22, 23, 24, 25]
        + seq![26i32, 27, 28, 29, 30, 31, 32, 33, 34, 35, 36, 37, 38, 39, 40, 42, 43, 75, 74, 84,
        88] + seq![89i32, 90, 91, 92, 93, 95, 95, 97, 98, 99, 100, 101, 102, 103, 104, 105, 106,
        107, 110, 111, 113, 114, 115, 116, 122, 125]
}

impl HostErrnos {
    /// What the host calls the error at `at`.
    pub open spec fn number(self, at: usize) -> i32 {
        self.numbers@[at as int]
    }

    /// Whether the host has different numbers for errors that are different to
    /// Linux.
    pub open spec fn wf(self) -> bool {
        forall|i: int, j: int|
            0 <= i < ERRORS && 0 <= j < ERRORS && self.numbers@[i] == self.numbers@[j]
                ==> linux_numbers()[i] == linux_numbers()[j]
    }

    /// Whether the host has Linux's numbers.
    pub open spec fn is_linux(self) -> bool {
        self.numbers@ == linux_numbers()
    }

    /// Tests whether the host has different numbers for errors that are
    /// different to Linux.
    pub fn is_wf(&self) -> (r: bool)
        ensures
            r == self.wf(),
    {
        let linux = linux_table();
        let mut i: usize = 0;
        while i < ERRORS
            invariant
                i <= ERRORS,
                linux@ == linux_numbers(),
                forall|a: int, b: int|
                    0 <= a < i && 0 <= b < ERRORS && self.numbers@[a] == self.numbers@[b]
                        ==> linux_numbers()[a] == linux_numbers()[b],
            decreases ERRORS - i,
        {
            let mut j: usize = 0;
            while j < ERRORS
                invariant
                    i < ERRORS,
                    j <= ERRORS,
                    linux@ == linux_numbers(),
                    forall|b: int|
                        0 <= b < j && self.numbers@[i as int] == self.numbers@[b]
                            ==> linux_numbers()[i as int] == linux_numbers()[b],
                decreases ERRORS - j,
            {
                if self.numbers[i] == self.numbers[j] && linux[i] != linux[j] {
                    return false;
                }
                j += 1;
            }
            i += 1;
        }
        true
    }

    /// The numbers that this host has. They are `libc`'s, and what they are
    /// depends on the host.
    pub fn this_host() -> (r: HostErrnos) {
        HostErrnos { numbers: libc_numbers() }
    }
}

/// Linux's numbers of the errors of a [`HostErrnos`].
pub(crate) fn linux_table() -> (r: [i32; ERRORS])
    ensures
        r@ == linux_numbers(),
{
    let r: [i32; ERRORS] = [
        1, 2, 3, 4, 5, 6, 7, 8, 9, 10, 11, 12, 13, 14, 16, 17, 18, 19, 20, 21, 22, 23, 24, 25, 26,
        27, 28, 29, 30, 31, 32, 33, 34, 35, 36, 37, 38, 39, 40, 42, 43, 75, 74, 84, 88, 89, 90, 91,
        92, 93, 95, 95, 97, 98, 99, 100, 101, 102, 103, 104, 105, 106, 107, 110, 111, 113, 114,
        115, 116, 122, 125,
    ];
    assert(r@ =~= linux_numbers());
    r
}

/// The errors that have a name here are at the places of their Linux numbers: `EINTR`
/// is 4 to Linux, `EIO` 5, `EBADF` 9, `EACCES` 13, `EINVAL` 22, `ENAMETOOLONG` 36 and
/// `ENOSYS` 38.
pub proof fn law_named_errors_are_at_their_places()
    ensures
        linux_numbers().len() == 71,
        ERRORS == 71,
        linux_numbers()[AT_EINTR as int] == 4,
        linux_numbers()[AT_EIO as int] == 5,
        linux_numbers()[AT_EBADF as int] == 9,
        linux_numbers()[AT_EACCES as int] == 13,
        linux_numbers()[AT_EINVAL as int] == 22,
        linux_numbers()[AT_ENAMETOOLONG as int] == 36,
        linux_numbers()[AT_ENOSYS as int] == 38,
{
}

/// The `libc` constants of the errors of a [`HostErrnos`], in its order.
///
/// Nothing is claimed of them: which number an error has, and whether it shares
/// it with another, is up to the host. That each constant stands at the place of
/// its error is not proved either.
#[verifier::external_body]
fn libc_numbers() -> (r: [i32; ERRORS]) {
    [
        EPERM, ENOENT, ESRCH, EINTR, EIO, ENXIO, E2BIG, ENOEXEC, EBADF, ECHILD, EAGAIN, ENOMEM,
        EACCES, EFAULT, EBUSY, EEXIST, EXDEV, ENODEV, ENOTDIR, EISDIR, EINVAL, ENFILE, EMFILE,
        ENOTTY, ETXTBSY, EFBIG, ENOSPC, ESPIPE, EROFS, EMLINK, EPIPE, EDOM, ERANGE, EDEADLK,
        ENAMETOOLONG, ENOLCK, ENOSYS, ENOTEMPTY, ELOOP, ENOMSG, EIDRM, EOVERFLOW, EBADMSG, EILSEQ,
        ENOTSOCK, EDESTADDRREQ, EMSGSIZE, EPROTOTYPE, ENOPROTOOPT, EPROTONOSUPPORT, ENOTSUP,
        EOPNOTSUPP, EAFNOSUPPORT, EADDRINUSE, EADDRNOTAVAIL, ENETDOWN, ENETUNREACH, ENETRESET,
        ECONNABORTED, ECONNRESET, ENOBUFS, EISCONN, ENOTCONN, ETIMEDOUT, ECONNREFUSED,
        EHOSTUNREACH, EALREADY, EINPROGRESS, ESTALE, EDQUOT, ECANCELED,
    ]
}

} // verus!
