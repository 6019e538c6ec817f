//! Errors, and the errno numbers they stand for.
use riftlessfs::engine::{FsError, FsResult};
use riftlessfs::fuse::linux_errno::{fs_error_to_linux_errno, to_linux_errno};
use riftlessfs::host::{HostErrnos, ERRORS};

const LINUX: HostErrnos = HostErrnos {
    numbers: [
        1, 2, 3, 4, 5, 6, 7, 8, 9, 10, 11, 12, 13, 14, 16, 17, 18, 19, 20, 21, 22, 23, 24, 25, 26,
        27, 28, 29, 30, 31, 32, 33, 34, 35, 36, 37, 38, 39, 40, 42, 43, 75, 74, 84, 88, 89, 90, 91,
        92, 93, 95, 95, 97, 98, 99, 100, 101, 102, 103, 104, 105, 106, 107, 110, 111, 113, 114,
        115, 116, 122, 125,
    ],
};

const MACOS: HostErrnos = HostErrnos {
    numbers: [
        1, 2, 3, 4, 5, 6, 7, 8, 9, 10, 35, 12, 13, 14, 16, 17, 18, 19, 20, 21, 22, 23, 24, 25, 26,
        27, 28, 29, 30, 31, 32, 33, 34, 11, 63, 77, 78, 66, 62, 91, 90, 84, 94, 92, 38, 39, 40, 41,
        42, 43, 45, 102, 47, 48, 49, 50, 51, 52, 53, 54, 55, 56, 57, 60, 61, 65, 37, 36, 70, 69,
        89,
    ],
};

/// Translates an errno of the host that the tests run on.
fn here(errno: i32) -> i32 {
    to_linux_errno(&HostErrnos::this_host(), errno)
}

#[test]
fn common_low_errnos_match_posix_standard_values() {
    assert_eq!(here(libc::ENOENT), 2);
    assert_eq!(here(libc::EACCES), 13);
    assert_eq!(here(libc::EEXIST), 17);
    assert_eq!(here(libc::EINVAL), 22);
    assert_eq!(here(libc::ENOTDIR), 20);
    assert_eq!(here(libc::EISDIR), 21);
    assert_eq!(here(libc::EROFS), 30);
}

#[test]
fn enosys_is_always_linux_38() {
    assert_eq!(here(libc::ENOSYS), 38);
}

#[test]
fn unmapped_errno_falls_back_to_eio_not_a_raw_passthrough() {
    assert_eq!(here(999_999), 5);
}

#[test]
fn the_errors_of_this_host_become_linux_errnos() {
    let host = HostErrnos::this_host();
    let errors: [(i32, i32); ERRORS] = [
        (libc::EPERM, 1),
        (libc::ENOENT, 2),
        (libc::ESRCH, 3),
        (libc::EINTR, 4),
        (libc::EIO, 5),
        (libc::ENXIO, 6),
        (libc::E2BIG, 7),
        (libc::ENOEXEC, 8),
        (libc::EBADF, 9),
        (libc::ECHILD, 10),
        (libc::EAGAIN, 11),
        (libc::ENOMEM, 12),
        (libc::EACCES, 13),
        (libc::EFAULT, 14),
        (libc::EBUSY, 16),
        (libc::EEXIST, 17),
        (libc::EXDEV, 18),
        (libc::ENODEV, 19),
        (libc::ENOTDIR, 20),
        (libc::EISDIR, 21),
        (libc::EINVAL, 22),
        (libc::ENFILE, 23),
        (libc::EMFILE, 24),
        (libc::ENOTTY, 25),
        (libc::ETXTBSY, 26),
        (libc::EFBIG, 27),
        (libc::ENOSPC, 28),
        (libc::ESPIPE, 29),
        (libc::EROFS, 30),
        (libc::EMLINK, 31),
        (libc::EPIPE, 32),
        (libc::EDOM, 33),
        (libc::ERANGE, 34),
        (libc::EDEADLK, 35),
        (libc::ENAMETOOLONG, 36),
        (libc::ENOLCK, 37),
        (libc::ENOSYS, 38),
        (libc::ENOTEMPTY, 39),
        (libc::ELOOP, 40),
        (libc::ENOMSG, 42),
        (libc::EIDRM, 43),
        (libc::EOVERFLOW, 75),
        (libc::EBADMSG, 74),
        (libc::EILSEQ, 84),
        (libc::ENOTSOCK, 88),
        (libc::EDESTADDRREQ, 89),
        (libc::EMSGSIZE, 90),
        (libc::EPROTOTYPE, 91),
        (libc::ENOPROTOOPT, 92),
        (libc::EPROTONOSUPPORT, 93),
        (libc::ENOTSUP, 95),
        (libc::EOPNOTSUPP, 95),
        (libc::EAFNOSUPPORT, 97),
        (libc::EADDRINUSE, 98),
        (libc::EADDRNOTAVAIL, 99),
        (libc::ENETDOWN, 100),
        (libc::ENETUNREACH, 101),
        (libc::ENETRESET, 102),
        (libc::ECONNABORTED, 103),
        (libc::ECONNRESET, 104),
        (libc::ENOBUFS, 105),
        (libc::EISCONN, 106),
        (libc::ENOTCONN, 107),
        (libc::ETIMEDOUT, 110),
        (libc::ECONNREFUSED, 111),
        (libc::EHOSTUNREACH, 113),
        (libc::EALREADY, 114),
        (libc::EINPROGRESS, 115),
        (libc::ESTALE, 116),
        (libc::EDQUOT, 122),
        (libc::ECANCELED, 125),
    ];
    for (place, (here, linux)) in errors.iter().enumerate() {
        assert_eq!(host.numbers[place], *here, "place {place}");
        assert_eq!(LINUX.numbers[place], *linux, "place {place}");
        assert_eq!(to_linux_errno(&host, *here), *linux, "place {place}");
        assert_eq!(to_linux_errno(&MACOS, MACOS.numbers[place]), *linux, "place {place}");
    }
    assert!(host.is_wf());
}

#[test]
fn linux_errnos_stay_as_they_are_on_linux() {
    for e in -200..400 {
        let defined = (1..=133).contains(&e) && e != 41 && e != 58;
        let expected = if defined { e } else { 5 };
        assert_eq!(to_linux_errno(&LINUX, e), expected, "errno {e}");
    }
    // ENODATA and ENOTBLK.
    assert_eq!(to_linux_errno(&LINUX, 61), 61);
    assert_eq!(to_linux_errno(&LINUX, 15), 15);
    assert!(LINUX.is_wf());
}

#[test]
fn another_hosts_numbering_is_translated() {
    for i in 0..ERRORS {
        assert_eq!(to_linux_errno(&MACOS, MACOS.numbers[i]), LINUX.numbers[i]);
    }
    // ENOSYS, ENOTEMPTY, EAGAIN and EDEADLK.
    assert_eq!(to_linux_errno(&MACOS, 78), 38);
    assert_eq!(to_linux_errno(&MACOS, 66), 39);
    assert_eq!(to_linux_errno(&MACOS, 35), 11);
    assert_eq!(to_linux_errno(&MACOS, 11), 35);
    // Its ENODATA has no translation, and is not passed on as another error.
    assert_eq!(to_linux_errno(&MACOS, 96), 5);
    assert_eq!(to_linux_errno(&MACOS, 15), 5);
    assert!(MACOS.is_wf());
    assert_ne!(MACOS, LINUX);
}

#[test]
fn errors_that_share_a_number_are_noticed() {
    let mut host = LINUX;
    // ENOTEMPTY by the number of EEXIST.
    host.numbers[37] = 17;
    assert!(!host.is_wf());
    assert_eq!(to_linux_errno(&host, 17), 17);
    assert_eq!(to_linux_errno(&host, 39), 5);
}

#[test]
fn each_fs_error_has_its_errno() {
    assert_eq!(FsError::Io { errno: 13 }.errno(&HostErrnos::this_host()), 13);
    assert_eq!(FsError::UnknownInode(7).errno(&HostErrnos::this_host()), libc::EBADF);
    assert_eq!(FsError::UnknownHandle(7).errno(&HostErrnos::this_host()), libc::EBADF);
    assert_eq!(FsError::Unsupported("x").errno(&HostErrnos::this_host()), libc::ENOSYS);
    assert_eq!(FsError::InvalidArgument("x").errno(&HostErrnos::this_host()), libc::EINVAL);
    assert_eq!(FsError::NameTooLong.errno(&HostErrnos::this_host()), libc::ENAMETOOLONG);
    assert_eq!(FsError::PathEscape.errno(&HostErrnos::this_host()), libc::EACCES);
}

#[test]
fn fs_errors_reach_the_wire_as_linux_errnos() {
    assert_eq!(fs_error_to_linux_errno(&HostErrnos::this_host(), &FsError::UnknownInode(3)), 9);
    assert_eq!(fs_error_to_linux_errno(&HostErrnos::this_host(), &FsError::Unsupported("xattr")), 38);
    assert_eq!(fs_error_to_linux_errno(&HostErrnos::this_host(), &FsError::Io { errno: 123_456 }), 5);
    assert_eq!(FsError::Unsupported("xattr").errno(&MACOS), 78);
    assert_eq!(fs_error_to_linux_errno(&MACOS, &FsError::Unsupported("xattr")), 38);
    assert_eq!(fs_error_to_linux_errno(&MACOS, &FsError::NameTooLong), 36);
}

#[test]
fn an_os_error_without_a_number_is_eio() {
    assert_eq!(FsError::from_raw_os_error(&HostErrnos::this_host(), Some(2)), FsError::Io { errno: 2 });
    let r: FsResult<()> = Err(FsError::from_raw_os_error(&HostErrnos::this_host(), None));
    assert_eq!(r, Err(FsError::Io { errno: libc::EIO }));
}
