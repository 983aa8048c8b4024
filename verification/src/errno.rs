//! The POSIX conditions that file system calls are answered with.

use vstd::prelude::*;

verus! {

/// A POSIX error condition.
#[derive(Debug, Clone, Copy, PartialEq, Eq, Structural)]
pub enum Errno {
    NoEnt,
    Io,
    Acces,
    Exist,
    Inval,
    FBig,
    NoSpc,
    Again,
    NoSys,
    NotEmpty,
    TimedOut,
    ConnRefused,
    HostUnreach,
    NotConn,
}

/// The conditions whose number is the same on Linux, macOS and Windows.
pub open spec fn shared_number(e: Errno) -> Option<i32> {
    match e {
        Errno::NoEnt => Some(2),
        Errno::Io => Some(5),
        Errno::Acces => Some(13),
        Errno::Exist => Some(17),
        Errno::Inval => Some(22),
        Errno::FBig => Some(27),
        Errno::NoSpc => Some(28),
        _ => None,
    }
}

/// The number that `libc` gives the condition on the machine at hand. Seven of
/// them are the same on Linux, macOS and Windows; of the others it is only said
/// that they are positive and none of those seven, because the platform chooses
/// them.
#[verifier::external_body]
fn platform_number(e: Errno) -> (n: i32)
    ensures
        shared_number(e) matches Some(k) ==> n == k,
        shared_number(e) is None ==> n > 0 && n != 2 && n != 5 && n != 13 && n != 17 && n != 22
            && n != 27 && n != 28,
{
    match e {
        Errno::NoEnt => libc::ENOENT, Errno::Io => libc::EIO,
        Errno::Acces => libc::EACCES, Errno::Exist => libc::EEXIST,
        Errno::Inval => libc::EINVAL, Errno::FBig => libc::EFBIG,
        Errno::NoSpc => libc::ENOSPC, Errno::Again => libc::EAGAIN,
        Errno::NoSys => libc::ENOSYS, Errno::NotEmpty => libc::ENOTEMPTY,
        Errno::TimedOut => libc::ETIMEDOUT, Errno::ConnRefused => libc::ECONNREFUSED,
        Errno::HostUnreach => libc::EHOSTUNREACH, Errno::NotConn => libc::ENOTCONN,
    }
}

impl Errno {
    /// The platform's number for the condition.
    pub fn code(self) -> (n: i32)
        ensures
            shared_number(self) matches Some(k) ==> n == k,
            shared_number(self) is None ==> n > 0 && n != 2 && n != 5 && n != 13 && n != 17 && n
                != 22 && n != 27 && n != 28,
    {
        platform_number(self)
    }
}

} // verus!
