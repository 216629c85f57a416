//! Error numbers that the system calls hand back.

use vstd::prelude::*;

verus! {

pub const EPERM: u64 = 1;
pub const ESRCH: u64 = 3;
pub const EINTR: u64 = 4;
pub const ENOEXEC: u64 = 8;
pub const EBADF: u64 = 9;
pub const ECHILD: u64 = 10;
pub const EAGAIN: u64 = 11;
pub const ENOMEM: u64 = 12;
pub const ENODEV: u64 = 19;
pub const EINVAL: u64 = 22;
pub const EPIPE: u64 = 32;
pub const ENOTSOCK: u64 = 38;
pub const EDESTADDRREQ: u64 = 39;
pub const EPROTONOSUPPORT: u64 = 43;
pub const EOPNOTSUPP: u64 = 45;
pub const EADDRINUSE: u64 = 48;
pub const EISCONN: u64 = 56;
pub const ENOTCONN: u64 = 57;
pub const ETIMEDOUT: u64 = 60;
pub const ECONNREFUSED: u64 = 61;
pub const ELOOP: u64 = 62;
pub const EHOSTUNREACH: u64 = 65;

/// How a call that answers with one number says that it failed.
pub open spec fn negated(errno: u64) -> i64 {
    (-errno) as i64
}

/// How a call that answers with one number says that it failed.
pub fn failed(errno: u64) -> (r: i64)
    requires
        errno <= 4095,
    ensures
        r == negated(errno),
        r < 0 || errno == 0,
{
    -(errno as i64)
}

} // verus!
