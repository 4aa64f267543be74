//! The error numbers of the platform.
//!
//! What a failed system call means is decided from its error number. The
//! numbers are the platform's, and not all of them are the same on every
//! architecture. So no classification in this crate assumes their values: each
//! takes an [`ErrnoCodes`] table as an argument and is proved for any table.
//!
//! [`ErrnoCodes::platform`] reads the table from `libc`. What it says of the
//! numbers is what `libc` defines for Linux, the one system that has the
//! notification facility: eleven of the twelve errors have one number on every
//! Linux target, and the twelfth has one of three.

use vstd::prelude::*;

verus! {

/// The error numbers that the classification of failures reads.
#[derive(Clone, Copy, Debug, PartialEq, Eq, Structural, Hash)]
pub struct ErrnoCodes {
    /// Operation not permitted.
    pub eperm: i32,
    /// Function not implemented.
    pub enosys: i32,
    /// Invalid argument.
    pub einval: i32,
    /// Out of memory.
    pub enomem: i32,
    /// No space left: a limit on marks was reached.
    pub enospc: i32,
    /// Too many open files in the process, or too many sessions of the user.
    pub emfile: i32,
    /// Too many open files in the system.
    pub enfile: i32,
    /// No such file or directory.
    pub enoent: i32,
    /// Bad file descriptor.
    pub ebadf: i32,
    /// Not a directory.
    pub enotdir: i32,
    /// Interrupted system call.
    pub eintr: i32,
    /// Resource temporarily unavailable.
    pub eagain: i32,
}

/// `libc::EPERM`, which `libc` defines as 1 for every Linux target.
#[verifier::external_body]
fn libc_eperm() -> (number: i32)
    ensures
        number == 1,
{
    libc::EPERM
}

/// `libc::ENOSYS`, which `libc` defines for each Linux architecture by itself:
/// as 89 for the MIPS targets, as 90 for the SPARC targets and as 38 for all
/// others.
#[verifier::external_body]
fn libc_enosys() -> (number: i32)
    ensures
        number == 38 || number == 89 || number == 90,
{
    libc::ENOSYS
}

/// `libc::EINVAL`, which `libc` defines as 22 for every Linux target.
#[verifier::external_body]
fn libc_einval() -> (number: i32)
    ensures
        number == 22,
{
    libc::EINVAL
}

/// `libc::ENOMEM`, which `libc` defines as 12 for every Linux target.
#[verifier::external_body]
fn libc_enomem() -> (number: i32)
    ensures
        number == 12,
{
    libc::ENOMEM
}

/// `libc::ENOSPC`, which `libc` defines as 28 for every Linux target.
#[verifier::external_body]
fn libc_enospc() -> (number: i32)
    ensures
        number == 28,
{
    libc::ENOSPC
}

/// `libc::EMFILE`, which `libc` defines as 24 for every Linux target.
#[verifier::external_body]
fn libc_emfile() -> (number: i32)
    ensures
        number == 24,
{
    libc::EMFILE
}

/// `libc::ENFILE`, which `libc` defines as 23 for every Linux target.
#[verifier::external_body]
fn libc_enfile() -> (number: i32)
    ensures
        number == 23,
{
    libc::ENFILE
}

/// `libc::ENOENT`, which `libc` defines as 2 for every Linux target.
#[verifier::external_body]
fn libc_enoent() -> (number: i32)
    ensures
        number == 2,
{
    libc::ENOENT
}

/// `libc::EBADF`, which `libc` defines as 9 for every Linux target.
#[verifier::external_body]
fn libc_ebadf() -> (number: i32)
    ensures
        number == 9,
{
    libc::EBADF
}

/// `libc::ENOTDIR`, which `libc` defines as 20 for every Linux target.
#[verifier::external_body]
fn libc_enotdir() -> (number: i32)
    ensures
        number == 20,
{
    libc::ENOTDIR
}

/// `libc::EINTR`, which `libc` defines as 4 for every Linux target.
#[verifier::external_body]
fn libc_eintr() -> (number: i32)
    ensures
        number == 4,
{
    libc::EINTR
}

/// `libc::EAGAIN`, which `libc` defines as 11 for every Linux target.
#[verifier::external_body]
fn libc_eagain() -> (number: i32)
    ensures
        number == 11,
{
    libc::EAGAIN
}

impl ErrnoCodes {
    /// The table of Linux on an architecture that gives the number `enosys` to
    /// the error of a function that is not implemented.
    pub open spec fn linux(enosys: i32) -> ErrnoCodes {
        ErrnoCodes {
            eperm: 1,
            enosys,
            einval: 22,
            enomem: 12,
            enospc: 28,
            emfile: 24,
            enfile: 23,
            enoent: 2,
            ebadf: 9,
            enotdir: 20,
            eintr: 4,
            eagain: 11,
        }
    }

    /// Whether `enosys` is a number that a Linux architecture gives to the
    /// error of a function that is not implemented.
    pub open spec fn linux_enosys(enosys: i32) -> bool {
        enosys == 38 || enosys == 89 || enosys == 90
    }

    /// The table of the platform that the crate was built for, as `libc` has
    /// it: each field holds the number of the error that it is named after.
    pub fn platform() -> (codes: ErrnoCodes)
        ensures
            codes == ErrnoCodes::linux(codes.enosys),
            ErrnoCodes::linux_enosys(codes.enosys),
    {
        ErrnoCodes {
            eperm: libc_eperm(),
            enosys: libc_enosys(),
            einval: libc_einval(),
            enomem: libc_enomem(),
            enospc: libc_enospc(),
            emfile: libc_emfile(),
            enfile: libc_enfile(),
            enoent: libc_enoent(),
            ebadf: libc_ebadf(),
            enotdir: libc_enotdir(),
            eintr: libc_eintr(),
            eagain: libc_eagain(),
        }
    }
}

} // verus!
