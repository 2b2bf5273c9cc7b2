//! Interpretation of raw transport return values.
//!
//! The host reads the serial link through plain system calls; these helpers
//! classify their return values so the I/O layer only performs the calls
//! and acts on the verdicts.

use vstd::prelude::*;

verus! {

/// A system call reported failure; the accompanying error code says why.
#[derive(Copy, Clone, PartialEq, Eq, Structural, Debug)]
pub struct SyscallFailed;

/// The error code a read sets when a signal interrupted it before any data
/// arrived; such a read is transparently retried.
pub const EINTR: i32 = 4;

/// Classifies the return value of a system call returning an `int`:
/// -1 reports failure, anything else passes through.
pub fn check(ret: i32) -> (r: Result<i32, SyscallFailed>)
    ensures
        ret == -1 <==> r is Err,
        r matches Ok(v) ==> v == ret,
{
    if ret == -1 {
        Err(SyscallFailed)
    } else {
        Ok(ret)
    }
}

/// Classifies the return value of a system call returning a `ssize_t`
/// byte count: -1 reports failure, a count passes through.
pub fn check_isize(ret: isize) -> (r: Result<usize, SyscallFailed>)
    ensures
        ret == -1 <==> r is Err,
        ret >= 0 ==> (r matches Ok(v) && v == ret),
{
    if ret == -1 {
        Err(SyscallFailed)
    } else {
        Ok(#[verifier::truncate] (ret as usize))
    }
}

/// Whether a failed read should be retried rather than propagated: only an
/// interrupted call is transient.
pub fn should_retry_read(errno: i32) -> (r: bool)
    ensures
        r == (errno == EINTR),
{
    errno == EINTR
}

} // verus!
