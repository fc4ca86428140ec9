use vstd::prelude::*;
use crate::system::ResultT;

verus! {

/// Largest exclusive bound of the OS error-code domain: every error code
/// lies in the open interval (0, ERRNO_MAX).
pub const ERRNO_MAX: i32 = 83;

/// "Operation not permitted".
pub const EPERM: i32 = 1;

/// "Invalid argument"; also the catch-all for malformed codes.
pub const EINVAL: i32 = 22;

/// What a raw signed code is mapped to: itself when it lies in the valid
/// domain, the generic "invalid argument" code otherwise.
pub open spec fn spec_from_errno(errno: int) -> int {
    if 0 < errno < 83 {
        errno
    } else {
        22
    }
}

/// A bounded OS error code. Always non-zero and within the valid domain;
/// malformed raw codes degrade to `EINVAL` rather than panicking.
#[derive(Clone, Copy, PartialEq, Eq, Structural, Debug)]
pub struct Error(i32);

impl Error {
    /// The wrapped code, as specifications see it.
    pub closed spec fn code(self) -> int {
        self.0 as int
    }

    /// Every error value lies in the valid domain `(0, ERRNO_MAX)`.
    pub open spec fn wf(self) -> bool {
        0 < self.code() < 83
    }

    /// Wraps a raw errno, degrading anything outside `(0, ERRNO_MAX)` to
    /// the generic "invalid argument" code.
    pub fn from_errno(errno: i32) -> (r: Error)
        ensures
            r.code() == spec_from_errno(errno as int),
            r.wf(),
    {
        if errno >= ERRNO_MAX || errno <= 0 {
            Error(EINVAL)
        } else {
            Error(errno)
        }
    }

    /// Wraps the negation of a failed trap's status word.
    pub fn from_result_t(result: ResultT) -> (r: Error)
        ensures
            r.code() == spec_from_errno(-(result.0 as int)),
            r.wf(),
    {
        if result.0 <= -1 && result.0 >= -82 {
            Error((-result.0) as i32)
        } else {
            Error(EINVAL)
        }
    }

    /// The wrapped code.
    pub fn get(&self) -> (r: i32)
        ensures
            r as int == self.code(),
    {
        self.0
    }
}

} // verus!
