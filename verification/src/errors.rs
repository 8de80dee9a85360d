//! The failure kinds of the poll facade and of the registration table.

use vstd::prelude::*;

verus! {

/// Why a poll operation was rejected.
///
/// `InvalidInterest`: the interest set asked for neither readable nor
/// writable readiness.  `AlreadyRegistered`: register on a resource with a
/// live registration.  `NotFound`: reregister or deregister on a resource
/// without one.  `Backend`: an OS-level subscription or wait call failed,
/// carrying the originating code.  `FatalBackend`: a construction-time
/// backend failure, carrying the originating code.  The portable backend of
/// this crate never fails, so its facade never produces the last two; they
/// exist for embeddings that drive an OS-native backend.
#[derive(Clone, Copy, Debug, PartialEq, Eq, Structural)]
pub enum PollError {
    InvalidInterest,
    AlreadyRegistered,
    NotFound,
    Backend(u64),
    FatalBackend(u64),
}

impl PollError {
    /// A short description of the error, for embeddings that report it.
    pub fn describe(&self) -> (r: &'static str)
        ensures
            (*self is InvalidInterest) ==> r@ == "interest set lacks readable and writable"@,
            (*self is AlreadyRegistered) ==> r@ == "resource is already registered"@,
            (*self is NotFound) ==> r@ == "resource has no live registration"@,
            (*self is Backend) ==> r@ == "backend subscription or wait call failed"@,
            (*self is FatalBackend) ==> r@ == "backend could not be initialized"@,
    {
        match self {
            PollError::InvalidInterest => "interest set lacks readable and writable",
            PollError::AlreadyRegistered => "resource is already registered",
            PollError::NotFound => "resource has no live registration",
            PollError::Backend(_) => "backend subscription or wait call failed",
            PollError::FatalBackend(_) => "backend could not be initialized",
        }
    }
}

} // verus!
