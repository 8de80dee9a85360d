//! Readiness flags and re-delivery policies.

use vstd::prelude::*;

verus! {

/// A set of readiness flags: what a caller wants reported on a resource, or
/// what was observed on it.  Hangup and error are always reportable once
/// present, whether or not they were requested, because they signal
/// irrecoverable state the caller must observe.
#[derive(Clone, Copy, Debug, PartialEq, Eq, Structural)]
pub struct Interest {
    pub readable: bool,
    pub writable: bool,
    pub hangup: bool,
    pub error: bool,
}

impl Interest {
    /// The empty set of flags.
    pub open spec fn empty() -> Interest {
        Interest { readable: false, writable: false, hangup: false, error: false }
    }

    pub open spec fn spec_is_empty(self) -> bool {
        !self.readable && !self.writable && !self.hangup && !self.error
    }

    /// Flag-wise inclusion: every flag of `self` is also set in `other`.
    pub open spec fn le(self, other: Interest) -> bool {
        &&& (self.readable ==> other.readable)
        &&& (self.writable ==> other.writable)
        &&& (self.hangup ==> other.hangup)
        &&& (self.error ==> other.error)
    }

    pub open spec fn spec_union(self, other: Interest) -> Interest {
        Interest {
            readable: self.readable || other.readable,
            writable: self.writable || other.writable,
            hangup: self.hangup || other.hangup,
            error: self.error || other.error,
        }
    }

    pub open spec fn spec_intersect(self, other: Interest) -> Interest {
        Interest {
            readable: self.readable && other.readable,
            writable: self.writable && other.writable,
            hangup: self.hangup && other.hangup,
            error: self.error && other.error,
        }
    }

    /// The flags of `self` that are not set in `other`.
    pub open spec fn spec_difference(self, other: Interest) -> Interest {
        Interest {
            readable: self.readable && !other.readable,
            writable: self.writable && !other.writable,
            hangup: self.hangup && !other.hangup,
            error: self.error && !other.error,
        }
    }

    /// `self` extended by hangup and error, the two always-reportable flags.
    pub open spec fn spec_with_hup_err(self) -> Interest {
        Interest { readable: self.readable, writable: self.writable, hangup: true, error: true }
    }

    /// An interest set is acceptable for registration only when it asks for
    /// readable and/or writable readiness.
    pub open spec fn spec_has_rw(self) -> bool {
        self.readable || self.writable
    }

    pub fn none() -> (r: Interest)
        ensures
            r == Interest::empty(),
    {
        Interest { readable: false, writable: false, hangup: false, error: false }
    }

    pub fn readable() -> (r: Interest)
        ensures
            r == (Interest { readable: true, writable: false, hangup: false, error: false }),
    {
        Interest { readable: true, writable: false, hangup: false, error: false }
    }

    pub fn writable() -> (r: Interest)
        ensures
            r == (Interest { readable: false, writable: true, hangup: false, error: false }),
    {
        Interest { readable: false, writable: true, hangup: false, error: false }
    }

    pub fn hangup() -> (r: Interest)
        ensures
            r == (Interest { readable: false, writable: false, hangup: true, error: false }),
    {
        Interest { readable: false, writable: false, hangup: true, error: false }
    }

    pub fn error() -> (r: Interest)
        ensures
            r == (Interest { readable: false, writable: false, hangup: false, error: true }),
    {
        Interest { readable: false, writable: false, hangup: false, error: true }
    }

    #[verifier::when_used_as_spec(spec_is_empty)]
    pub fn is_empty(self) -> (r: bool)
        ensures
            r == self.spec_is_empty(),
    {
        !self.readable && !self.writable && !self.hangup && !self.error
    }

    #[verifier::when_used_as_spec(spec_union)]
    pub fn union(self, other: Interest) -> (r: Interest)
        ensures
            r == self.spec_union(other),
    {
        Interest {
            readable: self.readable || other.readable,
            writable: self.writable || other.writable,
            hangup: self.hangup || other.hangup,
            error: self.error || other.error,
        }
    }

    #[verifier::when_used_as_spec(spec_intersect)]
    pub fn intersect(self, other: Interest) -> (r: Interest)
        ensures
            r == self.spec_intersect(other),
    {
        Interest {
            readable: self.readable && other.readable,
            writable: self.writable && other.writable,
            hangup: self.hangup && other.hangup,
            error: self.error && other.error,
        }
    }

    #[verifier::when_used_as_spec(spec_difference)]
    pub fn difference(self, other: Interest) -> (r: Interest)
        ensures
            r == self.spec_difference(other),
    {
        Interest {
            readable: self.readable && !other.readable,
            writable: self.writable && !other.writable,
            hangup: self.hangup && !other.hangup,
            error: self.error && !other.error,
        }
    }

    #[verifier::when_used_as_spec(spec_with_hup_err)]
    pub fn with_hup_err(self) -> (r: Interest)
        ensures
            r == self.spec_with_hup_err(),
    {
        Interest { readable: self.readable, writable: self.writable, hangup: true, error: true }
    }

    #[verifier::when_used_as_spec(spec_has_rw)]
    pub fn has_rw(self) -> (r: bool)
        ensures
            r == self.spec_has_rw(),
    {
        self.readable || self.writable
    }

    /// Whether every flag of `other` is also set in `self`.
    pub fn contains(self, other: Interest) -> (r: bool)
        ensures
            r == other.le(self),
    {
        (!other.readable || self.readable) && (!other.writable || self.writable) && (!other.hangup
            || self.hangup) && (!other.error || self.error)
    }

    pub fn is_readable(self) -> (r: bool)
        ensures
            r == self.readable,
    {
        self.readable
    }

    pub fn is_writable(self) -> (r: bool)
        ensures
            r == self.writable,
    {
        self.writable
    }

    pub fn is_hangup(self) -> (r: bool)
        ensures
            r == self.hangup,
    {
        self.hangup
    }

    pub fn is_error(self) -> (r: bool)
        ensures
            r == self.error,
    {
        self.error
    }
}

/// The re-delivery policy of a registration.
///
/// - `Edge`: a condition fires once per transition from not-ready to ready;
///   it fires again only after the condition was cleared and re-asserted.
/// - `Level`: a condition fires on every wait for as long as it holds.
/// - `Oneshot`: like `Edge`, but the registration is disabled after its
///   first delivery until the caller reregisters it.
#[derive(Clone, Copy, Debug, PartialEq, Eq, Structural)]
pub enum TriggerMode {
    Edge,
    Level,
    Oneshot,
}

} // verus!
