//! The registration table: one live registration per resource identity.

use vstd::prelude::*;
use std::collections::HashMap;
use crate::errors::PollError;
use crate::interest::{Interest, TriggerMode};
use crate::event::Token;

verus! {

broadcast use vstd::std_specs::hash::group_hash_axioms;

/// What the table holds for one registered resource: the caller's token,
/// the active interest set, the re-delivery policy, the raw readiness last
/// observed at a delivery (the edge bookkeeping), and whether the
/// registration is armed (a oneshot disarms itself on first delivery).
#[derive(Clone, Copy, Debug, PartialEq, Eq, Structural)]
pub struct Registration {
    pub token: Token,
    pub interest: Interest,
    pub trigger: TriggerMode,
    pub last_ready: Interest,
    pub active: bool,
}

impl Registration {
    /// A freshly installed registration: no readiness observed yet, armed.
    pub open spec fn fresh(token: Token, interest: Interest, trigger: TriggerMode) -> Registration {
        Registration { token, interest, trigger, last_ready: Interest::empty(), active: true }
    }
}

/// A mapping from opaque resource identity to its live registration.
/// Lookups are by resource identity; the token is carried as payload and
/// has no uniqueness constraint enforced here.
pub struct Registry {
    map: HashMap<u64, Registration>,
}

impl View for Registry {
    type V = Map<u64, Registration>;

    closed spec fn view(&self) -> Map<u64, Registration> {
        self.map@
    }
}

impl Registry {
    pub fn new() -> (r: Registry)
        ensures
            r@ == Map::<u64, Registration>::empty(),
    {
        Registry { map: HashMap::new() }
    }

    pub fn contains(&self, id: u64) -> (b: bool)
        ensures
            b == self@.contains_key(id),
    {
        self.map.contains_key(&id)
    }

    /// The registration of `id`, copied out, if `id` is live.
    pub fn get(&self, id: u64) -> (r: Option<Registration>)
        ensures
            self@.contains_key(id) ==> r == Some(self@[id]),
            !self@.contains_key(id) ==> r is None,
    {
        match self.map.get(&id) {
            Some(reg) => Some(*reg),
            None => None,
        }
    }

    /// Installs a fresh registration; rejected when one is already live.
    pub fn insert(&mut self, id: u64, token: Token, interest: Interest, trigger: TriggerMode) -> (r:
        Result<(), PollError>)
        ensures
            old(self)@.contains_key(id) ==> r == Err::<(), PollError>(PollError::AlreadyRegistered)
                && final(self)@ == old(self)@,
            !old(self)@.contains_key(id) ==> r == Ok::<(), PollError>(()) && final(self)@ == old(
                self,
            )@.insert(id, Registration::fresh(token, interest, trigger)),
    {
        if self.map.contains_key(&id) {
            Err(PollError::AlreadyRegistered)
        } else {
            self.map.insert(id, Registration { token, interest, trigger, last_ready: Interest::none(), active: true });
            Ok(())
        }
    }

    /// Atomically replaces the fields of a live registration, resetting the
    /// edge bookkeeping so the new interest is evaluated against the
    /// resource's current raw readiness; rejected when `id` is not live.
    pub fn update(&mut self, id: u64, token: Token, interest: Interest, trigger: TriggerMode) -> (r:
        Result<(), PollError>)
        ensures
            !old(self)@.contains_key(id) ==> r == Err::<(), PollError>(PollError::NotFound)
                && final(self)@ == old(self)@,
            old(self)@.contains_key(id) ==> r == Ok::<(), PollError>(()) && final(self)@ == old(
                self,
            )@.insert(id, Registration::fresh(token, interest, trigger)),
    {
        if self.map.contains_key(&id) {
            self.map.insert(id, Registration { token, interest, trigger, last_ready: Interest::none(), active: true });
            Ok(())
        } else {
            Err(PollError::NotFound)
        }
    }

    /// Deletes the registration of `id`; rejected when `id` is not live.
    pub fn remove(&mut self, id: u64) -> (r: Result<Registration, PollError>)
        ensures
            !old(self)@.contains_key(id) ==> r == Err::<Registration, PollError>(PollError::NotFound)
                && final(self)@ == old(self)@,
            old(self)@.contains_key(id) ==> r == Ok::<Registration, PollError>(old(self)@[id])
                && final(self)@ == old(self)@.remove(id),
    {
        match self.map.remove(&id) {
            Some(reg) => Ok(reg),
            None => Err(PollError::NotFound),
        }
    }

    /// Notes raw readiness reported for `id`: edge bookkeeping forgets the
    /// flags no longer asserted, so a cleared-then-reasserted condition
    /// counts as newly asserted again.  Ignored for an id that is not live.
    pub(crate) fn note_observed(&mut self, id: u64, raw: Interest)
        ensures
            !old(self)@.contains_key(id) ==> final(self)@ == old(self)@,
            old(self)@.contains_key(id) ==> final(self)@ == old(self)@.insert(
                id,
                (Registration {
                    last_ready: old(self)@[id].last_ready.intersect(raw),
                    ..old(self)@[id]
                }),
            ),
    {
        match self.map.get(&id) {
            Some(reg) => {
                let updated = Registration { last_ready: reg.last_ready.intersect(raw), ..*reg };
                self.map.insert(id, updated);
            },
            None => {},
        }
    }

    /// Records a delivery for `id`: the raw readiness just reported becomes
    /// the last-observed state, and a oneshot registration disarms itself.
    pub(crate) fn record_delivery(&mut self, id: u64, raw: Interest)
        requires
            old(self)@.contains_key(id),
        ensures
            final(self)@ == old(self)@.insert(
                id,
                (Registration {
                    last_ready: raw,
                    active: old(self)@[id].active && !(old(self)@[id].trigger
                        == TriggerMode::Oneshot),
                    ..old(self)@[id]
                }),
            ),
    {
        let reg = *self.map.get(&id).unwrap();
        let updated = Registration {
            last_ready: raw,
            active: reg.active && !(reg.trigger == TriggerMode::Oneshot),
            ..reg
        };
        self.map.insert(id, updated);
    }

    /// How many registrations are live.
    pub fn len(&self) -> (n: usize)
        ensures
            n as nat == self@.dom().len(),
    {
        self.map.len()
    }
}

} // verus!
