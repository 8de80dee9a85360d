//! Tokens, readiness events, and the reusable events buffer.

use vstd::prelude::*;
use crate::interest::Interest;

verus! {

/// A caller-chosen opaque identifier correlating registrations to events
/// within one poll instance.  Pure identity, no behavior.
#[derive(Clone, Copy, Debug, PartialEq, Eq, Hash, Structural)]
pub struct Token(pub usize);

/// One readiness event: the token of the registration it belongs to, and
/// the flags that were delivered for it.
#[derive(Clone, Copy, Debug, PartialEq, Eq, Structural)]
pub struct Event {
    pub token: Token,
    pub readiness: Interest,
}

impl Event {
    pub fn token(&self) -> (t: Token)
        ensures
            t == self.token,
    {
        self.token
    }

    pub fn readiness(&self) -> (r: Interest)
        ensures
            r == self.readiness,
    {
        self.readiness
    }
}

/// A capacity-bounded, reusable buffer of delivered events: cleared and
/// refilled, never grown, by each wait call, and drained by the caller.
pub struct Events {
    items: Vec<Event>,
    cap: usize,
}

impl View for Events {
    type V = Seq<Event>;

    closed spec fn view(&self) -> Seq<Event> {
        self.items@
    }
}

impl Events {
    /// The fixed capacity chosen at construction.
    pub closed spec fn spec_capacity(self) -> nat {
        self.cap as nat
    }

    /// The buffer never holds more events than its capacity.
    pub open spec fn inv(self) -> bool {
        self@.len() <= self.spec_capacity()
    }

    pub fn with_capacity(cap: usize) -> (e: Events)
        ensures
            e.inv(),
            e@ == Seq::<Event>::empty(),
            e.spec_capacity() == cap as nat,
    {
        Events { items: Vec::new(), cap }
    }

    pub fn capacity(&self) -> (n: usize)
        ensures
            n as nat == self.spec_capacity(),
    {
        self.cap
    }

    pub fn len(&self) -> (n: usize)
        ensures
            n == self@.len(),
    {
        self.items.len()
    }

    pub fn is_empty(&self) -> (r: bool)
        ensures
            r == (self@.len() == 0),
    {
        self.items.len() == 0
    }

    /// The event at index `i` of the last wait's batch, if there is one.
    pub fn get(&self, i: usize) -> (r: Option<Event>)
        ensures
            i < self@.len() ==> r == Some(self@[i as int]),
            i >= self@.len() ==> r is None,
    {
        if i < self.items.len() {
            Some(self.items[i])
        } else {
            None
        }
    }

    /// The whole batch of the last wait, in delivery order.
    pub fn as_slice(&self) -> (r: &[Event])
        ensures
            r@ == self@,
    {
        self.items.as_slice()
    }

    /// Empties the buffer for the next wait call; the capacity stays.
    pub(crate) fn clear(&mut self)
        ensures
            final(self).inv(),
            final(self)@ == Seq::<Event>::empty(),
            final(self).spec_capacity() == old(self).spec_capacity(),
    {
        self.items.clear();
    }

    pub(crate) fn push(&mut self, ev: Event)
        requires
            old(self).inv(),
            old(self)@.len() < old(self).spec_capacity(),
        ensures
            final(self).inv(),
            final(self)@ == old(self)@.push(ev),
            final(self).spec_capacity() == old(self).spec_capacity(),
    {
        self.items.push(ev);
    }
}

} // verus!
