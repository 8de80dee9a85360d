//! The poll facade: the public entry point of the engine.
//!
//! A `Poll` owns one registration table and one backend adapter.  It
//! validates requests, keeps table and backend subscriptions consistent,
//! and derives delivered events from the backend's raw reports: the raw
//! readiness is intersected with the registration's interest set extended
//! by hangup and error, and for edge and oneshot registrations further
//! restricted to the flags newly asserted since the last delivery.
//!
//! Blocking is the embedding's business: the portable backend polls the
//! raw states the embedding fed in, so a blocking wait with a timeout is a
//! loop around [`Poll::wait`] that performs the OS-level sleep outside
//! this crate.

use vstd::prelude::*;
use crate::backend::{PollBackend, RawReport, Subscription, has_id, ids_unique, spec_reports};
use crate::errors::PollError;
use crate::event::{Event, Events, Token};
use crate::interest::{Interest, TriggerMode};
use crate::registry::{Registration, Registry};

verus! {

/// The flags one wait delivers for a registration whose resource reported
/// raw readiness `raw`: nothing when the registration is disarmed; the raw
/// flags within the interest set extended by hangup and error; and for an
/// edge or oneshot registration only those of them not already observed at
/// the last delivery.
pub open spec fn delivered_of(reg: Registration, raw: Interest) -> Interest {
    if !reg.active {
        Interest::empty()
    } else {
        let base = raw.intersect(reg.interest.with_hup_err());
        if reg.trigger == TriggerMode::Level {
            base
        } else {
            base.difference(reg.last_ready)
        }
    }
}

/// The registration after an event for it was appended: the raw readiness
/// just reported becomes the last-observed state, and a oneshot disarms.
pub open spec fn after_delivery(reg: Registration, raw: Interest) -> Registration {
    Registration {
        last_ready: raw,
        active: reg.active && !(reg.trigger == TriggerMode::Oneshot),
        ..reg
    }
}

/// The registration after the embedding reported raw readiness `raw` for
/// its resource: the edge bookkeeping forgets flags no longer asserted, so
/// a cleared-then-reasserted condition counts as newly asserted again.
pub open spec fn observed(reg: Registration, raw: Interest) -> Registration {
    Registration { last_ready: reg.last_ready.intersect(raw), ..reg }
}

/// How one raw report changes the wait's outcome so far.  A report for a
/// resource without a live registration, with nothing deliverable, or
/// arriving when the buffer is full changes nothing: in the last case the
/// bookkeeping is left untouched, so an undelivered edge notification
/// stays pending for a later wait.
pub open spec fn deliver_step(
    evs: Seq<Event>,
    regs: Map<u64, Registration>,
    rep: RawReport,
    cap: nat,
) -> (Seq<Event>, Map<u64, Registration>) {
    if !regs.contains_key(rep.id) {
        (evs, regs)
    } else {
        let reg = regs[rep.id];
        let d = delivered_of(reg, rep.readiness);
        if d.is_empty() || evs.len() >= cap {
            (evs, regs)
        } else {
            (
                evs.push(Event { token: reg.token, readiness: d }),
                regs.insert(rep.id, after_delivery(reg, rep.readiness)),
            )
        }
    }
}

/// The wait's outcome after processing the raw reports from index `i` on,
/// starting from the events and registrations accumulated so far.
pub open spec fn deliver_from(
    reports: Seq<RawReport>,
    i: int,
    evs: Seq<Event>,
    regs: Map<u64, Registration>,
    cap: nat,
) -> (Seq<Event>, Map<u64, Registration>)
    decreases reports.len() - i,
{
    if i < 0 || i >= reports.len() {
        (evs, regs)
    } else {
        let stepped = deliver_step(evs, regs, reports[i], cap);
        deliver_from(reports, i + 1, stepped.0, stepped.1, cap)
    }
}

/// The events one wait delivers and the registrations it leaves behind,
/// from the subscriptions' raw states, the registration table, and the
/// buffer capacity.
pub open spec fn spec_wait(
    subs: Seq<Subscription>,
    regs: Map<u64, Registration>,
    cap: nat,
) -> (Seq<Event>, Map<u64, Registration>) {
    deliver_from(spec_reports(subs), 0, Seq::empty(), regs, cap)
}

/// Computes `delivered_of` on a borrowed registration.
fn compute_delivered(reg: &Registration, raw: Interest) -> (d: Interest)
    ensures
        d == delivered_of(*reg, raw),
{
    if !reg.active {
        Interest::none()
    } else {
        let base = raw.intersect(reg.interest.with_hup_err());
        if reg.trigger == TriggerMode::Level {
            base
        } else {
            base.difference(reg.last_ready)
        }
    }
}

/// A poll instance: one registration table and one backend adapter, with
/// private, instance-scoped state.  Its view is the pair of the table's
/// mapping and the backend's subscription sequence.
pub struct Poll {
    registry: Registry,
    backend: PollBackend,
}

impl View for Poll {
    type V = (Map<u64, Registration>, Seq<Subscription>);

    closed spec fn view(&self) -> (Map<u64, Registration>, Seq<Subscription>) {
        (self.registry@, self.backend@)
    }
}

impl Poll {
    /// Table and backend agree: no resource is subscribed twice, a
    /// resource is subscribed exactly when it is registered, and the raw
    /// interest subscribed for it is the interest set of its registration.
    pub open spec fn inv(self) -> bool {
        &&& ids_unique(self@.1)
        &&& forall|i: int|
            #![auto]
            0 <= i < self@.1.len() ==> self@.0.contains_key(self@.1[i].id)
                && self@.0[self@.1[i].id].interest == self@.1[i].raw_interest
        &&& forall|id: u64| #![auto] self@.0.contains_key(id) ==> has_id(self@.1, id)
    }

    /// A fresh instance with an empty table and a freshly initialized
    /// backend.  The portable backend cannot fail to initialize, so this
    /// always succeeds; the result is fallible because an OS-native
    /// backend's construction is not.
    pub fn new() -> (r: Result<Poll, PollError>)
        ensures
            r matches Ok(p) && p.inv() && p@.0 == Map::<u64, Registration>::empty() && p@.1
                == Seq::<Subscription>::empty(),
    {
        Ok(Poll { registry: Registry::new(), backend: PollBackend::new() })
    }

    /// Registers a resource: validates the interest set, installs a fresh
    /// registration and subscribes the backend, or changes nothing.
    pub fn register(
        &mut self,
        id: u64,
        token: Token,
        interest: Interest,
        trigger: TriggerMode,
    ) -> (r: Result<(), PollError>)
        requires
            old(self).inv(),
        ensures
            final(self).inv(),
            !interest.spec_has_rw() ==> r == Err::<(), PollError>(PollError::InvalidInterest)
                && final(self)@ == old(self)@,
            interest.spec_has_rw() && old(self)@.0.contains_key(id) ==> r == Err::<(), PollError>(
                PollError::AlreadyRegistered,
            ) && final(self)@ == old(self)@,
            interest.spec_has_rw() && !old(self)@.0.contains_key(id) ==> r == Ok::<(), PollError>(())
                && final(self)@.0 == old(self)@.0.insert(
                id,
                Registration::fresh(token, interest, trigger),
            ) && final(self)@.1 == old(self)@.1.push(
                (Subscription { id, raw_interest: interest, state: Interest::empty() }),
            ),
    {
        if !interest.has_rw() {
            return Err(PollError::InvalidInterest);
        }
        match self.registry.insert(id, token, interest, trigger) {
            Err(e) => Err(e),
            Ok(()) => {
                self.backend.subscribe(id, interest);
                proof {
                    let osubs = old(self)@.1;
                    let subs = self@.1;
                    assert(!has_id(osubs, id)) by {
                        if has_id(osubs, id) {
                            let j = choose|j: int| 0 <= j < osubs.len() && osubs[j].id == id;
                            assert(old(self)@.0.contains_key(osubs[j].id));
                        }
                    }
                    assert forall|j1: int, j2: int| 0 <= j1 < j2 < subs.len() implies subs[j1].id
                        != subs[j2].id by {
                        if j2 == subs.len() - 1 {
                            assert(subs[j1] == osubs[j1]);
                            if osubs[j1].id == id {
                                assert(has_id(osubs, id));
                            }
                        } else {
                            assert(subs[j1] == osubs[j1] && subs[j2] == osubs[j2]);
                        }
                    }
                    assert forall|j: int| #![auto] 0 <= j < subs.len() implies self@.0.contains_key(
                        subs[j].id,
                    ) && self@.0[subs[j].id].interest == subs[j].raw_interest by {
                        if j < subs.len() - 1 {
                            assert(subs[j] == osubs[j]);
                            assert(old(self)@.0.contains_key(osubs[j].id));
                            if osubs[j].id == id {
                                assert(has_id(osubs, id));
                            }
                        }
                    }
                    assert forall|id2: u64| #![auto] self@.0.contains_key(id2) implies has_id(
                        subs,
                        id2,
                    ) by {
                        if id2 == id {
                            assert(subs[subs.len() - 1].id == id);
                        } else {
                            assert(old(self)@.0.contains_key(id2));
                            assert(has_id(osubs, id2));
                            let j = choose|j: int| 0 <= j < osubs.len() && osubs[j].id == id2;
                            assert(subs[j].id == id2);
                        }
                    }
                }
                Ok(())
            },
        }
    }

    /// Atomically replaces the registration of a live resource: the new
    /// token, interest set and trigger mode take effect as one, the edge
    /// bookkeeping is reset so the new interest is evaluated against the
    /// resource's current raw readiness, a disarmed oneshot is rearmed,
    /// and the backend subscription is modified to the new interest.
    pub fn reregister(
        &mut self,
        id: u64,
        token: Token,
        interest: Interest,
        trigger: TriggerMode,
    ) -> (r: Result<(), PollError>)
        requires
            old(self).inv(),
        ensures
            final(self).inv(),
            !interest.spec_has_rw() ==> r == Err::<(), PollError>(PollError::InvalidInterest)
                && final(self)@ == old(self)@,
            interest.spec_has_rw() && !old(self)@.0.contains_key(id) ==> r == Err::<(), PollError>(
                PollError::NotFound,
            ) && final(self)@ == old(self)@,
            interest.spec_has_rw() && old(self)@.0.contains_key(id) ==> r == Ok::<(), PollError>(())
                && final(self)@.0 == old(self)@.0.insert(
                id,
                Registration::fresh(token, interest, trigger),
            ) && exists|i: int|
                #![auto]
                0 <= i < old(self)@.1.len() && old(self)@.1[i].id == id && final(self)@.1 == old(
                    self,
                )@.1.update(
                    i,
                    (Subscription { id, raw_interest: interest, state: old(self)@.1[i].state }),
                ),
    {
        if !interest.has_rw() {
            return Err(PollError::InvalidInterest);
        }
        match self.registry.update(id, token, interest, trigger) {
            Err(e) => Err(e),
            Ok(()) => {
                self.backend.modify(id, interest);
                proof {
                    let subs = self@.1;
                    let i = choose|i: int|
                        #![auto]
                        0 <= i < old(self)@.1.len() && old(self)@.1[i].id == id && subs == old(
                            self,
                        )@.1.update(
                            i,
                            (Subscription {
                                id,
                                raw_interest: interest,
                                state: old(self)@.1[i].state,
                            }),
                        );
                    assert(ids_unique(subs));
                    assert forall|j: int| #![auto] 0 <= j < subs.len() implies self@.0.contains_key(
                        subs[j].id,
                    ) && self@.0[subs[j].id].interest == subs[j].raw_interest by {
                        if j != i {
                            assert(subs[j] == old(self)@.1[j]);
                            assert(old(self)@.1[j].id != id);
                        }
                    }
                    assert forall|id2: u64| #![auto] self@.0.contains_key(id2) implies has_id(
                        subs,
                        id2,
                    ) by {
                        assert(old(self)@.0.contains_key(id2));
                        assert(has_id(old(self)@.1, id2));
                        let j = choose|j: int| 0 <= j < old(self)@.1.len() && old(self)@.1[j].id
                            == id2;
                        assert(subs[j].id == id2);
                    }
                }
                Ok(())
            },
        }
    }

    /// Removes the registration of a live resource and unsubscribes the
    /// backend; afterwards no wait can derive an event from it.
    pub fn deregister(&mut self, id: u64) -> (r: Result<(), PollError>)
        requires
            old(self).inv(),
        ensures
            final(self).inv(),
            !old(self)@.0.contains_key(id) ==> r == Err::<(), PollError>(PollError::NotFound)
                && final(self)@ == old(self)@,
            old(self)@.0.contains_key(id) ==> r == Ok::<(), PollError>(()) && final(self)@.0 == old(
                self,
            )@.0.remove(id) && exists|i: int|
                #![auto]
                0 <= i < old(self)@.1.len() && old(self)@.1[i].id == id && final(self)@.1 == old(
                    self,
                )@.1.remove(i),
    {
        match self.registry.remove(id) {
            Err(e) => Err(e),
            Ok(_) => {
                self.backend.unsubscribe(id);
                proof {
                    let subs = self@.1;
                    let i = choose|i: int|
                        #![auto]
                        0 <= i < old(self)@.1.len() && old(self)@.1[i].id == id && subs == old(
                            self,
                        )@.1.remove(i);
                    assert forall|j1: int, j2: int| 0 <= j1 < j2 < subs.len() implies subs[j1].id
                        != subs[j2].id by {
                        assert(subs[j1] == if j1 < i {
                            old(self)@.1[j1]
                        } else {
                            old(self)@.1[j1 + 1]
                        });
                        assert(subs[j2] == if j2 < i {
                            old(self)@.1[j2]
                        } else {
                            old(self)@.1[j2 + 1]
                        });
                    }
                    assert forall|j: int| #![auto] 0 <= j < subs.len() implies self@.0.contains_key(
                        subs[j].id,
                    ) && self@.0[subs[j].id].interest == subs[j].raw_interest by {
                        let j0 = if j < i {
                            j
                        } else {
                            j + 1
                        };
                        assert(subs[j] == old(self)@.1[j0]);
                        assert(old(self)@.1[j0].id != id);
                    }
                    assert forall|id2: u64| #![auto] self@.0.contains_key(id2) implies has_id(
                        subs,
                        id2,
                    ) by {
                        assert(old(self)@.0.contains_key(id2) && id2 != id);
                        assert(has_id(old(self)@.1, id2));
                        let j = choose|j: int| 0 <= j < old(self)@.1.len() && old(self)@.1[j].id
                            == id2;
                        if j < i {
                            assert(subs[j].id == id2);
                        } else {
                            assert(j != i);
                            assert(subs[j - 1].id == id2);
                        }
                    }
                }
                Ok(())
            },
        }
    }

    /// Records the raw readiness the embedding observed on a resource, and
    /// reports whether the resource has a live registration.  The backend
    /// stores the state for the next wait, and the registration's edge
    /// bookkeeping forgets flags no longer asserted.
    pub fn set_readiness(&mut self, id: u64, raw: Interest) -> (found: bool)
        requires
            old(self).inv(),
        ensures
            final(self).inv(),
            found == old(self)@.0.contains_key(id),
            !old(self)@.0.contains_key(id) ==> final(self)@ == old(self)@,
            old(self)@.0.contains_key(id) ==> final(self)@.0 == old(self)@.0.insert(
                id,
                observed(old(self)@.0[id], raw),
            ) && exists|i: int|
                #![auto]
                0 <= i < old(self)@.1.len() && old(self)@.1[i].id == id && final(self)@.1 == old(
                    self,
                )@.1.update(
                    i,
                    (Subscription { id, raw_interest: old(self)@.1[i].raw_interest, state: raw }),
                ),
    {
        let found = self.backend.set_state(id, raw);
        self.registry.note_observed(id, raw);
        proof {
            if old(self)@.0.contains_key(id) {
                let subs = self@.1;
                let i = choose|i: int|
                    #![auto]
                    0 <= i < old(self)@.1.len() && old(self)@.1[i].id == id && subs == old(
                        self,
                    )@.1.update(
                        i,
                        (Subscription {
                            id,
                            raw_interest: old(self)@.1[i].raw_interest,
                            state: raw,
                        }),
                    );
                assert forall|j: int| #![auto] 0 <= j < subs.len() implies self@.0.contains_key(
                    subs[j].id,
                ) && self@.0[subs[j].id].interest == subs[j].raw_interest by {
                    if j != i {
                        assert(subs[j] == old(self)@.1[j]);
                        assert(old(self)@.1[j].id != id);
                    }
                }
                assert forall|id2: u64| #![auto] self@.0.contains_key(id2) implies has_id(
                    subs,
                    id2,
                ) by {
                    assert(old(self)@.0.contains_key(id2));
                    assert(has_id(old(self)@.1, id2));
                    let j = choose|j: int| 0 <= j < old(self)@.1.len() && old(self)@.1[j].id == id2;
                    assert(subs[j].id == id2);
                }
            }
        }
        found
    }

    /// One wait: clears the buffer, collects the backend's raw reports,
    /// and appends a derived event per report, in report order, up to the
    /// buffer's capacity.  Delivery and the bookkeeping it leaves behind
    /// are exactly `spec_wait` of the old state; the subscriptions and
    /// their raw states are untouched, and the count of appended events is
    /// returned.  A wait that delivers nothing is a success with count
    /// zero, not an error.
    pub fn wait(&mut self, events: &mut Events) -> (n: usize)
        requires
            old(self).inv(),
            old(events).inv(),
        ensures
            final(self).inv(),
            final(events).inv(),
            final(events).spec_capacity() == old(events).spec_capacity(),
            final(self)@.1 == old(self)@.1,
            final(events)@ == spec_wait(
                old(self)@.1,
                old(self)@.0,
                old(events).spec_capacity(),
            ).0,
            final(self)@.0 == spec_wait(old(self)@.1, old(self)@.0, old(events).spec_capacity()).1,
            n == final(events)@.len(),
    {
        let ghost subs0 = self@.1;
        let ghost regs0 = self@.0;
        let ghost cap = old(events).spec_capacity();
        events.clear();
        let reports = self.backend.poll_ready();
        let mut i: usize = 0;
        while i < reports.len()
            invariant
                i <= reports@.len(),
                reports@ == spec_reports(subs0),
                self@.1 == subs0,
                old(self).inv(),
                events.inv(),
                events.spec_capacity() == cap,
                deliver_from(reports@, 0, Seq::empty(), regs0, cap) == deliver_from(
                    reports@,
                    i as int,
                    events@,
                    self@.0,
                    cap,
                ),
                forall|id: u64| #![auto] self@.0.contains_key(id) == regs0.contains_key(id),
                forall|id: u64|
                    #![auto]
                    regs0.contains_key(id) ==> self@.0[id].interest == regs0[id].interest,
            decreases reports@.len() - i,
        {
            let rep = reports[i];
            let ghost evs_pre = events@;
            let ghost regs_pre = self@.0;
            match self.registry.get(rep.id) {
                None => {},
                Some(reg) => {
                    let d = compute_delivered(&reg, rep.readiness);
                    if !d.is_empty() && events.len() < events.capacity() {
                        events.push(Event { token: reg.token, readiness: d });
                        self.registry.record_delivery(rep.id, rep.readiness);
                    }
                },
            }
            proof {
                assert(deliver_step(evs_pre, regs_pre, reports@[i as int], cap) == (
                    events@,
                    self@.0,
                ));
                assert(deliver_from(reports@, i as int, evs_pre, regs_pre, cap) == deliver_from(
                    reports@,
                    i as int + 1,
                    events@,
                    self@.0,
                    cap,
                ));
            }
            i += 1;
        }
        proof {
            assert(deliver_from(reports@, reports@.len() as int, events@, self@.0, cap) == (
                events@,
                self@.0,
            ));
            assert forall|j: int| #![auto] 0 <= j < self@.1.len() implies self@.0.contains_key(
                self@.1[j].id,
            ) && self@.0[self@.1[j].id].interest == self@.1[j].raw_interest by {
                assert(regs0.contains_key(subs0[j].id));
            }
        }
        events.len()
    }

    /// How many resources hold a live registration.
    pub fn registered_count(&self) -> (n: usize)
        ensures
            n as nat == self@.0.dom().len(),
    {
        self.registry.len()
    }
}

} // verus!
