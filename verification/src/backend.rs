//! The portable backend adapter.
//!
//! The backend owns the OS-level view of the world: which resources are
//! subscribed, with what raw interest, and the raw readiness last fed in
//! for each.  It is the level-native, readiness-polling variant of the
//! adapter capability: a wait reports every subscribed resource whose raw
//! state asserts a subscribed (or always-reportable) flag, and keeps
//! reporting it for as long as the state holds.  The embedding that
//! observes real resources feeds their raw readiness in through the
//! facade; edge-triggering is emulated above, in the facade's bookkeeping.

use vstd::prelude::*;
use crate::interest::Interest;

verus! {

/// One subscription of the portable backend: the resource's identity, the
/// raw interest subscribed for it, and the raw readiness last fed in.
#[derive(Clone, Copy, Debug, PartialEq, Eq, Structural)]
pub struct Subscription {
    pub id: u64,
    pub raw_interest: Interest,
    pub state: Interest,
}

/// One entry of a wait's raw report: a resource and its full raw readiness.
#[derive(Clone, Copy, Debug, PartialEq, Eq, Structural)]
pub struct RawReport {
    pub id: u64,
    pub readiness: Interest,
}

/// No two subscriptions name the same resource.
pub open spec fn ids_unique(s: Seq<Subscription>) -> bool {
    forall|i: int, j: int| 0 <= i < j < s.len() ==> s[i].id != s[j].id
}

/// Whether a subscription holds the given resource identity.
pub open spec fn has_id(s: Seq<Subscription>, id: u64) -> bool {
    exists|i: int| 0 <= i < s.len() && s[i].id == id
}

/// Whether the backend would report this subscription: its raw state
/// asserts a flag of the subscribed raw interest, or hangup or error.
pub open spec fn reportable(s: Subscription) -> bool {
    !s.state.intersect(s.raw_interest.with_hup_err()).is_empty()
}

/// The raw reports a wait produces from subscription `i` onward, in
/// subscription order: every reportable resource with its full raw state.
pub open spec fn reports_from(s: Seq<Subscription>, i: int) -> Seq<RawReport>
    decreases s.len() - i,
{
    if i < 0 || i >= s.len() {
        Seq::empty()
    } else {
        let rest = reports_from(s, i + 1);
        if reportable(s[i]) {
            seq![RawReport { id: s[i].id, readiness: s[i].state }] + rest
        } else {
            rest
        }
    }
}

/// The full raw report of one wait over these subscriptions.
pub open spec fn spec_reports(s: Seq<Subscription>) -> Seq<RawReport> {
    reports_from(s, 0)
}

/// The portable backend: subscriptions in subscription order, each with
/// the raw readiness the embedding last fed in for it.
pub struct PollBackend {
    subs: Vec<Subscription>,
}

impl View for PollBackend {
    type V = Seq<Subscription>;

    closed spec fn view(&self) -> Seq<Subscription> {
        self.subs@
    }
}

impl PollBackend {
    pub fn new() -> (b: PollBackend)
        ensures
            b@ == Seq::<Subscription>::empty(),
    {
        PollBackend { subs: Vec::new() }
    }

    /// The index of the subscription of `id`, if there is one.
    fn find(&self, id: u64) -> (r: Option<usize>)
        ensures
            match r {
                Some(i) => i < self@.len() && self@[i as int].id == id,
                None => !has_id(self@, id),
            },
    {
        let mut i: usize = 0;
        while i < self.subs.len()
            invariant
                i <= self@.len(),
                forall|j: int| 0 <= j < i ==> self@[j].id != id,
            decreases self@.len() - i,
        {
            if self.subs[i].id == id {
                return Some(i);
            }
            i += 1;
        }
        None
    }

    /// Whether `id` is subscribed.
    pub fn is_subscribed(&self, id: u64) -> (b: bool)
        ensures
            b == has_id(self@, id),
    {
        self.find(id).is_some()
    }

    /// Adds a subscription for `id` with the given raw interest; no raw
    /// readiness is assumed until the embedding feeds some in.
    pub fn subscribe(&mut self, id: u64, raw_interest: Interest)
        requires
            !has_id(old(self)@, id),
        ensures
            final(self)@ == old(self)@.push(
                (Subscription { id, raw_interest, state: Interest::empty() }),
            ),
    {
        self.subs.push(Subscription { id, raw_interest, state: Interest::none() });
    }

    /// Replaces the raw interest of the subscription of `id`, keeping the
    /// raw readiness last fed in for it.
    pub fn modify(&mut self, id: u64, raw_interest: Interest)
        requires
            has_id(old(self)@, id),
        ensures
            exists|i: int|
                #![auto]
                0 <= i < old(self)@.len() && old(self)@[i].id == id && final(self)@ == old(
                    self,
                )@.update(
                    i,
                    (Subscription { id, raw_interest, state: old(self)@[i].state }),
                ),
    {
        let i = self.find(id).unwrap();
        let state = self.subs[i].state;
        self.subs.set(i, Subscription { id, raw_interest, state });
    }

    /// Drops the subscription of `id`; later subscriptions keep their order.
    pub fn unsubscribe(&mut self, id: u64)
        requires
            has_id(old(self)@, id),
        ensures
            exists|i: int|
                #![auto]
                0 <= i < old(self)@.len() && old(self)@[i].id == id && final(self)@ == old(
                    self,
                )@.remove(i),
    {
        let i = self.find(id).unwrap();
        self.subs.remove(i);
    }

    /// Records the raw readiness the embedding observed on `id`; reports
    /// whether `id` was subscribed at all.
    pub fn set_state(&mut self, id: u64, raw: Interest) -> (found: bool)
        ensures
            found == has_id(old(self)@, id),
            !has_id(old(self)@, id) ==> final(self)@ == old(self)@,
            has_id(old(self)@, id) ==> exists|i: int|
                #![auto]
                0 <= i < old(self)@.len() && old(self)@[i].id == id && final(self)@ == old(
                    self,
                )@.update(
                    i,
                    (Subscription {
                        id,
                        raw_interest: old(self)@[i].raw_interest,
                        state: raw,
                    }),
                ),
    {
        match self.find(id) {
            Some(i) => {
                let raw_interest = self.subs[i].raw_interest;
                self.subs.set(i, Subscription { id, raw_interest, state: raw });
                true
            },
            None => false,
        }
    }

    /// One wait over the stored raw states: the reports of every
    /// subscribed resource whose state asserts a subscribed or
    /// always-reportable flag, in subscription order.
    pub fn poll_ready(&self) -> (reports: Vec<RawReport>)
        ensures
            reports@ == spec_reports(self@),
    {
        let mut out: Vec<RawReport> = Vec::new();
        let mut i: usize = 0;
        while i < self.subs.len()
            invariant
                i <= self@.len(),
                spec_reports(self@) == out@ + reports_from(self@, i as int),
            decreases self@.len() - i,
        {
            let s = self.subs[i];
            if !s.state.intersect(s.raw_interest.with_hup_err()).is_empty() {
                proof {
                    assert(out@ + reports_from(self@, i as int) == (out@.push(
                        RawReport { id: s.id, readiness: s.state },
                    )) + reports_from(self@, i as int + 1)) by {
                        assert(reports_from(self@, i as int) == seq![
                            RawReport { id: s.id, readiness: s.state },
                        ] + reports_from(self@, i as int + 1));
                        assert(out@ + (seq![RawReport { id: s.id, readiness: s.state }]
                            + reports_from(self@, i as int + 1)) =~= (out@.push(
                            RawReport { id: s.id, readiness: s.state },
                        )) + reports_from(self@, i as int + 1));
                    }
                }
                out.push(RawReport { id: s.id, readiness: s.state });
            } else {
                proof {
                    assert(reports_from(self@, i as int) == reports_from(self@, i as int + 1));
                }
            }
            i += 1;
        }
        proof {
            assert(out@ + reports_from(self@, self@.len() as int) =~= out@);
        }
        out
    }

    /// How many resources are subscribed.
    pub fn len(&self) -> (n: usize)
        ensures
            n == self@.len(),
    {
        self.subs.len()
    }
}

} // verus!
