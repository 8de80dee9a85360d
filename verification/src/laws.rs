//! The engine's delivery laws, stated over the wait specification and
//! proved once for every state.

use vstd::prelude::*;
use crate::backend::{RawReport, Subscription, ids_unique, reportable, reports_from, spec_reports};
use crate::event::{Event, Token};
use crate::interest::{Interest, TriggerMode};
use crate::poll::{after_delivery, deliver_from, deliver_step, delivered_of, observed, spec_wait};
use crate::registry::Registration;

verus! {

/// The event belongs to some live registration: its token is that
/// registration's token and its readiness lies within that registration's
/// interest set extended by hangup and error.
pub open spec fn event_of_some_registration(regs: Map<u64, Registration>, ev: Event) -> bool {
    exists|id: u64|
        #![auto]
        regs.contains_key(id) && ev.token == regs[id].token && ev.readiness.le(
            regs[id].interest.with_hup_err(),
        )
}

/// A wait never creates or destroys registrations, and never changes a
/// registration's token, interest set or trigger mode; only a oneshot's
/// armed flag can change.
pub open spec fn wait_preserves(regs: Map<u64, Registration>, regs2: Map<u64, Registration>) -> bool {
    &&& forall|id: u64| #![auto] regs2.contains_key(id) == regs.contains_key(id)
    &&& forall|id: u64|
        #![auto]
        regs.contains_key(id) ==> regs2[id].token == regs[id].token && regs2[id].interest
            == regs[id].interest && regs2[id].trigger == regs[id].trigger && (!(regs[id].trigger
            == TriggerMode::Oneshot) ==> regs2[id].active == regs[id].active)
}

proof fn lemma_deliver_from_frame(
    reports: Seq<RawReport>,
    i: int,
    evs: Seq<Event>,
    regs: Map<u64, Registration>,
    cap: nat,
)
    ensures
        ({
            let out = deliver_from(reports, i, evs, regs, cap);
            &&& wait_preserves(regs, out.1)
            &&& out.0.len() >= evs.len()
            &&& forall|k: int| 0 <= k < evs.len() ==> out.0[k] == evs[k]
            &&& forall|k: int|
                #![auto]
                evs.len() <= k < out.0.len() ==> event_of_some_registration(regs, out.0[k])
                    && !out.0[k].readiness.is_empty()
        }),
    decreases reports.len() - i,
{
    let out = deliver_from(reports, i, evs, regs, cap);
    if i < 0 || i >= reports.len() {
    } else {
        let stepped = deliver_step(evs, regs, reports[i], cap);
        lemma_deliver_from_frame(reports, i + 1, stepped.0, stepped.1, cap);
        assert(wait_preserves(regs, stepped.1));
        assert forall|k: int| 0 <= k < evs.len() implies out.0[k] == evs[k] by {
            assert(out.0[k] == stepped.0[k]);
            assert(stepped.0[k] == evs[k]);
        }
        assert forall|k: int|
            #![auto]
            evs.len() <= k < out.0.len() implies event_of_some_registration(regs, out.0[k])
            && !out.0[k].readiness.is_empty() by {
            if k < stepped.0.len() {
                let rep = reports[i];
                let reg = regs[rep.id];
                assert(out.0[k] == stepped.0[k]);
                assert(stepped.0[k] == (Event {
                    token: reg.token,
                    readiness: delivered_of(reg, rep.readiness),
                }));
                assert(delivered_of(reg, rep.readiness).le(reg.interest.with_hup_err()));
                assert(event_of_some_registration(regs, out.0[k]));
            } else {
                assert(event_of_some_registration(stepped.1, out.0[k]));
                let id = choose|id: u64|
                    #![auto]
                    stepped.1.contains_key(id) && out.0[k].token == stepped.1[id].token
                        && out.0[k].readiness.le(stepped.1[id].interest.with_hup_err());
                assert(regs.contains_key(id) && out.0[k].token == regs[id].token
                    && out.0[k].readiness.le(regs[id].interest.with_hup_err()));
                assert(event_of_some_registration(regs, out.0[k]));
            }
        }
    }
}

/// A wait is sound: every event it delivers belongs to a live
/// registration and carries at least one flag — a resource whose computed
/// delivered set is empty produces no event — and the registrations the
/// wait leaves behind are the ones it found, with token, interest set and
/// trigger mode untouched and only a oneshot's armed flag possibly
/// cleared.  In particular no event is ever produced for a token with no
/// live registration.
pub proof fn lemma_wait_sound(subs: Seq<Subscription>, regs: Map<u64, Registration>, cap: nat)
    ensures
        wait_preserves(regs, spec_wait(subs, regs, cap).1),
        forall|k: int|
            #![auto]
            0 <= k < spec_wait(subs, regs, cap).0.len() ==> event_of_some_registration(
                regs,
                spec_wait(subs, regs, cap).0[k],
            ) && !spec_wait(subs, regs, cap).0[k].readiness.is_empty(),
{
    lemma_deliver_from_frame(spec_reports(subs), 0, Seq::empty(), regs, cap);
}

proof fn lemma_deliver_from_count(
    reports: Seq<RawReport>,
    i: int,
    evs: Seq<Event>,
    regs: Map<u64, Registration>,
    cap: nat,
)
    requires
        0 <= i <= reports.len(),
    ensures
        ({
            let out = deliver_from(reports, i, evs, regs, cap);
            &&& out.0.len() <= evs.len() + (reports.len() - i)
            &&& evs.len() <= cap ==> out.0.len() <= cap
        }),
    decreases reports.len() - i,
{
    if i < reports.len() {
        let stepped = deliver_step(evs, regs, reports[i], cap);
        lemma_deliver_from_count(reports, i + 1, stepped.0, stepped.1, cap);
    }
}

/// A wait's batch is bounded: at most one event per raw-ready resource,
/// and never more events than the buffer's capacity.
pub proof fn lemma_wait_batch_bounded(subs: Seq<Subscription>, regs: Map<u64, Registration>, cap: nat)
    ensures
        spec_wait(subs, regs, cap).0.len() <= spec_reports(subs).len(),
        spec_wait(subs, regs, cap).0.len() <= cap,
{
    lemma_deliver_from_count(spec_reports(subs), 0, Seq::empty(), regs, cap);
}

/// After a deregistration no token of the removed resource can come back:
/// when no live registration carries token `t`, no event of any wait
/// carries `t`, however raw-ready the underlying resources stay.
pub proof fn lemma_absent_token_never_delivered(
    subs: Seq<Subscription>,
    regs: Map<u64, Registration>,
    cap: nat,
    t: Token,
)
    requires
        forall|id: u64| #![auto] regs.contains_key(id) ==> regs[id].token != t,
    ensures
        forall|k: int|
            #![auto]
            0 <= k < spec_wait(subs, regs, cap).0.len() ==> spec_wait(subs, regs, cap).0[k].token
                != t,
{
    lemma_wait_sound(subs, regs, cap);
    assert forall|k: int|
        #![auto]
        0 <= k < spec_wait(subs, regs, cap).0.len() implies spec_wait(subs, regs, cap).0[k].token
        != t by {
        let ev = spec_wait(subs, regs, cap).0[k];
        assert(event_of_some_registration(regs, ev));
        let id = choose|id: u64|
            #![auto]
            regs.contains_key(id) && ev.token == regs[id].token && ev.readiness.le(
                regs[id].interest.with_hup_err(),
            );
        assert(regs[id].token != t);
    }
}

/// A reregister takes effect atomically: once the table holds the new
/// interest set for the resource carrying token `t`, a wait reports under
/// `t` only conditions of that set, extended by the always-reportable
/// hangup and error, and never a condition only the old set asked for.
pub proof fn lemma_events_bounded_by_interest(
    subs: Seq<Subscription>,
    regs: Map<u64, Registration>,
    cap: nat,
    id: u64,
    t: Token,
)
    requires
        regs.contains_key(id),
        regs[id].token == t,
        forall|id2: u64| #![auto] regs.contains_key(id2) && id2 != id ==> regs[id2].token != t,
    ensures
        forall|k: int|
            #![auto]
            0 <= k < spec_wait(subs, regs, cap).0.len() && spec_wait(subs, regs, cap).0[k].token
                == t ==> spec_wait(subs, regs, cap).0[k].readiness.le(
                regs[id].interest.with_hup_err(),
            ),
{
    lemma_wait_sound(subs, regs, cap);
    assert forall|k: int|
        #![auto]
        0 <= k < spec_wait(subs, regs, cap).0.len() && spec_wait(subs, regs, cap).0[k].token
        == t implies spec_wait(subs, regs, cap).0[k].readiness.le(
        regs[id].interest.with_hup_err(),
    ) by {
        let ev = spec_wait(subs, regs, cap).0[k];
        assert(event_of_some_registration(regs, ev));
        let id2 = choose|id2: u64|
            #![auto]
            regs.contains_key(id2) && ev.token == regs[id2].token && ev.readiness.le(
                regs[id2].interest.with_hup_err(),
            );
        assert(id2 == id);
    }
}

/// An edge-triggered or oneshot registration does not fire twice on one
/// transition: after a delivery recorded raw readiness `raw`, no raw state
/// that asserts no flag beyond `raw` can be delivered again.
pub proof fn lemma_edge_no_redelivery(reg: Registration, raw: Interest, raw2: Interest)
    requires
        reg.trigger == TriggerMode::Edge || reg.trigger == TriggerMode::Oneshot,
        raw2.le(raw),
    ensures
        delivered_of(after_delivery(reg, raw), raw2).is_empty(),
{
}

/// An edge-triggered condition fires again exactly when it was cleared
/// and re-asserted: after a delivery recorded `raw` and the embedding then
/// reported `raw_low`, a later raw state `raw2` is delivered at precisely
/// its flags of interest that were not asserted through both `raw` and
/// `raw_low`.
pub proof fn lemma_edge_redelivery_after_transition(
    reg: Registration,
    raw: Interest,
    raw_low: Interest,
    raw2: Interest,
)
    requires
        reg.trigger == TriggerMode::Edge,
        reg.active,
    ensures
        delivered_of(observed(after_delivery(reg, raw), raw_low), raw2) == raw2.intersect(
            reg.interest.with_hup_err(),
        ).difference(raw.intersect(raw_low)),
{
}

/// The report was produced by some subscription at or after index `j`:
/// a reportable one whose identity and raw state the report carries.
spec fn report_sourced(subs: Seq<Subscription>, j: int, rep: RawReport) -> bool {
    exists|m: int|
        #![auto]
        j <= m < subs.len() && reportable(subs[m]) && rep == (RawReport {
            id: subs[m].id,
            readiness: subs[m].state,
        })
}

proof fn lemma_reports_sources(subs: Seq<Subscription>, j: int)
    ensures
        forall|k: int|
            #![trigger reports_from(subs, j)[k]]
            0 <= k < reports_from(subs, j).len() ==> report_sourced(
                subs,
                j,
                reports_from(subs, j)[k],
            ),
    decreases subs.len() - j,
{
    if j < 0 || j >= subs.len() {
    } else {
        lemma_reports_sources(subs, j + 1);
        let rest = reports_from(subs, j + 1);
        assert forall|k: int|
            #![trigger reports_from(subs, j)[k]]
            0 <= k < reports_from(subs, j).len() implies report_sourced(
            subs,
            j,
            reports_from(subs, j)[k],
        ) by {
            if reportable(subs[j]) {
                if k == 0 {
                    assert(reports_from(subs, j)[0] == (RawReport {
                        id: subs[j].id,
                        readiness: subs[j].state,
                    }));
                } else {
                    assert(reports_from(subs, j)[k] == rest[k - 1]);
                    assert(report_sourced(subs, j + 1, rest[k - 1]));
                    let m = choose|m: int|
                        #![auto]
                        j + 1 <= m < subs.len() && reportable(subs[m]) && rest[k - 1] == (RawReport {
                            id: subs[m].id,
                            readiness: subs[m].state,
                        });
                    assert(j <= m < subs.len());
                }
            } else {
                assert(reports_from(subs, j)[k] == rest[k]);
            }
        }
    }
}

proof fn lemma_reports_ids_unique(subs: Seq<Subscription>, j: int)
    requires
        ids_unique(subs),
    ensures
        forall|k1: int, k2: int|
            0 <= k1 < k2 < reports_from(subs, j).len() ==> reports_from(subs, j)[k1].id
                != reports_from(subs, j)[k2].id,
    decreases subs.len() - j,
{
    if j < 0 || j >= subs.len() {
    } else {
        lemma_reports_ids_unique(subs, j + 1);
        lemma_reports_sources(subs, j + 1);
        let rest = reports_from(subs, j + 1);
        assert forall|k1: int, k2: int|
            0 <= k1 < k2 < reports_from(subs, j).len() implies reports_from(subs, j)[k1].id
            != reports_from(subs, j)[k2].id by {
            if reportable(subs[j]) {
                if k1 == 0 {
                    assert(reports_from(subs, j)[k2] == rest[k2 - 1]);
                    assert(report_sourced(subs, j + 1, rest[k2 - 1]));
                    let m = choose|m: int|
                        #![auto]
                        j + 1 <= m < subs.len() && reportable(subs[m]) && rest[k2 - 1]
                            == (RawReport { id: subs[m].id, readiness: subs[m].state });
                    assert(subs[j].id != subs[m].id);
                } else {
                    assert(reports_from(subs, j)[k1] == rest[k1 - 1]);
                    assert(reports_from(subs, j)[k2] == rest[k2 - 1]);
                }
            } else {
                assert(reports_from(subs, j)[k1] == rest[k1]);
                assert(reports_from(subs, j)[k2] == rest[k2]);
            }
        }
    }
}

proof fn lemma_reports_first(subs: Seq<Subscription>, j: int, i: int) -> (k: int)
    requires
        ids_unique(subs),
        0 <= j <= i < subs.len(),
        reportable(subs[i]),
    ensures
        ({
            let reports = reports_from(subs, j);
            &&& 0 <= k < reports.len()
            &&& reports[k] == (RawReport { id: subs[i].id, readiness: subs[i].state })
            &&& forall|m: int| 0 <= m < k ==> reports[m].id != subs[i].id
        }),
    decreases i - j,
{
    let reports = reports_from(subs, j);
    if j == i {
        assert(reports[0] == (RawReport { id: subs[i].id, readiness: subs[i].state }));
        0
    } else {
        let rest_k = lemma_reports_first(subs, j + 1, i);
        let rest = reports_from(subs, j + 1);
        if reportable(subs[j]) {
            assert(reports == seq![RawReport { id: subs[j].id, readiness: subs[j].state }] + rest);
            assert(reports[rest_k + 1] == rest[rest_k]);
            assert(subs[j].id != subs[i].id);
            assert forall|m: int| 0 <= m < rest_k + 1 implies reports[m].id != subs[i].id by {
                if m > 0 {
                    assert(reports[m] == rest[m - 1]);
                }
            }
            rest_k + 1
        } else {
            rest_k
        }
    }
}

proof fn lemma_deliver_from_delivers(
    reports: Seq<RawReport>,
    i: int,
    evs: Seq<Event>,
    regs: Map<u64, Registration>,
    cap: nat,
    k: int,
) -> (m: int)
    requires
        0 <= i <= k < reports.len(),
        forall|j: int| i <= j < k ==> reports[j].id != reports[k].id,
        regs.contains_key(reports[k].id),
        !delivered_of(regs[reports[k].id], reports[k].readiness).is_empty(),
        evs.len() + (k - i) < cap,
    ensures
        ({
            let out = deliver_from(reports, i, evs, regs, cap);
            &&& evs.len() <= m < out.0.len()
            &&& out.0[m] == (Event {
                token: regs[reports[k].id].token,
                readiness: delivered_of(regs[reports[k].id], reports[k].readiness),
            })
        }),
    decreases k - i,
{
    let out = deliver_from(reports, i, evs, regs, cap);
    let stepped = deliver_step(evs, regs, reports[i], cap);
    if i == k {
        assert(stepped.0 == evs.push(
            Event {
                token: regs[reports[k].id].token,
                readiness: delivered_of(regs[reports[k].id], reports[k].readiness),
            },
        ));
        lemma_deliver_from_frame(reports, i + 1, stepped.0, stepped.1, cap);
        assert(out.0[evs.len() as int] == stepped.0[evs.len() as int]);
        evs.len() as int
    } else {
        assert(reports[i].id != reports[k].id);
        assert(stepped.1.contains_key(reports[k].id) && stepped.1[reports[k].id]
            == regs[reports[k].id]);
        assert(stepped.0.len() <= evs.len() + 1);
        lemma_deliver_from_delivers(reports, i + 1, stepped.0, stepped.1, cap, k)
    }
}

proof fn lemma_deliver_from_untouched(
    reports: Seq<RawReport>,
    i: int,
    evs: Seq<Event>,
    regs: Map<u64, Registration>,
    cap: nat,
    id: u64,
)
    requires
        forall|j: int| i <= j < reports.len() ==> reports[j].id != id,
    ensures
        ({
            let out = deliver_from(reports, i, evs, regs, cap);
            &&& out.1.contains_key(id) == regs.contains_key(id)
            &&& regs.contains_key(id) ==> out.1[id] == regs[id]
        }),
    decreases reports.len() - i,
{
    if i < 0 || i >= reports.len() {
    } else {
        let stepped = deliver_step(evs, regs, reports[i], cap);
        lemma_deliver_from_untouched(reports, i + 1, stepped.0, stepped.1, cap, id);
    }
}

proof fn lemma_deliver_from_resolves(
    reports: Seq<RawReport>,
    i: int,
    evs: Seq<Event>,
    regs: Map<u64, Registration>,
    cap: nat,
    k: int,
)
    requires
        0 <= i <= k < reports.len(),
        forall|j: int| i <= j < reports.len() && j != k ==> reports[j].id != reports[k].id,
        regs.contains_key(reports[k].id),
        evs.len() + (reports.len() - i) <= cap,
    ensures
        ({
            let out = deliver_from(reports, i, evs, regs, cap);
            let d = delivered_of(regs[reports[k].id], reports[k].readiness);
            &&& out.1.contains_key(reports[k].id)
            &&& out.1[reports[k].id] == if d.is_empty() {
                regs[reports[k].id]
            } else {
                after_delivery(regs[reports[k].id], reports[k].readiness)
            }
        }),
    decreases k - i,
{
    let out = deliver_from(reports, i, evs, regs, cap);
    let stepped = deliver_step(evs, regs, reports[i], cap);
    if i == k {
        lemma_deliver_from_untouched(reports, i + 1, stepped.0, stepped.1, cap, reports[k].id);
    } else {
        assert(reports[i].id != reports[k].id);
        assert(stepped.0.len() <= evs.len() + 1);
        lemma_deliver_from_resolves(reports, i + 1, stepped.0, stepped.1, cap, k);
    }
}

proof fn lemma_deliver_from_provenance(
    reports: Seq<RawReport>,
    i: int,
    evs: Seq<Event>,
    regs: Map<u64, Registration>,
    cap: nat,
)
    requires
        forall|k1: int, k2: int| i <= k1 < k2 < reports.len() ==> reports[k1].id != reports[k2].id,
    ensures
        ({
            let out = deliver_from(reports, i, evs, regs, cap);
            forall|k: int|
                #![auto]
                evs.len() <= k < out.0.len() ==> !out.0[k].readiness.is_empty() && exists|m: int|
                    #![auto]
                    i <= m < reports.len() && regs.contains_key(reports[m].id) && out.0[k]
                        == (Event {
                        token: regs[reports[m].id].token,
                        readiness: delivered_of(regs[reports[m].id], reports[m].readiness),
                    })
        }),
    decreases reports.len() - i,
{
    let out = deliver_from(reports, i, evs, regs, cap);
    if i < 0 || i >= reports.len() {
    } else {
        let stepped = deliver_step(evs, regs, reports[i], cap);
        lemma_deliver_from_provenance(reports, i + 1, stepped.0, stepped.1, cap);
        lemma_deliver_from_frame(reports, i + 1, stepped.0, stepped.1, cap);
        assert forall|k: int|
            #![auto]
            evs.len() <= k < out.0.len() implies !out.0[k].readiness.is_empty() && exists|m: int|
            #![auto]
            i <= m < reports.len() && regs.contains_key(reports[m].id) && out.0[k] == (Event {
                token: regs[reports[m].id].token,
                readiness: delivered_of(regs[reports[m].id], reports[m].readiness),
            }) by {
            if k < stepped.0.len() {
                assert(out.0[k] == stepped.0[k]);
                assert(out.0[k] == (Event {
                    token: regs[reports[i].id].token,
                    readiness: delivered_of(regs[reports[i].id], reports[i].readiness),
                }));
            } else {
                let m = choose|m: int|
                    #![auto]
                    i + 1 <= m < reports.len() && stepped.1.contains_key(reports[m].id) && out.0[k]
                        == (Event {
                        token: stepped.1[reports[m].id].token,
                        readiness: delivered_of(stepped.1[reports[m].id], reports[m].readiness),
                    });
                assert(reports[m].id != reports[i].id);
                assert(stepped.1.contains_key(reports[m].id) == regs.contains_key(reports[m].id));
                assert(regs.contains_key(reports[m].id) ==> stepped.1[reports[m].id]
                    == regs[reports[m].id]);
            }
        }
    }
}

/// One transition, one delivery: after a wait with room for every report,
/// an edge-triggered or oneshot registration has its bookkeeping
/// saturated — recomputing delivery for its resource's unchanged raw
/// state yields nothing, so the condition cannot fire again until the
/// embedding reports it cleared and re-asserted.
pub proof fn lemma_edge_wait_saturates(
    subs: Seq<Subscription>,
    regs: Map<u64, Registration>,
    cap: nat,
    i: int,
)
    requires
        ids_unique(subs),
        0 <= i < subs.len(),
        regs.contains_key(subs[i].id),
        regs[subs[i].id].interest == subs[i].raw_interest,
        regs[subs[i].id].trigger == TriggerMode::Edge || regs[subs[i].id].trigger
            == TriggerMode::Oneshot,
        spec_reports(subs).len() <= cap,
    ensures
        ({
            let regs1 = spec_wait(subs, regs, cap).1;
            &&& regs1.contains_key(subs[i].id)
            &&& delivered_of(regs1[subs[i].id], subs[i].state).is_empty()
        }),
{
    let id = subs[i].id;
    let reports = spec_reports(subs);
    lemma_reports_sources(subs, 0);
    lemma_reports_ids_unique(subs, 0);
    if reportable(subs[i]) {
        let k = lemma_reports_first(subs, 0, i);
        assert forall|j: int| 0 <= j < reports.len() && j != k implies reports[j].id
            != reports[k].id by {
            if j > k {
                assert(reports[k].id != reports[j].id);
            }
        }
        lemma_deliver_from_resolves(reports, 0, Seq::empty(), regs, cap, k);
        let d = delivered_of(regs[id], subs[i].state);
        if !d.is_empty() {
            lemma_edge_no_redelivery(regs[id], subs[i].state, subs[i].state);
        }
    } else {
        assert forall|j: int| 0 <= j < reports.len() implies reports[j].id != id by {
            assert(report_sourced(subs, 0, reports[j]));
            let m = choose|m: int|
                #![auto]
                0 <= m < subs.len() && reportable(subs[m]) && reports[j] == (RawReport {
                    id: subs[m].id,
                    readiness: subs[m].state,
                });
            if subs[m].id == id {
                if m != i {
                    assert(false);
                }
            }
        }
        lemma_deliver_from_untouched(reports, 0, Seq::empty(), regs, cap, id);
        assert(subs[i].state.intersect(subs[i].raw_interest.with_hup_err()).is_empty());
    }
}

/// An edge-triggered condition left asserted is reported at most once: a
/// wait with room for every report, followed at once by a second wait with
/// no readiness fed in between, delivers no event at all under the token
/// of an edge-triggered or oneshot registration, when no other live
/// registration shares that token.
pub proof fn lemma_edge_second_wait_silent(
    subs: Seq<Subscription>,
    regs: Map<u64, Registration>,
    cap: nat,
    i: int,
    t: Token,
)
    requires
        ids_unique(subs),
        0 <= i < subs.len(),
        regs.contains_key(subs[i].id),
        regs[subs[i].id].interest == subs[i].raw_interest,
        regs[subs[i].id].trigger == TriggerMode::Edge || regs[subs[i].id].trigger
            == TriggerMode::Oneshot,
        regs[subs[i].id].token == t,
        forall|id2: u64|
            #![auto]
            regs.contains_key(id2) && id2 != subs[i].id ==> regs[id2].token != t,
        spec_reports(subs).len() <= cap,
    ensures
        ({
            let regs1 = spec_wait(subs, regs, cap).1;
            forall|k: int|
                #![auto]
                0 <= k < spec_wait(subs, regs1, cap).0.len() ==> spec_wait(
                    subs,
                    regs1,
                    cap,
                ).0[k].token != t
        }),
{
    let id = subs[i].id;
    let reports = spec_reports(subs);
    let regs1 = spec_wait(subs, regs, cap).1;
    let out2 = spec_wait(subs, regs1, cap);
    lemma_edge_wait_saturates(subs, regs, cap, i);
    lemma_wait_sound(subs, regs, cap);
    lemma_reports_sources(subs, 0);
    lemma_reports_ids_unique(subs, 0);
    lemma_deliver_from_provenance(reports, 0, Seq::empty(), regs1, cap);
    assert forall|k: int| #![auto] 0 <= k < out2.0.len() implies out2.0[k].token != t by {
        assert(!out2.0[k].readiness.is_empty());
        let m = choose|m: int|
            #![auto]
            0 <= m < reports.len() && regs1.contains_key(reports[m].id) && out2.0[k] == (Event {
                token: regs1[reports[m].id].token,
                readiness: delivered_of(regs1[reports[m].id], reports[m].readiness),
            });
        if reports[m].id == id {
            assert(report_sourced(subs, 0, reports[m]));
            let src = choose|src: int|
                #![auto]
                0 <= src < subs.len() && reportable(subs[src]) && reports[m] == (RawReport {
                    id: subs[src].id,
                    readiness: subs[src].state,
                });
            if src != i {
                assert(false);
            }
            assert(reports[m].readiness == subs[i].state);
            assert(out2.0[k].readiness.is_empty());
        } else {
            assert(regs.contains_key(reports[m].id));
            assert(regs1[reports[m].id].token == regs[reports[m].id].token);
            assert(regs[reports[m].id].token != t);
        }
    }
}

/// A level-triggered registration whose condition holds is reported on
/// every wait with room for all reports: the events contain its token with
/// exactly the asserted flags of interest, and the wait leaves the
/// registration live, armed, and with the same token, interest set and
/// trigger mode — so as long as the raw state and the registration stay,
/// every following wait reports it again.
pub proof fn lemma_level_condition_redelivered(
    subs: Seq<Subscription>,
    regs: Map<u64, Registration>,
    cap: nat,
    i: int,
) -> (m: int)
    requires
        ids_unique(subs),
        0 <= i < subs.len(),
        regs.contains_key(subs[i].id),
        regs[subs[i].id].interest == subs[i].raw_interest,
        regs[subs[i].id].trigger == TriggerMode::Level,
        regs[subs[i].id].active,
        !subs[i].state.intersect(regs[subs[i].id].interest.with_hup_err()).is_empty(),
        spec_reports(subs).len() <= cap,
    ensures
        ({
            let out = spec_wait(subs, regs, cap);
            &&& 0 <= m < out.0.len()
            &&& out.0[m] == (Event {
                token: regs[subs[i].id].token,
                readiness: subs[i].state.intersect(regs[subs[i].id].interest.with_hup_err()),
            })
            &&& out.1.contains_key(subs[i].id)
            &&& out.1[subs[i].id].token == regs[subs[i].id].token
            &&& out.1[subs[i].id].interest == regs[subs[i].id].interest
            &&& out.1[subs[i].id].trigger == regs[subs[i].id].trigger
            &&& out.1[subs[i].id].active
        }),
{
    let id = subs[i].id;
    let reports = spec_reports(subs);
    assert(reportable(subs[i]));
    let k = lemma_reports_first(subs, 0, i);
    assert(delivered_of(regs[id], reports[k].readiness) == subs[i].state.intersect(
        regs[id].interest.with_hup_err(),
    ));
    lemma_wait_sound(subs, regs, cap);
    lemma_deliver_from_delivers(reports, 0, Seq::empty(), regs, cap, k)
}

} // verus!
