//! The delivery rules of the engine, one scenario per policy: validation,
//! edge and oneshot re-delivery, level persistence, reregister switching,
//! deregister silencing, capacity truncation, and the value types.

use readiness::errors::PollError;
use readiness::event::{Events, Token};
use readiness::interest::{Interest, TriggerMode};
use readiness::poll::Poll;

fn rw() -> Interest {
    Interest::readable().union(Interest::writable())
}

#[test]
fn register_hangup_only_is_invalid_interest() {
    let mut poll = Poll::new().unwrap();
    let r = poll.register(3, Token(9), Interest::hangup(), TriggerMode::Edge);
    assert_eq!(r, Err(PollError::InvalidInterest));
    // error-only interest is rejected the same way, for any resource and token
    let r2 = poll.register(4, Token(0), Interest::error(), TriggerMode::Level);
    assert_eq!(r2, Err(PollError::InvalidInterest));
    // nothing was registered by the rejected calls
    assert_eq!(poll.registered_count(), 0);
}

#[test]
fn double_register_is_already_registered() {
    let mut poll = Poll::new().unwrap();
    poll.register(5, Token(1), Interest::readable(), TriggerMode::Level).unwrap();
    let r = poll.register(5, Token(2), Interest::writable(), TriggerMode::Edge);
    assert_eq!(r, Err(PollError::AlreadyRegistered));
    assert_eq!(poll.registered_count(), 1);
}

#[test]
fn reregister_or_deregister_absent_is_not_found() {
    let mut poll = Poll::new().unwrap();
    let r = poll.reregister(5, Token(1), Interest::readable(), TriggerMode::Level);
    assert_eq!(r, Err(PollError::NotFound));
    let r2 = poll.deregister(5);
    assert_eq!(r2, Err(PollError::NotFound));
    // interest validation comes first: an invalid set is reported as such
    // even when the resource is absent
    let r3 = poll.reregister(5, Token(1), Interest::hangup(), TriggerMode::Level);
    assert_eq!(r3, Err(PollError::InvalidInterest));
}

#[test]
fn edge_delivers_once_until_condition_recycles() {
    let mut poll = Poll::new().unwrap();
    let mut events = Events::with_capacity(8);
    poll.register(1, Token(1), Interest::readable(), TriggerMode::Edge).unwrap();

    poll.set_readiness(1, Interest::readable());
    let n = poll.wait(&mut events);
    assert_eq!(n, 1);
    assert_eq!(events.get(0).unwrap().readiness(), Interest::readable());

    // the condition stays asserted and unconsumed: no second delivery
    let n = poll.wait(&mut events);
    assert_eq!(n, 0);
    let n = poll.wait(&mut events);
    assert_eq!(n, 0);

    // the condition is cleared, then re-asserted: it fires again
    poll.set_readiness(1, Interest::none());
    poll.set_readiness(1, Interest::readable());
    let n = poll.wait(&mut events);
    assert_eq!(n, 1);
    assert_eq!(events.get(0).unwrap().token(), Token(1));
}

#[test]
fn level_delivers_on_every_wait_while_condition_holds() {
    let mut poll = Poll::new().unwrap();
    let mut events = Events::with_capacity(8);
    poll.register(7, Token(3), Interest::readable(), TriggerMode::Level).unwrap();

    poll.set_readiness(7, Interest::readable());
    let mut round: usize = 0;
    while round < 3 {
        let n = poll.wait(&mut events);
        assert_eq!(n, 1);
        let ev = events.get(0).unwrap();
        assert_eq!(ev.token(), Token(3));
        assert_eq!(ev.readiness(), Interest::readable());
        round += 1;
    }

    // resolving the condition ends the deliveries
    poll.set_readiness(7, Interest::none());
    assert_eq!(poll.wait(&mut events), 0);
}

#[test]
fn oneshot_disarms_until_reregistered() {
    let mut poll = Poll::new().unwrap();
    let mut events = Events::with_capacity(8);
    poll.register(2, Token(4), Interest::writable(), TriggerMode::Oneshot).unwrap();

    poll.set_readiness(2, Interest::writable());
    assert_eq!(poll.wait(&mut events), 1);
    assert_eq!(events.get(0).unwrap().readiness(), Interest::writable());

    // disarmed: even a fresh transition is not delivered
    poll.set_readiness(2, Interest::none());
    poll.set_readiness(2, Interest::writable());
    assert_eq!(poll.wait(&mut events), 0);

    // reregister rearms it
    poll.reregister(2, Token(4), Interest::writable(), TriggerMode::Oneshot).unwrap();
    assert_eq!(poll.wait(&mut events), 1);
    assert_eq!(poll.wait(&mut events), 0);
}

#[test]
fn reregister_switches_the_reported_conditions() {
    let mut poll = Poll::new().unwrap();
    let mut events = Events::with_capacity(8);
    poll.register(6, Token(5), Interest::readable(), TriggerMode::Level).unwrap();

    // the resource is both readable and writable throughout
    poll.set_readiness(6, rw());
    assert_eq!(poll.wait(&mut events), 1);
    assert_eq!(events.get(0).unwrap().readiness(), Interest::readable());

    poll.reregister(6, Token(5), Interest::writable(), TriggerMode::Level).unwrap();
    assert_eq!(poll.wait(&mut events), 1);
    // only the new interest set is reported, never the old one
    assert_eq!(events.get(0).unwrap().readiness(), Interest::writable());
}

#[test]
fn deregistered_resource_is_silent() {
    let mut poll = Poll::new().unwrap();
    let mut events = Events::with_capacity(8);
    poll.register(9, Token(6), Interest::readable(), TriggerMode::Level).unwrap();
    poll.set_readiness(9, Interest::readable());
    assert_eq!(poll.wait(&mut events), 1);

    poll.deregister(9).unwrap();
    // the raw condition persists at the OS level, yet no event carries
    // the dead token any more
    assert_eq!(poll.wait(&mut events), 0);
    assert!(events.is_empty());
    assert_eq!(poll.deregister(9), Err(PollError::NotFound));
}

#[test]
fn hangup_and_error_are_reported_unrequested() {
    let mut poll = Poll::new().unwrap();
    let mut events = Events::with_capacity(8);
    poll.register(8, Token(7), Interest::readable(), TriggerMode::Level).unwrap();

    poll.set_readiness(8, Interest::hangup().union(Interest::error()));
    assert_eq!(poll.wait(&mut events), 1);
    let ev = events.get(0).unwrap();
    assert!(ev.readiness().is_hangup());
    assert!(ev.readiness().is_error());
    assert!(!ev.readiness().is_readable());
}

#[test]
fn full_buffer_keeps_edge_notifications_pending() {
    let mut poll = Poll::new().unwrap();
    let mut events = Events::with_capacity(1);
    poll.register(1, Token(1), Interest::readable(), TriggerMode::Edge).unwrap();
    poll.register(2, Token(2), Interest::readable(), TriggerMode::Edge).unwrap();
    poll.set_readiness(1, Interest::readable());
    poll.set_readiness(2, Interest::readable());

    // one slot: the first subscription is delivered, the second stays pending
    assert_eq!(poll.wait(&mut events), 1);
    assert_eq!(events.get(0).unwrap().token(), Token(1));

    // the pending edge notification was not lost
    assert_eq!(poll.wait(&mut events), 1);
    assert_eq!(events.get(0).unwrap().token(), Token(2));

    assert_eq!(poll.wait(&mut events), 0);
}

#[test]
fn set_readiness_reports_whether_registered() {
    let mut poll = Poll::new().unwrap();
    assert!(!poll.set_readiness(1, Interest::readable()));
    poll.register(1, Token(1), Interest::readable(), TriggerMode::Level).unwrap();
    assert!(poll.set_readiness(1, Interest::readable()));
}

#[test]
fn events_buffer_is_cleared_and_bounded() {
    let mut poll = Poll::new().unwrap();
    let mut events = Events::with_capacity(4);
    assert_eq!(events.capacity(), 4);
    assert_eq!(events.len(), 0);
    assert!(events.is_empty());
    assert!(events.get(0).is_none());

    poll.register(1, Token(1), Interest::readable(), TriggerMode::Level).unwrap();
    poll.set_readiness(1, Interest::readable());
    let n = poll.wait(&mut events);
    assert_eq!(n, events.len());
    assert_eq!(n, 1);
    assert!(events.get(1).is_none());

    // the batch is also available whole, in delivery order
    let batch = events.as_slice();
    assert_eq!(batch.len(), 1);
    assert_eq!(batch[0].token(), Token(1));

    // the next wait refills from scratch
    poll.set_readiness(1, Interest::none());
    assert_eq!(poll.wait(&mut events), 0);
    assert!(events.is_empty());
    assert!(events.as_slice().is_empty());
}

#[test]
fn interest_set_algebra() {
    let r = Interest::readable();
    let w = Interest::writable();
    let both = r.union(w);
    assert!(both.is_readable() && both.is_writable());
    assert!(!both.is_hangup() && !both.is_error());

    assert_eq!(both.intersect(r), r);
    assert_eq!(both.difference(r), w);
    assert_eq!(r.intersect(w), Interest::none());
    assert!(Interest::none().is_empty());
    assert!(!r.is_empty());

    assert!(both.contains(r));
    assert!(!r.contains(both));

    let he = Interest::none().with_hup_err();
    assert!(he.is_hangup() && he.is_error() && !he.is_readable());

    assert!(r.has_rw());
    assert!(w.has_rw());
    assert!(!Interest::hangup().union(Interest::error()).has_rw());
}

#[test]
fn error_kinds_describe_themselves() {
    assert_eq!(
        PollError::InvalidInterest.describe(),
        "interest set lacks readable and writable"
    );
    assert_eq!(PollError::AlreadyRegistered.describe(), "resource is already registered");
    assert_eq!(PollError::NotFound.describe(), "resource has no live registration");
}
