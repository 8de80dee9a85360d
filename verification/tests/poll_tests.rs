//! The register/reregister/deregister life cycle, driven end to end: a
//! listening resource and a connecting resource, readiness fed into the
//! portable backend as the embedding would observe it.

use readiness::event::{Events, Token};
use readiness::interest::{Interest, TriggerMode};
use readiness::poll::Poll;

#[test]
fn test_register_deregister() {
    let server = Token(0);
    let client = Token(1);

    let mut poll = Poll::new().unwrap();
    let mut events = Events::with_capacity(1024);

    let server_id: u64 = 10;
    let client_id: u64 = 20;

    poll.register(server_id, server, Interest::readable(), TriggerMode::Edge).unwrap();

    poll.register(client_id, client, Interest::readable(), TriggerMode::Level).unwrap();

    // a connect arrives: the listening resource becomes readable
    poll.set_readiness(server_id, Interest::readable());

    let mut state: usize = 0;
    loop {
        poll.wait(&mut events);

        let event = events.get(0).unwrap();

        if event.readiness().is_readable() {
            if event.token() == server {
                // accept the connection and write data into it: the
                // accept drains the listener, the written data makes the
                // connected resource readable (it stays writable too)
                poll.set_readiness(server_id, Interest::none());
                poll.set_readiness(client_id, Interest::readable().union(Interest::writable()));
            } else if event.token() == client {
                assert!(state == 0, "unexpected state {}", state);
                state = 1;
                poll.reregister(client_id, client, Interest::writable(), TriggerMode::Level)
                    .unwrap();
            } else {
                panic!("unexpected token");
            }
        }

        if event.readiness().is_writable() {
            assert!(event.token() == client, "unexpected token");
            assert!(state == 1, "unexpected state {}", state);
            state = 2;
            poll.deregister(client_id).unwrap();
            break;
        }
    }

    assert_eq!(state, 2);

    // the deregistered resource stays raw-ready, yet never surfaces again
    let found = poll.set_readiness(client_id, Interest::readable().union(Interest::writable()));
    assert!(!found);
    let n = poll.wait(&mut events);
    assert_eq!(n, 0);
}

#[test]
fn test_register_with_no_readable_writable_is_error() {
    let mut poll = Poll::new().unwrap();

    let sock_id: u64 = 1;

    assert!(poll.register(sock_id, Token(0), Interest::hangup(), TriggerMode::Edge).is_err());

    poll.register(sock_id, Token(0), Interest::readable(), TriggerMode::Edge).unwrap();

    assert!(poll.reregister(sock_id, Token(0), Interest::hangup(), TriggerMode::Edge).is_err());
}
