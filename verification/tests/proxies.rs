use pxx::proxy::{
    connection, connection_start, proxy, proxy_start, Connection, ConnectionAction,
    ConnectionEvent, Proxy, ProxyAction, ProxyEvent, Scheme, PIPE_BUSY,
};

const BUSY: ConnectionEvent = ConnectionEvent::DialFailed { code: Some(231) };

#[test]
fn proxy_binds_then_accepts_for_ever() {
    for scheme in [Scheme::Tcp, Scheme::Unix] {
        let (state, action) = proxy_start();
        assert_eq!((state, action), (Proxy::Binding, ProxyAction::Bind));
        let (state, action) = proxy(state, ProxyEvent::Bound, scheme);
        assert_eq!((state, action), (Proxy::Accepting, ProxyAction::Accept));
        let mut state = state;
        for _ in 0..5 {
            let (next, action) = proxy(state, ProxyEvent::Accepted, scheme);
            assert_eq!((next, action), (Proxy::HandingOver, ProxyAction::Relay));
            let (next, action) = proxy(next, ProxyEvent::Relayed, scheme);
            assert_eq!((next, action), (Proxy::Accepting, ProxyAction::Accept));
            state = next;
        }
    }
}

#[test]
fn proxy_replaces_a_named_pipe_before_handing_the_connection_on() {
    let (state, _) = proxy_start();
    let (state, action) = proxy(state, ProxyEvent::Bound, Scheme::Pipe);
    assert_eq!((state, action), (Proxy::Accepting, ProxyAction::Accept));
    let (state, action) = proxy(state, ProxyEvent::Accepted, Scheme::Pipe);
    assert_eq!((state, action), (Proxy::Replacing, ProxyAction::Replace));
    let (state, action) = proxy(state, ProxyEvent::Replaced, Scheme::Pipe);
    assert_eq!((state, action), (Proxy::HandingOver, ProxyAction::Relay));
    let (state, action) = proxy(state, ProxyEvent::Relayed, Scheme::Pipe);
    assert_eq!((state, action), (Proxy::Accepting, ProxyAction::Accept));
    let (state, action) = proxy(state, ProxyEvent::Accepted, Scheme::Pipe);
    assert_eq!((state, action), (Proxy::Replacing, ProxyAction::Replace));
    assert_eq!(
        proxy(state, ProxyEvent::ReplaceFailed, Scheme::Pipe),
        (Proxy::Stopped, ProxyAction::Stop)
    );
}

#[test]
fn proxy_that_cannot_bind_ends_the_program() {
    for scheme in [Scheme::Tcp, Scheme::Unix, Scheme::Pipe] {
        let (state, action) = proxy(Proxy::Binding, ProxyEvent::BindFailed, scheme);
        assert_eq!((state, action), (Proxy::Failed, ProxyAction::Abort));
        assert_eq!(proxy(state, ProxyEvent::Bound, scheme), (Proxy::Failed, ProxyAction::Abort));
    }
}

#[test]
fn proxy_stops_when_accepting_fails() {
    let (state, action) = proxy(Proxy::Accepting, ProxyEvent::AcceptFailed, Scheme::Tcp);
    assert_eq!((state, action), (Proxy::Stopped, ProxyAction::Stop));
    assert_eq!(proxy(state, ProxyEvent::Accepted, Scheme::Tcp), (Proxy::Stopped, ProxyAction::Stop));
    assert_eq!(proxy(state, ProxyEvent::Bound, Scheme::Tcp), (Proxy::Stopped, ProxyAction::Stop));
}

#[test]
fn proxy_ignores_what_it_did_not_wait_for() {
    assert_eq!(
        proxy(Proxy::Binding, ProxyEvent::Accepted, Scheme::Tcp),
        (Proxy::Binding, ProxyAction::Bind)
    );
    assert_eq!(
        proxy(Proxy::Accepting, ProxyEvent::Bound, Scheme::Tcp),
        (Proxy::Accepting, ProxyAction::Accept)
    );
    assert_eq!(
        proxy(Proxy::Accepting, ProxyEvent::Replaced, Scheme::Pipe),
        (Proxy::Accepting, ProxyAction::Accept)
    );
    assert_eq!(
        proxy(Proxy::Replacing, ProxyEvent::Accepted, Scheme::Pipe),
        (Proxy::Replacing, ProxyAction::Replace)
    );
    assert_eq!(
        proxy(Proxy::HandingOver, ProxyEvent::Accepted, Scheme::Tcp),
        (Proxy::HandingOver, ProxyAction::Relay)
    );
}

#[test]
fn connection_dials_relays_and_closes() {
    for scheme in [Scheme::Tcp, Scheme::Unix, Scheme::Pipe] {
        let (state, action) = connection_start();
        assert_eq!((state, action), (Connection::Dialing { wait: 0 }, ConnectionAction::Dial));
        let (state, action) = connection(state, ConnectionEvent::Connected, scheme);
        assert_eq!((state, action), (Connection::Relaying, ConnectionAction::Relay));
        assert_eq!(
            connection(state, ConnectionEvent::RelayEnded, scheme),
            (Connection::Closed, ConnectionAction::Close)
        );
        assert_eq!(
            connection(state, ConnectionEvent::RelayFailed, scheme),
            (Connection::Closed, ConnectionAction::Close)
        );
        assert_eq!(
            connection(Connection::Closed, ConnectionEvent::Connected, scheme),
            (Connection::Closed, ConnectionAction::Close)
        );
    }
}

#[test]
fn busy_pipe_is_dialled_again_with_growing_pauses() {
    assert_eq!(PIPE_BUSY, 231);
    let (mut state, _) = connection_start();
    let mut actions = Vec::new();
    for _ in 0..6 {
        let (next, action) = connection(state, BUSY, Scheme::Pipe);
        actions.push(action);
        state = next;
    }
    assert_eq!(
        actions,
        vec![
            ConnectionAction::YieldThenDial,
            ConnectionAction::SleepThenDial { millis: 1 },
            ConnectionAction::SleepThenDial { millis: 2 },
            ConnectionAction::SleepThenDial { millis: 4 },
            ConnectionAction::SleepThenDial { millis: 8 },
            ConnectionAction::SleepThenDial { millis: 16 },
        ]
    );
    assert_eq!(state, Connection::Dialing { wait: 32 });
    assert_eq!(
        connection(state, ConnectionEvent::Connected, Scheme::Pipe),
        (Connection::Relaying, ConnectionAction::Relay)
    );
}

#[test]
fn busy_pipe_never_gives_up() {
    let (mut state, _) = connection_start();
    for _ in 0..200 {
        let (next, action) = connection(state, BUSY, Scheme::Pipe);
        assert!(matches!(
            action,
            ConnectionAction::YieldThenDial | ConnectionAction::SleepThenDial { .. }
        ));
        assert!(matches!(next, Connection::Dialing { .. }));
        state = next;
    }
    assert_eq!(state, Connection::Dialing { wait: u64::MAX });
    assert_eq!(
        connection(state, BUSY, Scheme::Pipe),
        (Connection::Dialing { wait: u64::MAX }, ConnectionAction::SleepThenDial { millis: u64::MAX })
    );
}

#[test]
fn pause_stops_growing_at_the_largest_number() {
    let half = 1u64 << 63;
    assert_eq!(
        connection(Connection::Dialing { wait: half - 1 }, BUSY, Scheme::Pipe),
        (
            Connection::Dialing { wait: u64::MAX - 1 },
            ConnectionAction::SleepThenDial { millis: half - 1 }
        )
    );
    assert_eq!(
        connection(Connection::Dialing { wait: half }, BUSY, Scheme::Pipe),
        (Connection::Dialing { wait: u64::MAX }, ConnectionAction::SleepThenDial { millis: half })
    );
}

#[test]
fn other_dial_failures_close_the_connection() {
    let refused = ConnectionEvent::DialFailed { code: Some(111) };
    let unknown = ConnectionEvent::DialFailed { code: None };
    for scheme in [Scheme::Tcp, Scheme::Unix, Scheme::Pipe] {
        for event in [refused, unknown] {
            assert_eq!(
                connection(Connection::Dialing { wait: 0 }, event, scheme),
                (Connection::Closed, ConnectionAction::Close)
            );
            assert_eq!(
                connection(Connection::Dialing { wait: 4 }, event, scheme),
                (Connection::Closed, ConnectionAction::Close)
            );
        }
    }
    for scheme in [Scheme::Tcp, Scheme::Unix] {
        assert_eq!(
            connection(Connection::Dialing { wait: 0 }, BUSY, scheme),
            (Connection::Closed, ConnectionAction::Close)
        );
    }
}

#[test]
fn connection_ignores_what_it_did_not_wait_for() {
    assert_eq!(
        connection(Connection::Dialing { wait: 2 }, ConnectionEvent::RelayEnded, Scheme::Tcp),
        (Connection::Dialing { wait: 2 }, ConnectionAction::Dial)
    );
    assert_eq!(
        connection(Connection::Relaying, ConnectionEvent::Connected, Scheme::Tcp),
        (Connection::Relaying, ConnectionAction::Relay)
    );
    assert_eq!(
        connection(Connection::Relaying, BUSY, Scheme::Pipe),
        (Connection::Relaying, ConnectionAction::Relay)
    );
}
