use kayrx::connect::Key;
use kayrx::pool::{Checkout, Connection, ConnectionPool, Protocol, ReleaseAction};
use kayrx::poll::Poll;

fn key(scheme: &[u8], host: &[u8], port: u16) -> Key {
    Key { scheme: scheme.to_vec(), host: host.to_vec(), port }
}

#[test]
fn establish_when_empty() {
    let mut p = ConnectionPool::new(75_000, 15_000, None, 100);
    let k = key(b"http", b"example.com", 80);
    assert!(matches!(p.checkout(&k, 0), Checkout::Establish));
}

#[test]
fn reuse_within_keep_alive() {
    let mut p = ConnectionPool::new(75_000, 15_000, None, 100);
    let k = key(b"http", b"example.com", 80);
    assert!(matches!(p.checkout(&k, 0), Checkout::Establish));
    let conn = Connection {
        authority: k.duplicate(),
        conn_id: 7,
        protocol: Protocol::Http1,
        created: 0,
    };
    assert!(matches!(p.release(conn, 100, true), ReleaseAction::Pooled));
    match p.checkout(&k, 5_000) {
        Checkout::Reuse(c) => {
            assert_eq!(c.conn_id, 7);
            assert_eq!(c.protocol, Protocol::Http1);
            assert_eq!(c.created, 0);
            assert!(c.authority.same_authority(&k));
        }
        _ => panic!("expected the released connection to be reused"),
    }
}

#[test]
fn keep_alive_eviction() {
    let mut p = ConnectionPool::new(75_000, 15_000, None, 100);
    let k = key(b"http", b"example.com", 80);
    assert!(matches!(p.checkout(&k, 0), Checkout::Establish));
    let conn = Connection {
        authority: k.duplicate(),
        conn_id: 7,
        protocol: Protocol::Http1,
        created: 0,
    };
    assert!(matches!(p.release(conn, 100, true), ReleaseAction::Pooled));
    // 15 s of idleness have elapsed: the entry is discarded, a new
    // connection is established instead.
    assert!(matches!(p.checkout(&k, 15_100), Checkout::Establish));
}

#[test]
fn lifetime_eviction() {
    let mut p = ConnectionPool::new(75_000, 15_000, None, 100);
    let k = key(b"http", b"example.com", 80);
    assert!(matches!(p.checkout(&k, 0), Checkout::Establish));
    let conn = Connection {
        authority: k.duplicate(),
        conn_id: 7,
        protocol: Protocol::Http1,
        created: 0,
    };
    // Released recently enough for keep-alive, but the connection is
    // older than the lifetime at the next checkout.
    assert!(matches!(p.release(conn, 70_000, true), ReleaseAction::Pooled));
    assert!(matches!(p.checkout(&k, 75_500), Checkout::Establish));
}

#[test]
fn release_past_lifetime_not_pooled() {
    let mut p = ConnectionPool::new(75_000, 15_000, None, 100);
    let k = key(b"http", b"example.com", 80);
    assert!(matches!(p.checkout(&k, 0), Checkout::Establish));
    let conn = Connection {
        authority: k.duplicate(),
        conn_id: 7,
        protocol: Protocol::Http1,
        created: 0,
    };
    assert!(matches!(p.release(conn, 80_000, true), ReleaseAction::Close));
}

#[test]
fn unhealthy_release_not_pooled() {
    let mut p = ConnectionPool::new(75_000, 15_000, None, 100);
    let k = key(b"http", b"example.com", 80);
    assert!(matches!(p.checkout(&k, 0), Checkout::Establish));
    let conn = Connection {
        authority: k.duplicate(),
        conn_id: 7,
        protocol: Protocol::Http1,
        created: 0,
    };
    assert!(matches!(p.release(conn, 10, false), ReleaseAction::Close));
    assert!(matches!(p.checkout(&k, 20), Checkout::Establish));
}

#[test]
fn limit_enforcement() {
    let mut p = ConnectionPool::new(75_000, 15_000, None, 2);
    let k = key(b"http", b"example.com", 80);
    assert!(matches!(p.checkout(&k, 0), Checkout::Establish));
    assert!(matches!(p.checkout(&k, 0), Checkout::Establish));
    // The third concurrent request is backpressure, not an error.
    assert!(matches!(p.checkout(&k, 0), Checkout::Pending));
    assert!(matches!(p.poll_ready(&k, 0), Poll::Pending));
    let conn = Connection {
        authority: k.duplicate(),
        conn_id: 1,
        protocol: Protocol::Http1,
        created: 0,
    };
    assert!(matches!(p.release(conn, 5, true), ReleaseAction::Pooled));
    assert!(matches!(p.poll_ready(&k, 10), Poll::Ready(())));
    match p.checkout(&k, 10) {
        Checkout::Reuse(c) => assert_eq!(c.conn_id, 1),
        _ => panic!("expected the freed connection to serve the waiter"),
    }
}

#[test]
fn limit_zero_is_unlimited() {
    let mut p = ConnectionPool::new(75_000, 15_000, None, 0);
    let k = key(b"http", b"example.com", 80);
    for _ in 0..500 {
        assert!(matches!(p.checkout(&k, 0), Checkout::Establish));
    }
    assert!(matches!(p.poll_ready(&k, 0), Poll::Ready(())));
}

#[test]
fn abandoned_attempt_leaks_nothing() {
    let mut p = ConnectionPool::new(75_000, 15_000, None, 1);
    let k = key(b"http", b"example.com", 80);
    assert!(matches!(p.checkout(&k, 0), Checkout::Establish));
    assert!(matches!(p.checkout(&k, 0), Checkout::Pending));
    assert!(p.has_checked_out(&k));
    p.abandon(&k);
    // The admission came back: the next request is granted again.
    assert!(matches!(p.checkout(&k, 0), Checkout::Establish));
}

#[test]
fn disconnect_deadline_on_tls_close() {
    let mut p = ConnectionPool::new(75_000, 15_000, Some(3_000), 100);
    let k = key(b"https", b"example.com", 443);
    assert!(matches!(p.checkout(&k, 0), Checkout::Establish));
    let conn = Connection {
        authority: k.duplicate(),
        conn_id: 2,
        protocol: Protocol::Http2,
        created: 0,
    };
    assert!(matches!(
        p.release(conn, 10, false),
        ReleaseAction::CloseWithDeadline(3_010)
    ));
}

#[test]
fn disconnect_deadline_zero_disabled() {
    let mut p = ConnectionPool::new(75_000, 15_000, Some(0), 100);
    let k = key(b"https", b"example.com", 443);
    assert!(matches!(p.checkout(&k, 0), Checkout::Establish));
    let conn = Connection {
        authority: k.duplicate(),
        conn_id: 2,
        protocol: Protocol::Http2,
        created: 0,
    };
    assert!(matches!(p.release(conn, 10, false), ReleaseAction::Close));
}

#[test]
fn authorities_are_independent() {
    let mut p = ConnectionPool::new(75_000, 15_000, None, 1);
    let a = key(b"http", b"one.example", 80);
    let b = key(b"http", b"two.example", 80);
    assert!(matches!(p.checkout(&a, 0), Checkout::Establish));
    // The limit binds per authority: the other one is untouched.
    assert!(matches!(p.checkout(&b, 0), Checkout::Establish));
    assert!(matches!(p.checkout(&a, 0), Checkout::Pending));
}

#[test]
fn key_equality_is_by_authority() {
    let a = key(b"http", b"example.com", 80);
    let b = key(b"http", b"example.com", 80);
    let c = key(b"http", b"example.com", 8080);
    let d = key(b"https", b"example.com", 80);
    assert!(a.same_authority(&b));
    assert!(!a.same_authority(&c));
    assert!(!a.same_authority(&d));
    assert!(a.duplicate().same_authority(&a));
}
