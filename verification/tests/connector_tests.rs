use kayrx::connect::{Connect, Key};
use kayrx::connector::{
    default_alpn_protocols, is_tls_scheme, negotiated_protocol, Connector, InnerConnector,
    TlsClientConfig,
};
use kayrx::pool::{Checkout, Connection, Protocol, ReleaseAction};
use kayrx::poll::Poll;
use kayrx::responder::Either;
use kayrx::time::Duration;

fn request(scheme: &[u8], host: &[u8], port: u16) -> Connect {
    Connect {
        authority: Key { scheme: scheme.to_vec(), host: host.to_vec(), port },
        addr: None,
    }
}

fn finished() -> InnerConnector {
    Connector::new().finish()
}

#[test]
fn alpn_h2_pair_negotiates_http2() {
    assert_eq!(negotiated_protocol(&Some(b"h2".to_vec())), Protocol::Http2);
    // "h2" as a contiguous pair anywhere in the advertised list counts.
    assert_eq!(
        negotiated_protocol(&Some(b"\x02h2\x08http/1.1".to_vec())),
        Protocol::Http2
    );
    assert_eq!(negotiated_protocol(&Some(b"xh2y".to_vec())), Protocol::Http2);
}

#[test]
fn alpn_without_h2_negotiates_http1() {
    assert_eq!(negotiated_protocol(&None), Protocol::Http1);
    assert_eq!(negotiated_protocol(&Some(Vec::new())), Protocol::Http1);
    assert_eq!(negotiated_protocol(&Some(b"http/1.1".to_vec())), Protocol::Http1);
    // 'h' and '2' present but never adjacent.
    assert_eq!(negotiated_protocol(&Some(b"h:2".to_vec())), Protocol::Http1);
    assert_eq!(negotiated_protocol(&Some(b"2h".to_vec())), Protocol::Http1);
    assert_eq!(negotiated_protocol(&Some(b"h".to_vec())), Protocol::Http1);
}

#[test]
fn tls_schemes() {
    assert!(is_tls_scheme(&b"https".to_vec()));
    assert!(is_tls_scheme(&b"wss".to_vec()));
    assert!(!is_tls_scheme(&b"http".to_vec()));
    assert!(!is_tls_scheme(&b"ws".to_vec()));
    assert!(!is_tls_scheme(&b"ftp".to_vec()));
    assert!(!is_tls_scheme(&b"".to_vec()));
}

#[test]
fn scheme_dispatch() {
    let mut inner = finished();
    assert!(matches!(
        inner.call(&request(b"https", b"example.com", 443), 0),
        Either::B(Checkout::Establish)
    ));
    assert!(matches!(
        inner.call(&request(b"wss", b"example.com", 443), 0),
        Either::B(Checkout::Establish)
    ));
    assert!(matches!(
        inner.call(&request(b"http", b"example.com", 80), 0),
        Either::A(Checkout::Establish)
    ));
    assert!(matches!(
        inner.call(&request(b"ftp", b"example.com", 21), 0),
        Either::A(Checkout::Establish)
    ));
}

#[test]
fn dispatcher_pools_are_independent() {
    let mut inner = Connector::new().limit(1).finish();
    let req = request(b"https", b"example.com", 443);
    assert!(matches!(inner.call(&req, 0), Either::B(Checkout::Establish)));
    // The TLS pool for this authority is exhausted; the plain pool for
    // the same host is not consulted and stays ready.
    assert!(matches!(inner.call(&req, 0), Either::B(Checkout::Pending)));
    assert!(matches!(inner.poll_ready(&req, 0), Poll::Pending));
    let plain = request(b"http", b"example.com", 443);
    assert!(matches!(inner.poll_ready(&plain, 0), Poll::Ready(())));
    assert!(matches!(inner.call(&plain, 0), Either::A(Checkout::Establish)));
}

#[test]
fn dispatch_reuses_on_the_taken_path() {
    let mut inner = finished();
    let req = request(b"https", b"example.com", 443);
    assert!(matches!(inner.call(&req, 0), Either::B(Checkout::Establish)));
    let conn = Connection {
        authority: req.authority.duplicate(),
        conn_id: 11,
        protocol: Protocol::Http2,
        created: 0,
    };
    assert!(matches!(
        inner.ssl_pool.release(conn, 100, true),
        ReleaseAction::Pooled
    ));
    match inner.call(&req, 5_000) {
        Either::B(Checkout::Reuse(c)) => {
            assert_eq!(c.conn_id, 11);
            assert_eq!(c.protocol, Protocol::Http2);
        }
        _ => panic!("expected reuse through the TLS path"),
    }
}

#[test]
fn builder_defaults() {
    let c = Connector::new();
    assert_eq!(c.timeout.secs(), 1);
    assert_eq!(c.conn_lifetime.secs(), 75);
    assert_eq!(c.conn_keep_alive.secs(), 15);
    assert_eq!(c.disconnect_timeout.secs(), 3);
    assert_eq!(c.limit, 100);
    assert_eq!(c.ssl.alpn_protocols.len(), 2);
    assert_eq!(c.ssl.alpn_protocols[0], b"h2".to_vec());
    assert_eq!(c.ssl.alpn_protocols[1], b"http/1.1".to_vec());
}

#[test]
fn builder_overrides() {
    let mut cfg = TlsClientConfig::new();
    cfg.set_protocols(vec![b"http/1.1".to_vec()]);
    let c = Connector::new()
        .timeout(Duration::from_secs(5))
        .limit(3)
        .conn_keep_alive(Duration::from_secs(30))
        .conn_lifetime(Duration::from_secs(120))
        .disconnect_timeout(Duration::from_millis(500))
        .rustls(cfg);
    assert_eq!(c.timeout.secs(), 5);
    assert_eq!(c.limit, 3);
    assert_eq!(c.conn_keep_alive.secs(), 30);
    assert_eq!(c.conn_lifetime.secs(), 120);
    assert_eq!(c.disconnect_timeout.secs(), 0);
    assert_eq!(c.disconnect_timeout.subsec_nanos(), 500_000_000);
    assert_eq!(c.ssl.alpn_protocols, vec![b"http/1.1".to_vec()]);
    let inner = c.finish();
    assert_eq!(inner.timeout.timeout().secs(), 5);
    assert_eq!(inner.alpn_protocols, vec![b"http/1.1".to_vec()]);
}

#[test]
fn finished_connector_enforces_configured_limit() {
    let mut inner = Connector::new().limit(2).finish();
    let req = request(b"http", b"example.com", 80);
    assert!(matches!(inner.call(&req, 0), Either::A(Checkout::Establish)));
    assert!(matches!(inner.call(&req, 0), Either::A(Checkout::Establish)));
    assert!(matches!(inner.call(&req, 0), Either::A(Checkout::Pending)));
}

#[test]
fn finished_connector_disconnect_deadline_is_tls_only() {
    let mut inner = finished();
    let tls = request(b"https", b"example.com", 443);
    let plain = request(b"http", b"example.com", 80);
    assert!(matches!(inner.call(&tls, 0), Either::B(Checkout::Establish)));
    assert!(matches!(inner.call(&plain, 0), Either::A(Checkout::Establish)));
    let tls_conn = Connection {
        authority: tls.authority.duplicate(),
        conn_id: 1,
        protocol: Protocol::Http2,
        created: 0,
    };
    let plain_conn = Connection {
        authority: plain.authority.duplicate(),
        conn_id: 2,
        protocol: Protocol::Http1,
        created: 0,
    };
    // Default disconnect deadline: 3000 ms, TLS only.
    assert!(matches!(
        inner.ssl_pool.release(tls_conn, 50, false),
        ReleaseAction::CloseWithDeadline(3_050)
    ));
    assert!(matches!(
        inner.tcp_pool.release(plain_conn, 50, false),
        ReleaseAction::Close
    ));
}

#[test]
fn default_alpn_list() {
    let protos = default_alpn_protocols();
    assert_eq!(protos, vec![b"h2".to_vec(), b"http/1.1".to_vec()]);
}
