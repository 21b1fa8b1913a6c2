//! The connector: builder-style configuration of the connectivity core,
//! ALPN protocol negotiation, and the protocol dispatcher that routes
//! each request to the plain or the TLS path.

use vstd::prelude::*;
use crate::connect::Connect;
use crate::poll::Poll;
use crate::pool::{
    spec_checkout, spec_checkout_matches, spec_ready, Checkout, ConnectionPool, Protocol,
};
use crate::responder::Either;
use crate::time::{ms, Duration, Round};
use crate::timeout::TimeoutService;

verus! {

/// The bytes of the ALPN token for HTTP/2.
pub open spec fn spec_h2() -> Seq<u8> {
    seq![104u8, 50u8]
}

/// The bytes of the ALPN token for HTTP/1.1.
pub open spec fn spec_http11() -> Seq<u8> {
    seq![104u8, 116u8, 116u8, 112u8, 47u8, 49u8, 46u8, 49u8]
}

/// The bytes of the scheme `https`.
pub open spec fn spec_https() -> Seq<u8> {
    seq![104u8, 116u8, 116u8, 112u8, 115u8]
}

/// The bytes of the scheme `wss`.
pub open spec fn spec_wss() -> Seq<u8> {
    seq![119u8, 115u8, 115u8]
}

/// Whether the bytes hold `h2` as a contiguous pair anywhere.
pub open spec fn spec_has_h2(s: Seq<u8>) -> bool {
    exists|i: int| 0 <= i && i + 1 < s.len() && (#[trigger] s[i]) == 104u8 && s[i + 1] == 50u8
}

/// The protocol an advertised ALPN byte list negotiates: HTTP/2 exactly
/// when the list holds the two bytes `h2` as a contiguous pair anywhere;
/// HTTP/1.1 otherwise, and when nothing was negotiated.
pub fn negotiated_protocol(protos: &Option<Vec<u8>>) -> (p: Protocol)
    ensures
        match *protos {
            Some(v) => p == (if spec_has_h2(v@) {
                Protocol::Http2
            } else {
                Protocol::Http1
            }),
            None => p == Protocol::Http1,
        },
{
    match protos {
        None => Protocol::Http1,
        Some(v) => {
            if v.len() < 2 {
                return Protocol::Http1;
            }
            let n = v.len();
            let mut i: usize = 0;
            while i + 1 < n
                invariant
                    *protos == Some(*v),
                    n == v.len(),
                    i + 1 <= n,
                    forall|j: int| 0 <= j < i ==> !((#[trigger] v@[j]) == 104u8 && v@[j + 1] == 50u8),
                decreases n - i,
            {
                if v[i] == 104 && v[i + 1] == 50 {
                    proof {
                        assert(spec_has_h2(v@)) by {
                            assert(0 <= i as int && i as int + 1 < v@.len()
                                && v@[i as int] == 104u8 && v@[i as int + 1] == 50u8);
                        }
                    }
                    return Protocol::Http2;
                }
                i = i + 1;
            }
            proof {
                assert(!spec_has_h2(v@));
            }
            Protocol::Http1
        }
    }
}

/// Whether a scheme selects the TLS path: `https` and `wss` do, nothing
/// else does.
pub open spec fn spec_is_tls_scheme(s: Seq<u8>) -> bool {
    s == spec_https() || s == spec_wss()
}

/// Whether the scheme bytes select the TLS path.
pub fn is_tls_scheme(s: &Vec<u8>) -> (r: bool)
    ensures
        r == spec_is_tls_scheme(s@),
{
    let https = s.len() == 5
        && s[0] == 104 && s[1] == 116 && s[2] == 116 && s[3] == 112 && s[4] == 115;
    let wss = s.len() == 3 && s[0] == 119 && s[1] == 115 && s[2] == 115;
    proof {
        if https {
            assert(s@ =~= spec_https());
        }
        if wss {
            assert(s@ =~= spec_wss());
        }
        if !https && s@.len() == 5 {
            assert(s@ != spec_https());
        }
        if !wss && s@.len() == 3 {
            assert(s@ != spec_wss());
        }
    }
    https || wss
}

/// TLS client configuration, as far as the connectivity core reads it:
/// the ALPN protocol list advertised during the handshake.
#[derive(Debug)]
pub struct TlsClientConfig {
    pub alpn_protocols: Vec<Vec<u8>>,
}

impl TlsClientConfig {
    /// A configuration advertising nothing.
    pub fn new() -> (c: TlsClientConfig)
        ensures
            c.alpn_protocols@ =~= Seq::<Vec<u8>>::empty(),
    {
        TlsClientConfig { alpn_protocols: Vec::new() }
    }

    /// Replace the advertised ALPN protocol list.
    pub fn set_protocols(&mut self, protos: Vec<Vec<u8>>)
        ensures
            final(self).alpn_protocols@ == protos@,
    {
        self.alpn_protocols = protos;
    }
}

/// The default ALPN protocol list: `h2`, then `http/1.1`.
pub fn default_alpn_protocols() -> (r: Vec<Vec<u8>>)
    ensures
        r@.len() == 2,
        r@[0]@ == spec_h2(),
        r@[1]@ == spec_http11(),
{
    let mut h2: Vec<u8> = Vec::new();
    h2.push(104);
    h2.push(50);
    let mut http11: Vec<u8> = Vec::new();
    http11.push(104);
    http11.push(116);
    http11.push(116);
    http11.push(112);
    http11.push(47);
    http11.push(49);
    http11.push(46);
    http11.push(49);
    let mut r: Vec<Vec<u8>> = Vec::new();
    proof {
        assert(h2@ =~= spec_h2());
        assert(http11@ =~= spec_http11());
    }
    r.push(h2);
    r.push(http11);
    r
}

/// Manages HTTP client network connectivity.
///
/// The `Connector` collects policy through builder-style calls and
/// concludes with `finish`, which yields the protocol dispatcher
/// wrapping the two connection pools.
#[derive(Debug)]
pub struct Connector {
    /// Connect deadline, including name resolution.
    pub timeout: Duration,
    /// Max total age of a pooled connection.
    pub conn_lifetime: Duration,
    /// Max idle period between usages of a pooled connection.
    pub conn_keep_alive: Duration,
    /// Deadline granted to a graceful close of a TLS connection;
    /// zero disables it.
    pub disconnect_timeout: Duration,
    /// Max simultaneous connections per authority; 0 means unlimited.
    pub limit: usize,
    /// TLS client configuration for the TLS path.
    pub ssl: TlsClientConfig,
}

impl Connector {
    /// All durations the connector carries are well formed.
    pub open spec fn wf(self) -> bool {
        &&& self.timeout.wf()
        &&& self.conn_lifetime.wf()
        &&& self.conn_keep_alive.wf()
        &&& self.disconnect_timeout.wf()
    }

    /// A connector with the default policy: 1 s connect deadline, 75 s
    /// lifetime, 15 s keep-alive, 3000 ms disconnect deadline, at most
    /// 100 connections per authority, and `h2` + `http/1.1` advertised
    /// over ALPN.
    pub fn new() -> (c: Connector)
        ensures
            c.wf(),
            c.timeout.spec_secs() == 1 && c.timeout.spec_nanos() == 0,
            c.conn_lifetime.spec_secs() == 75 && c.conn_lifetime.spec_nanos() == 0,
            c.conn_keep_alive.spec_secs() == 15 && c.conn_keep_alive.spec_nanos() == 0,
            c.disconnect_timeout.spec_secs() == 3 && c.disconnect_timeout.spec_nanos() == 0,
            c.limit == 100usize,
            c.ssl.alpn_protocols@.len() == 2,
            c.ssl.alpn_protocols@[0]@ == spec_h2(),
            c.ssl.alpn_protocols@[1]@ == spec_http11(),
    {
        Connector {
            timeout: Duration::from_secs(1),
            conn_lifetime: Duration::from_secs(75),
            conn_keep_alive: Duration::from_secs(15),
            disconnect_timeout: Duration::from_millis(3000),
            limit: 100,
            ssl: TlsClientConfig { alpn_protocols: default_alpn_protocols() },
        }
    }

    /// Connection timeout: max time to connect to the remote host,
    /// name resolution included. 1 second by default.
    pub fn timeout(self, timeout: Duration) -> (c: Connector)
        requires
            timeout.wf(),
        ensures
            c == (Connector { timeout, ..self }),
    {
        Connector { timeout, ..self }
    }

    /// Use a custom TLS client configuration.
    pub fn rustls(self, connector: TlsClientConfig) -> (c: Connector)
        ensures
            c == (Connector { ssl: connector, ..self }),
    {
        Connector { ssl: connector, ..self }
    }

    /// Total number of simultaneous connections per authority.
    ///
    /// A limit of 0 means no limit. The default is 100.
    pub fn limit(self, limit: usize) -> (c: Connector)
        ensures
            c == (Connector { limit, ..self }),
    {
        Connector { limit, ..self }
    }

    /// Keep-alive period for an opened connection: the longest idle gap
    /// between usages after which the connection is closed instead of
    /// reused. 15 seconds by default.
    pub fn conn_keep_alive(self, dur: Duration) -> (c: Connector)
        requires
            dur.wf(),
        ensures
            c == (Connector { conn_keep_alive: dur, ..self }),
    {
        Connector { conn_keep_alive: dur, ..self }
    }

    /// Max lifetime of an opened connection: once exceeded it is closed
    /// on its next checkout regardless of keep-alive. 75 seconds by
    /// default.
    pub fn conn_lifetime(self, dur: Duration) -> (c: Connector)
        requires
            dur.wf(),
        ensures
            c == (Connector { conn_lifetime: dur, ..self }),
    {
        Connector { conn_lifetime: dur, ..self }
    }

    /// Deadline for a graceful disconnect: if closing does not complete
    /// within it, the socket is dropped. TLS connections only; zero
    /// disables it. 3000 milliseconds by default.
    pub fn disconnect_timeout(self, dur: Duration) -> (c: Connector)
        requires
            dur.wf(),
        ensures
            c == (Connector { disconnect_timeout: dur, ..self }),
    {
        Connector { disconnect_timeout: dur, ..self }
    }

    /// Finish configuration: the protocol dispatcher wrapping one pool
    /// per path, both under this connector's policy. The plain pool gets
    /// no disconnect deadline; the TLS pool gets the configured one.
    pub fn finish(self) -> (r: InnerConnector)
        requires
            self.wf(),
        ensures
            r.wf(),
            r.tcp_pool@.conn_lifetime == crate::time::spec_ms(self.conn_lifetime, Round::Up),
            r.tcp_pool@.conn_keep_alive == crate::time::spec_ms(self.conn_keep_alive, Round::Up),
            r.tcp_pool@.disconnect_timeout is None,
            r.tcp_pool@.limit == self.limit,
            r.tcp_pool@.slots.len() == 0,
            r.ssl_pool@.conn_lifetime == crate::time::spec_ms(self.conn_lifetime, Round::Up),
            r.ssl_pool@.conn_keep_alive == crate::time::spec_ms(self.conn_keep_alive, Round::Up),
            r.ssl_pool@.disconnect_timeout == Some(crate::time::spec_ms(self.disconnect_timeout, Round::Up)),
            r.ssl_pool@.limit == self.limit,
            r.ssl_pool@.slots.len() == 0,
            r.timeout.spec_timeout() == self.timeout,
            r.alpn_protocols@ == self.ssl.alpn_protocols@,
    {
        let conn_lifetime = ms(self.conn_lifetime, Round::Up);
        let conn_keep_alive = ms(self.conn_keep_alive, Round::Up);
        let disconnect_timeout = ms(self.disconnect_timeout, Round::Up);
        InnerConnector {
            tcp_pool: ConnectionPool::new(conn_lifetime, conn_keep_alive, None, self.limit),
            ssl_pool: ConnectionPool::new(
                conn_lifetime,
                conn_keep_alive,
                Some(disconnect_timeout),
                self.limit,
            ),
            timeout: TimeoutService::new(self.timeout),
            alpn_protocols: self.ssl.alpn_protocols,
        }
    }
}

/// The protocol dispatcher: the top-level connect Service. It inspects
/// each request's scheme and routes it to the plain or the TLS pool,
/// unifying the two behind one two-variant result.
pub struct InnerConnector {
    pub tcp_pool: ConnectionPool,
    pub ssl_pool: ConnectionPool,
    /// The connect deadline both paths are raced against.
    pub timeout: TimeoutService,
    /// The ALPN protocol list the TLS path advertises.
    pub alpn_protocols: Vec<Vec<u8>>,
}

impl InnerConnector {
    pub open spec fn wf(self) -> bool {
        &&& self.tcp_pool@.wf()
        &&& self.ssl_pool@.wf()
        &&& self.timeout.wf()
    }

    /// Readiness for a request at `now`: that of the pool the request's
    /// scheme routes to.
    ///
    /// The readiness probe takes the request into account rather than
    /// gating every caller on the plain pool alone: the two pools have
    /// independent capacity, and a request is only held back by the
    /// path it will actually take.
    pub fn poll_ready(&self, req: &Connect, now: u64) -> (r: Poll<()>)
        requires
            self.wf(),
        ensures
            (r is Ready) == (if spec_is_tls_scheme(req.authority.scheme@) {
                spec_ready(self.ssl_pool@, req.authority@, now)
            } else {
                spec_ready(self.tcp_pool@, req.authority@, now)
            }),
    {
        if is_tls_scheme(&req.authority.scheme) {
            self.ssl_pool.poll_ready(&req.authority, now)
        } else {
            self.tcp_pool.poll_ready(&req.authority, now)
        }
    }

    /// Route a request by its scheme and check a connection out of that
    /// path's pool: `https` and `wss` always resolve through the TLS
    /// pool, every other scheme through the plain pool. The untouched
    /// pool is left exactly as it was.
    pub fn call(&mut self, req: &Connect, now: u64) -> (r: Either<Checkout, Checkout>)
        requires
            old(self).wf(),
        ensures
            final(self).wf(),
            final(self).timeout == old(self).timeout,
            final(self).alpn_protocols == old(self).alpn_protocols,
            spec_is_tls_scheme(req.authority.scheme@) ==> {
                &&& r is B
                &&& final(self).tcp_pool@ == old(self).tcp_pool@
                &&& final(self).ssl_pool@ =~~= spec_checkout(old(self).ssl_pool@, req.authority@, now).0
                &&& (r matches Either::B(c) ==> spec_checkout_matches(
                    spec_checkout(old(self).ssl_pool@, req.authority@, now).1, c, req.authority@))
            },
            !spec_is_tls_scheme(req.authority.scheme@) ==> {
                &&& r is A
                &&& final(self).ssl_pool@ == old(self).ssl_pool@
                &&& final(self).tcp_pool@ =~~= spec_checkout(old(self).tcp_pool@, req.authority@, now).0
                &&& (r matches Either::A(c) ==> spec_checkout_matches(
                    spec_checkout(old(self).tcp_pool@, req.authority@, now).1, c, req.authority@))
            },
    {
        if is_tls_scheme(&req.authority.scheme) {
            Either::B(self.ssl_pool.checkout(&req.authority, now))
        } else {
            Either::A(self.tcp_pool.checkout(&req.authority, now))
        }
    }
}

} // verus!
