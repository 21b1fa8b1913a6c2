//! Connect requests and their errors.
//!
//! A request names a destination by its authority — scheme, host and
//! port — and may carry a pre-resolved address. The authority is the key
//! the connection pool caches under.

use vstd::prelude::*;

verus! {

/// The scheme + host + port identifying a pooling destination.
#[derive(Debug)]
pub struct Key {
    pub scheme: Vec<u8>,
    pub host: Vec<u8>,
    pub port: u16,
}

/// What a `Key` denotes: the authority as plain sequences.
#[verifier::ext_equal]
pub struct KeyView {
    pub scheme: Seq<u8>,
    pub host: Seq<u8>,
    pub port: u16,
}

impl View for Key {
    type V = KeyView;

    open spec fn view(&self) -> KeyView {
        KeyView { scheme: self.scheme@, host: self.host@, port: self.port }
    }
}

/// An owned copy of a byte vector.
pub fn copy_bytes(v: &Vec<u8>) -> (r: Vec<u8>)
    ensures
        r@ == v@,
{
    let mut r: Vec<u8> = Vec::new();
    let n = v.len();
    let mut i: usize = 0;
    while i < n
        invariant
            n == v.len(),
            i <= n,
            r@ == v@.take(i as int),
        decreases n - i,
    {
        r.push(v[i]);
        proof {
            assert(v@.take(i + 1) =~= v@.take(i as int).push(v@[i as int]));
        }
        i = i + 1;
    }
    proof {
        assert(v@.take(n as int) =~= v@);
    }
    r
}

/// Whether two byte vectors hold the same bytes.
pub fn bytes_eq(a: &Vec<u8>, b: &Vec<u8>) -> (r: bool)
    ensures
        r == (a@ == b@),
{
    if a.len() != b.len() {
        proof {
            assert(a@.len() != b@.len());
        }
        return false;
    }
    let n = a.len();
    let mut i: usize = 0;
    while i < n
        invariant
            n == a.len(),
            n == b.len(),
            i <= n,
            forall|j: int| 0 <= j < i ==> a@[j] == b@[j],
        decreases n - i,
    {
        if a[i] != b[i] {
            return false;
        }
        i = i + 1;
    }
    proof {
        assert(a@ =~= b@);
    }
    true
}

impl Key {
    /// An owned copy of this key, denoting the same authority.
    pub fn duplicate(&self) -> (k: Key)
        ensures
            k@ == self@,
    {
        let k = Key {
            scheme: copy_bytes(&self.scheme),
            host: copy_bytes(&self.host),
            port: self.port,
        };
        proof {
            assert(k@ =~= self@);
        }
        k
    }

    /// Whether two keys name the same authority.
    pub fn same_authority(&self, other: &Key) -> (r: bool)
        ensures
            r == (self@ == other@),
    {
        let r = self.port == other.port
            && bytes_eq(&self.scheme, &other.scheme)
            && bytes_eq(&self.host, &other.host);
        proof {
            if r {
                assert(self@ =~= other@);
            }
        }
        r
    }
}

/// A connect request: the destination authority, and optionally a
/// pre-resolved socket address carried through to the transport.
#[derive(Debug)]
pub struct Connect {
    pub authority: Key,
    pub addr: Option<Vec<u8>>,
}

/// The errors the connectivity core surfaces.
///
/// Pool-capacity exhaustion is deliberately not among them: it is
/// backpressure, reported as "pending" by readiness, never as an error.
#[derive(Debug)]
pub enum ConnectError {
    /// The connect deadline elapsed before the transport resolved.
    Timeout,
    /// The destination could not be resolved to an address.
    Resolve(String),
    /// The transport failed to connect or died under the request.
    Io(String),
    /// The TLS handshake failed.
    TlsHandshake(String),
    /// The peer disconnected.
    Disconnected,
}

impl ConnectError {
    /// Whether this is the deadline error.
    pub fn is_timeout(&self) -> (r: bool)
        ensures
            r == (self is Timeout),
    {
        match self {
            ConnectError::Timeout => true,
            _ => false,
        }
    }
}

} // verus!
