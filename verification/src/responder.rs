//! Response overriding: a status code and headers imposed on a response
//! after it resolves, and the two-variant sum type that unifies a pair
//! of alternatives behind one type.

use vstd::prelude::*;
use crate::connect::bytes_eq;

verus! {

/// Combines two alternatives into a single type.
#[derive(Debug, PartialEq)]
pub enum Either<A, B> {
    /// First branch of the type.
    A(A),
    /// Second branch of the type.
    B(B),
}

/// An HTTP status code.
#[derive(Clone, Copy, Debug, PartialEq, Eq, Structural)]
pub struct StatusCode {
    pub code: u16,
}

impl StatusCode {
    /// A status code is three decimal digits.
    pub open spec fn wf(self) -> bool {
        100 <= self.code < 1000
    }

    pub fn new(code: u16) -> (s: StatusCode)
        requires
            100 <= code < 1000,
        ensures
            s.code == code,
            s.wf(),
    {
        StatusCode { code }
    }
}

/// One response header.
#[derive(Debug)]
pub struct HeaderEntry {
    pub name: Vec<u8>,
    pub value: Vec<u8>,
}

/// What a `HeaderEntry` denotes.
#[verifier::ext_equal]
pub struct HeaderEntryView {
    pub name: Seq<u8>,
    pub value: Seq<u8>,
}

impl View for HeaderEntry {
    type V = HeaderEntryView;

    open spec fn view(&self) -> HeaderEntryView {
        HeaderEntryView { name: self.name@, value: self.value@ }
    }
}

/// A response, as far as overriding is concerned: its status and its
/// headers.
#[derive(Debug)]
pub struct Response {
    pub status: StatusCode,
    pub headers: Vec<HeaderEntry>,
}

/// What a `Response` denotes.
#[verifier::ext_equal]
pub struct ResponseView {
    pub status: StatusCode,
    pub headers: Seq<HeaderEntryView>,
}

impl View for Response {
    type V = ResponseView;

    open spec fn view(&self) -> ResponseView {
        ResponseView {
            status: self.status,
            headers: Seq::new(self.headers@.len(), |i: int| self.headers@[i]@),
        }
    }
}

/// The ways an override can be malformed.
#[derive(Clone, Copy, Debug, PartialEq, Eq, Structural)]
pub enum HttpError {
    InvalidHeaderName,
    InvalidHeaderValue,
}

/// The longest header name that is accepted.
pub const MAX_HEADER_NAME_LEN: usize = 65_535;

/// The bytes a header name may hold: the HTTP token characters.
/// Letters of either case, digits, and ``! # $ % & ' * + - . ^ _ ` | ~``;
/// an upper-case letter is folded to lower case when the name is stored.
pub open spec fn spec_header_name_byte(b: u8) -> bool {
    ||| 97 <= b <= 122
    ||| 65 <= b <= 90
    ||| 48 <= b <= 57
    ||| b == 33
    ||| 35 <= b <= 39
    ||| b == 42 || b == 43 || b == 45 || b == 46
    ||| 94 <= b <= 96
    ||| b == 124 || b == 126
}

/// A header name is non-empty, no longer than the longest accepted
/// name, and made of token bytes.
pub open spec fn spec_valid_header_name(s: Seq<u8>) -> bool {
    1 <= s.len() <= MAX_HEADER_NAME_LEN
        && forall|i: int| 0 <= i < s.len() ==> spec_header_name_byte(#[trigger] s[i])
}

/// A header name byte as it is stored: upper-case letters folded to
/// lower case, everything else untouched.
pub open spec fn spec_lower_byte(b: u8) -> u8 {
    if 65 <= b <= 90 {
        (b + 32) as u8
    } else {
        b
    }
}

/// A header name as it is stored: folded to lower case byte by byte.
pub open spec fn spec_lower_name(s: Seq<u8>) -> Seq<u8> {
    s.map_values(|b: u8| spec_lower_byte(b))
}

/// The bytes a header value may hold: tab, and every byte from space
/// upward except delete — the high half included.
pub open spec fn spec_header_value_byte(b: u8) -> bool {
    b == 9 || (b >= 32 && b != 127)
}

/// A header value is made of value bytes.
pub open spec fn spec_valid_header_value(s: Seq<u8>) -> bool {
    forall|i: int| 0 <= i < s.len() ==> spec_header_value_byte(#[trigger] s[i])
}

/// Whether `s` is a well-formed header name.
pub fn valid_header_name(s: &Vec<u8>) -> (r: bool)
    ensures
        r == spec_valid_header_name(s@),
{
    if s.len() == 0 || s.len() > MAX_HEADER_NAME_LEN {
        return false;
    }
    let n = s.len();
    let mut i: usize = 0;
    while i < n
        invariant
            n == s.len(),
            n <= MAX_HEADER_NAME_LEN,
            i <= n,
            forall|j: int| 0 <= j < i ==> spec_header_name_byte(#[trigger] s@[j]),
        decreases n - i,
    {
        let b = s[i];
        let token = (97 <= b && b <= 122)
            || (65 <= b && b <= 90)
            || (48 <= b && b <= 57)
            || b == 33
            || (35 <= b && b <= 39)
            || b == 42 || b == 43 || b == 45 || b == 46
            || (94 <= b && b <= 96)
            || b == 124 || b == 126;
        if !token {
            return false;
        }
        i = i + 1;
    }
    true
}

/// A header name as it is stored: folded to lower case.
pub fn lower_header_name(s: &Vec<u8>) -> (r: Vec<u8>)
    ensures
        r@ == spec_lower_name(s@),
{
    let mut r: Vec<u8> = Vec::new();
    let n = s.len();
    let mut i: usize = 0;
    while i < n
        invariant
            n == s.len(),
            i <= n,
            r@ =~= spec_lower_name(s@.take(i as int)),
        decreases n - i,
    {
        let b = s[i];
        let lb: u8 = if 65 <= b && b <= 90 {
            b + 32
        } else {
            b
        };
        r.push(lb);
        proof {
            assert(spec_lower_name(s@.take(i + 1))
                =~= spec_lower_name(s@.take(i as int)).push(spec_lower_byte(s@[i as int])));
        }
        i = i + 1;
    }
    proof {
        assert(spec_lower_name(s@.take(n as int)) =~= spec_lower_name(s@));
    }
    r
}

/// Whether `s` is a well-formed header value.
pub fn valid_header_value(s: &Vec<u8>) -> (r: bool)
    ensures
        r == spec_valid_header_value(s@),
{
    let n = s.len();
    let mut i: usize = 0;
    while i < n
        invariant
            n == s.len(),
            i <= n,
            forall|j: int| 0 <= j < i ==> spec_header_value_byte(#[trigger] s@[j]),
        decreases n - i,
    {
        let b = s[i];
        if !(b == 9 || (b >= 32 && b != 127)) {
            return false;
        }
        i = i + 1;
    }
    true
}

/// The headers with every entry named `name` removed, order kept.
pub open spec fn spec_remove_name(hs: Seq<HeaderEntryView>, name: Seq<u8>) -> Seq<HeaderEntryView>
    decreases hs.len(),
{
    if hs.len() == 0 {
        Seq::empty()
    } else {
        let rest = spec_remove_name(hs.drop_last(), name);
        if hs.last().name == name {
            rest
        } else {
            rest.push(hs.last())
        }
    }
}

/// Inserting a header replaces every previous entry of the same name
/// and appends the new one.
pub open spec fn spec_insert_header(
    hs: Seq<HeaderEntryView>,
    name: Seq<u8>,
    value: Seq<u8>,
) -> Seq<HeaderEntryView> {
    spec_remove_name(hs, name).push(HeaderEntryView { name, value })
}

/// A response with the overrides applied: the status replaced if one was
/// set, then each override header inserted in order.
pub open spec fn spec_apply_overrides(
    status: Option<StatusCode>,
    overrides: Seq<HeaderEntryView>,
    res: ResponseView,
) -> ResponseView
    decreases overrides.len(),
{
    if overrides.len() == 0 {
        ResponseView {
            status: match status {
                Some(s) => s,
                None => res.status,
            },
            headers: res.headers,
        }
    } else {
        let prev = spec_apply_overrides(status, overrides.drop_last(), res);
        ResponseView {
            status: prev.status,
            headers: spec_insert_header(prev.headers, overrides.last().name, overrides.last().value),
        }
    }
}

/// Allows overriding the status code and headers of a response.
#[derive(Debug)]
pub struct CustomResponder<T> {
    pub responder: T,
    pub status: Option<StatusCode>,
    pub headers: Option<Vec<HeaderEntry>>,
    pub error: Option<HttpError>,
}

impl<T> CustomResponder<T> {
    /// Wrap a responder with no overrides yet.
    pub fn new(responder: T) -> (r: CustomResponder<T>)
        ensures
            r.responder == responder,
            r.status is None,
            r.headers is None,
            r.error is None,
    {
        CustomResponder { responder, status: None, headers: None, error: None }
    }

    /// Override the status code of the response.
    pub fn with_status(self, status: StatusCode) -> (r: CustomResponder<T>)
        ensures
            r.responder == self.responder,
            r.status == Some(status),
            r.headers == self.headers,
            r.error == self.error,
    {
        CustomResponder { status: Some(status), ..self }
    }

    /// Add a header to the response. The name is stored in its
    /// lower-case form; a malformed name or value records the error
    /// instead of adding the header, and earlier overrides stand.
    pub fn with_header(self, key: Vec<u8>, value: Vec<u8>) -> (r: CustomResponder<T>)
        ensures
            r.responder == self.responder,
            r.status == self.status,
            !spec_valid_header_name(key@) ==> {
                &&& r.error == Some(HttpError::InvalidHeaderName)
                &&& spec_override_headers(r.headers) =~= spec_override_headers(self.headers)
            },
            spec_valid_header_name(key@) && !spec_valid_header_value(value@) ==> {
                &&& r.error == Some(HttpError::InvalidHeaderValue)
                &&& spec_override_headers(r.headers) =~= spec_override_headers(self.headers)
            },
            spec_valid_header_name(key@) && spec_valid_header_value(value@) ==> {
                &&& r.error == self.error
                &&& spec_override_headers(r.headers) =~= spec_override_headers(self.headers)
                    .push(HeaderEntryView { name: spec_lower_name(key@), value: value@ })
            },
    {
        let mut headers = match self.headers {
            Some(h) => h,
            None => Vec::new(),
        };
        let ghost base = Seq::new(headers@.len(), |i: int| headers@[i]@);
        if !valid_header_name(&key) {
            return CustomResponder {
                responder: self.responder,
                status: self.status,
                headers: Some(headers),
                error: Some(HttpError::InvalidHeaderName),
            };
        }
        if !valid_header_value(&value) {
            return CustomResponder {
                responder: self.responder,
                status: self.status,
                headers: Some(headers),
                error: Some(HttpError::InvalidHeaderValue),
            };
        }
        let name = lower_header_name(&key);
        headers.push(HeaderEntry { name, value });
        proof {
            assert(Seq::new(headers@.len(), |i: int| headers@[i]@)
                =~= base.push(headers@.last()@));
        }
        CustomResponder {
            responder: self.responder,
            status: self.status,
            headers: Some(headers),
            error: self.error,
        }
    }

    /// Apply the overrides to a resolved response: the status replaced
    /// if one was set, each override header inserted in order, every
    /// older entry of an overridden name dropped.
    pub fn apply_overrides(&self, res: Response) -> (r: Response)
        ensures
            r@ =~~= spec_apply_overrides(
                self.status, spec_override_headers(self.headers), res@),
    {
        let mut out = res;
        if let Some(status) = self.status {
            out = Response { status, headers: out.headers };
        }
        match &self.headers {
            None => out,
            Some(hs) => {
                let n = hs.len();
                let ghost overrides = Seq::new(hs@.len(), |i: int| hs@[i]@);
                let mut i: usize = 0;
                while i < n
                    invariant
                        n == hs.len(),
                        i <= n,
                        overrides =~= Seq::new(hs@.len(), |m: int| hs@[m]@),
                        out@ =~~= spec_apply_overrides(self.status, overrides.take(i as int), res@),
                    decreases n - i,
                {
                    proof {
                        assert(overrides.take(i + 1).drop_last() =~= overrides.take(i as int));
                        assert(overrides.take(i + 1).last() == hs@[i as int]@);
                    }
                    let name = crate::connect::copy_bytes(&hs[i].name);
                    let value = crate::connect::copy_bytes(&hs[i].value);
                    let mut kept: Vec<HeaderEntry> = Vec::new();
                    let m = out.headers.len();
                    let ghost cur = out@.headers;
                    let mut j: usize = 0;
                    while j < m
                        invariant
                            m == out.headers.len(),
                            j <= m,
                            cur =~= Seq::new(out.headers@.len(), |t: int| out.headers@[t]@),
                            name@ == hs@[i as int]@.name,
                            i < hs.len(),
                            Seq::new(kept@.len(), |t: int| kept@[t]@)
                                =~= spec_remove_name(cur.take(j as int), name@),
                        decreases m - j,
                    {
                        proof {
                            assert(cur.take(j + 1).drop_last() =~= cur.take(j as int));
                            assert(cur.take(j + 1).last() == out.headers@[j as int]@);
                        }
                        if !bytes_eq(&out.headers[j].name, &name) {
                            let entry = HeaderEntry {
                                name: crate::connect::copy_bytes(&out.headers[j].name),
                                value: crate::connect::copy_bytes(&out.headers[j].value),
                            };
                            proof {
                                let prev = Seq::new(kept@.len(), |t: int| kept@[t]@);
                                assert(Seq::new(kept@.len() + 1, |t: int| kept@.push(entry)[t]@)
                                    =~= prev.push(entry@));
                            }
                            kept.push(entry);
                        }
                        j = j + 1;
                    }
                    proof {
                        assert(cur.take(m as int) =~= cur);
                    }
                    kept.push(HeaderEntry { name, value });
                    out = Response { status: out.status, headers: kept };
                    proof {
                        assert(out@.headers =~= spec_insert_header(cur, hs@[i as int]@.name, hs@[i as int]@.value));
                    }
                    i = i + 1;
                }
                proof {
                    assert(overrides.take(n as int) =~= overrides);
                }
                out
            }
        }
    }
}

/// The override headers a responder carries, as a sequence.
pub open spec fn spec_override_headers(headers: Option<Vec<HeaderEntry>>) -> Seq<HeaderEntryView> {
    match headers {
        Some(hs) => Seq::new(hs@.len(), |i: int| hs@[i]@),
        None => Seq::empty(),
    }
}

} // verus!
