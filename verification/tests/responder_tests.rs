use kayrx::responder::{
    valid_header_name, valid_header_value, CustomResponder, Either, HeaderEntry, HttpError,
    Response, StatusCode,
};
use kayrx::split::{split, Split};
use kayrx::poll::Poll;

#[test]
fn with_status_overrides() {
    let r = CustomResponder::new(()).with_status(StatusCode::new(404));
    assert_eq!(r.status, Some(StatusCode { code: 404 }));
    assert!(r.headers.is_none());
    assert!(r.error.is_none());
}

#[test]
fn with_header_appends() {
    let r = CustomResponder::new(())
        .with_header(b"x-version".to_vec(), b"1.2.3".to_vec())
        .with_header(b"x-trace".to_vec(), b"abc".to_vec());
    assert!(r.error.is_none());
    let headers = r.headers.expect("headers were added");
    assert_eq!(headers.len(), 2);
    assert_eq!(headers[0].name, b"x-version".to_vec());
    assert_eq!(headers[0].value, b"1.2.3".to_vec());
    assert_eq!(headers[1].name, b"x-trace".to_vec());
}

#[test]
fn with_header_rejects_bad_name() {
    let r = CustomResponder::new(()).with_header(b"Bad Name".to_vec(), b"v".to_vec());
    assert_eq!(r.error, Some(HttpError::InvalidHeaderName));
    assert_eq!(r.headers.map(|h| h.len()), Some(0));
    let r = CustomResponder::new(()).with_header(Vec::new(), b"v".to_vec());
    assert_eq!(r.error, Some(HttpError::InvalidHeaderName));
}

#[test]
fn with_header_rejects_bad_value() {
    let r = CustomResponder::new(()).with_header(b"x-ok".to_vec(), vec![1u8, 2u8]);
    assert_eq!(r.error, Some(HttpError::InvalidHeaderValue));
    assert_eq!(r.headers.map(|h| h.len()), Some(0));
}

#[test]
fn header_validity_rules() {
    assert!(valid_header_name(&b"content-type".to_vec()));
    assert!(valid_header_name(&b"Content-Type".to_vec()));
    assert!(valid_header_name(&b"x_trace2".to_vec()));
    assert!(valid_header_name(&b"x!#$%&'*+-.^_`|~9".to_vec()));
    assert!(!valid_header_name(&b"".to_vec()));
    assert!(!valid_header_name(&b"a:b".to_vec()));
    assert!(!valid_header_name(&b"bad name".to_vec()));
    assert!(!valid_header_name(&b"a{b".to_vec()));
    assert!(valid_header_name(&vec![b'a'; 65_535]));
    assert!(!valid_header_name(&vec![b'a'; 65_536]));
    assert!(valid_header_value(&b"text/plain; charset=utf-8".to_vec()));
    assert!(valid_header_value(&b"".to_vec()));
    // obs-text: the high half of the byte range is accepted.
    assert!(valid_header_value(&vec![0x80u8, 0xFFu8]));
    assert!(!valid_header_value(&b"a\r\nb".to_vec()));
    assert!(!valid_header_value(&vec![127u8]));
}

#[test]
fn with_header_folds_name_to_lowercase() {
    let r = CustomResponder::new(()).with_header(b"Content-Type".to_vec(), b"text/plain".to_vec());
    assert!(r.error.is_none());
    let headers = r.headers.expect("header was added");
    assert_eq!(headers.len(), 1);
    assert_eq!(headers[0].name, b"content-type".to_vec());
    assert_eq!(headers[0].value, b"text/plain".to_vec());
}

#[test]
fn apply_overrides_sets_status_and_replaces_headers() {
    let res = Response {
        status: StatusCode::new(200),
        headers: vec![
            HeaderEntry { name: b"a".to_vec(), value: b"1".to_vec() },
            HeaderEntry { name: b"b".to_vec(), value: b"2".to_vec() },
        ],
    };
    let responder = CustomResponder::new(())
        .with_status(StatusCode::new(404))
        .with_header(b"a".to_vec(), b"9".to_vec());
    let out = responder.apply_overrides(res);
    assert_eq!(out.status.code, 404);
    // Inserting replaces every previous "a" and appends the override.
    assert_eq!(out.headers.len(), 2);
    assert_eq!(out.headers[0].name, b"b".to_vec());
    assert_eq!(out.headers[0].value, b"2".to_vec());
    assert_eq!(out.headers[1].name, b"a".to_vec());
    assert_eq!(out.headers[1].value, b"9".to_vec());
}

#[test]
fn apply_overrides_without_any() {
    let res = Response {
        status: StatusCode::new(204),
        headers: vec![HeaderEntry { name: b"a".to_vec(), value: b"1".to_vec() }],
    };
    let out = CustomResponder::new(()).apply_overrides(res);
    assert_eq!(out.status.code, 204);
    assert_eq!(out.headers.len(), 1);
    assert_eq!(out.headers[0].name, b"a".to_vec());
}

#[test]
fn either_carries_both_branches() {
    let a: Either<u32, &str> = Either::A(7);
    let b: Either<u32, &str> = Either::B("hello");
    assert!(matches!(a, Either::A(7)));
    assert!(matches!(b, Either::B("hello")));
}

#[test]
fn split_yields_segments() {
    let mut s: Split = split(b'\n');
    s.feed(&b"abc\ndef".to_vec());
    match s.poll_next_segment(false) {
        Poll::Ready(Some(seg)) => assert_eq!(seg, b"abc".to_vec()),
        _ => panic!("first segment was complete"),
    }
    assert!(matches!(s.poll_next_segment(false), Poll::Pending));
    s.feed(&b"\n".to_vec());
    match s.poll_next_segment(false) {
        Poll::Ready(Some(seg)) => assert_eq!(seg, b"def".to_vec()),
        _ => panic!("second segment was complete"),
    }
    assert!(matches!(s.poll_next_segment(true), Poll::Ready(None)));
}

#[test]
fn split_yields_trailing_segment_at_eof() {
    let mut s: Split = split(b'\n');
    s.feed(&b"tail".to_vec());
    assert!(matches!(s.poll_next_segment(false), Poll::Pending));
    match s.poll_next_segment(true) {
        Poll::Ready(Some(seg)) => assert_eq!(seg, b"tail".to_vec()),
        _ => panic!("the unterminated tail is the last segment"),
    }
    assert!(matches!(s.poll_next_segment(true), Poll::Ready(None)));
}

#[test]
fn split_empty_segment_between_delimiters() {
    let mut s: Split = split(b'\n');
    s.feed(&b"\n\nx".to_vec());
    match s.poll_next_segment(false) {
        Poll::Ready(Some(seg)) => assert_eq!(seg, Vec::<u8>::new()),
        _ => panic!("empty first segment"),
    }
    match s.poll_next_segment(false) {
        Poll::Ready(Some(seg)) => assert_eq!(seg, Vec::<u8>::new()),
        _ => panic!("empty second segment"),
    }
    match s.poll_next_segment(true) {
        Poll::Ready(Some(seg)) => assert_eq!(seg, b"x".to_vec()),
        _ => panic!("trailing segment"),
    }
}
