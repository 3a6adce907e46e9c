use bytes::Bytes;
use multipart::section::{collect_headers, RawHeader, SectionError};
use multipart::{
    Boundary, InnerMultipart, InvalidBoundary, MultipartError, ParseHeadersError, State,
};

fn holding(boundary: &str, data: &[u8]) -> InnerMultipart<()> {
    let mut inner = InnerMultipart::new(Boundary::new(boundary), ());
    let item: Option<Result<Bytes, ()>> = Some(Ok(Bytes::copy_from_slice(data)));
    assert!(inner.poll_extend(item).is_ok());
    inner
}

#[test]
fn read_until_takes_the_needle() {
    let mut inner = holding("b", b"one, two, three");
    assert_eq!(inner.read_until(b", ").unwrap(), "one, ");
    assert_eq!(inner.read_until(b", ").unwrap(), "two, ");
    assert!(inner.read_until(b", ").is_none());
    assert_eq!(inner.read_until(b"").unwrap(), "");
    assert_eq!(inner.read_until(b"three").unwrap(), "three");
    assert!(inner.is_empty());
}

#[test]
fn later_bytes_do_not_move_a_needle() {
    let mut inner = holding("b", b"a\nb");
    assert!(inner.poll_extend::<()>(Some(Ok(Bytes::from_static(b"\nc")))).is_ok());
    assert_eq!(inner.readline().unwrap(), "a\n");
    assert_eq!(inner.readline().unwrap(), "b\n");
    assert!(inner.readline().is_none());
    assert!(!inner.is_empty());
}

#[test]
fn read_until_boundary_keeps_the_boundary() {
    let mut inner = holding("xoxo", b"body--xoxo--");
    let (bytes, boundary) = inner.read_until_boundary();
    assert_eq!(bytes, "body");
    assert_eq!(boundary, Some(true));
    let (bytes, boundary) = inner.read_until_boundary();
    assert_eq!(bytes, "");
    assert_eq!(boundary, Some(true));

    let mut inner = holding("xoxo", b"body--xoxo-");
    assert_eq!(inner.read_until_boundary().1, Some(false));
    let mut inner = holding("xoxo", b"body--xox");
    let (bytes, boundary) = inner.read_until_boundary();
    assert_eq!(bytes, "body--xox");
    assert_eq!(boundary, None);
    assert!(inner.is_empty());
}

#[test]
fn skip_until_boundary_skips_its_line() {
    let mut inner = holding("b", b"x--b \r\nrest");
    assert_eq!(inner.skip_until_boundary(false), Some(false));
    assert_eq!(inner.read_until(b"rest").unwrap(), "rest");
    let mut inner = holding("b", b"x--b \r\nrest");
    assert_eq!(inner.skip_until_boundary(true), Some(false));
    assert_eq!(inner.read_until(b"rest").unwrap(), "--b \r\nrest");
    let mut inner = holding("b", b"x--b");
    assert_eq!(inner.skip_until_boundary(false), Some(false));
    assert_eq!(inner.read_until(b"b").unwrap(), "--b");
    let mut inner = holding("b", b"nothing");
    assert_eq!(inner.skip_until_boundary(false), None);
    assert!(inner.is_empty());
}

#[test]
fn read_headers_takes_the_section() {
    let mut inner = holding("b", b"a: 1\r\nB:2 \r\n\r\nrest");
    let headers = inner.read_headers::<()>().unwrap().unwrap();
    assert_eq!(headers.len(), 2);
    assert_eq!(headers.get("b").unwrap(), "2");
    assert_eq!(inner.read_until(b"rest").unwrap(), "rest");
    assert!(inner.read_headers::<()>().unwrap().is_none());
}

#[test]
fn read_headers_has_limits() {
    let long = format!("A: {}\r\n\r\n", "x".repeat(16384));
    let mut inner = holding("xoxo", long.as_bytes());
    assert!(matches!(
        inner.read_headers::<()>(),
        Err(MultipartError::ParseHeaders(ParseHeadersError::HeaderOverflow))
    ));
    let many = (0..33).map(|i| format!("h{}: v\r\n", i)).collect::<String>() + "\r\n";
    let mut inner = holding("xoxo", many.as_bytes());
    assert!(matches!(
        inner.read_headers::<()>(),
        Err(MultipartError::ParseHeaders(ParseHeadersError::HeaderOverflow))
    ));
}

#[test]
fn poll_extend_errors() {
    let mut inner = holding("b", b"kept");
    assert!(matches!(inner.poll_extend(Some(Err(3))), Err(MultipartError::Upstream(3))));
    assert!(matches!(inner.poll_extend::<u8>(None), Err(MultipartError::UnexpectedEof)));
    assert_eq!(inner.read_until(b"kept").unwrap(), "kept");
    assert_eq!(inner.state(), State::Skip);
    inner.set_state(State::Body);
    assert_eq!(inner.state(), State::Body);
    *inner.stream_mut() = ();
    assert!(inner.has_room(1));
    assert!(!inner.has_room(usize::MAX));
}

fn raw(name: &str, value: &[u8]) -> RawHeader {
    RawHeader { name: name.to_string(), value: value.to_vec() }
}

#[test]
fn collected_fields() {
    let parsed = Ok(Some((9, vec![raw("X", b"1"), raw("y", b""), raw("x", b"2\t\xff")])));
    let map = collect_headers::<()>(parsed).unwrap().unwrap();
    let values: Vec<&[u8]> = map.get_all("x").iter().map(|v| v.as_bytes()).collect();
    assert_eq!(values, vec![b"1".as_slice(), b"2\t\xff".as_slice()]);
    assert_eq!(map.get("y").unwrap().as_bytes(), b"");
    assert_eq!(map.keys_len(), 2);
    assert!(collect_headers::<()>(Ok(Some((0, vec![])))).unwrap().unwrap().is_empty());
}

#[test]
fn the_first_fault_counts() {
    let parsed = Ok(Some((9, vec![raw("a", b"\x00"), raw("b c", b"1")])));
    assert!(matches!(
        collect_headers::<()>(parsed),
        Err(MultipartError::ParseHeaders(ParseHeadersError::InvalidValue(_)))
    ));
    let parsed = Ok(Some((9, vec![raw("ok", b""), raw("", b"\x7f"), raw("a", b"\x00")])));
    assert!(matches!(
        collect_headers::<()>(parsed),
        Err(MultipartError::ParseHeaders(ParseHeadersError::InvalidName(_)))
    ));
    assert!(matches!(
        collect_headers::<()>(Ok(None)),
        Err(MultipartError::ParseHeaders(ParseHeadersError::HeaderOverflow))
    ));
    assert!(matches!(
        collect_headers::<()>(Err(SectionError::TooMany)),
        Err(MultipartError::ParseHeaders(ParseHeadersError::HeaderOverflow))
    ));
    assert!(matches!(
        collect_headers::<()>(Err(SectionError::Http(httparse::Error::Token))),
        Err(MultipartError::ParseHeaders(ParseHeadersError::Http(httparse::Error::Token)))
    ));
}

#[test]
fn the_longest_name() {
    let name = "A".repeat(65535);
    let map = collect_headers::<()>(Ok(Some((0, vec![raw(&name, b"v")])))).unwrap().unwrap();
    assert_eq!(map.keys().next().unwrap().as_str(), "a".repeat(65535));
    let name = "A".repeat(65536);
    assert!(matches!(
        collect_headers::<()>(Ok(Some((0, vec![raw(&name, b"v")])))),
        Err(MultipartError::ParseHeaders(ParseHeadersError::InvalidName(_)))
    ));
}

#[test]
fn names_may_have_these_characters() {
    for code in 0u8..=255 {
        let name: String = (code as char).to_string();
        let allowed = matches!(
            code,
            b'!'..=b'\'' | b'*' | b'+' | b'-' | b'.' | b'0'..=b'9' | b'A'..=b'Z' | b'^'..=b'z' | b'|' | b'~'
        );
        let collected = collect_headers::<()>(Ok(Some((0, vec![raw(&name, b"v")]))));
        assert_eq!(collected.is_ok(), allowed, "{}", code);
        if let Ok(Some(map)) = collected {
            assert_eq!(map.keys().next().unwrap().as_str(), name.to_ascii_lowercase());
        }
    }
}

#[test]
fn values_may_have_these_bytes() {
    for code in 0u8..=255 {
        let allowed = code >= 32 && code != 127 || code == 9;
        let collected = collect_headers::<()>(Ok(Some((0, vec![raw("n", &[code])]))));
        assert_eq!(collected.is_ok(), allowed, "{}", code);
    }
}

#[test]
fn errors_convert() {
    let error: InvalidBoundary = "".parse::<mime::Mime>().unwrap_err().into();
    assert!(matches!(error, InvalidBoundary::ParseContentType));
    let error: MultipartError<()> = InvalidBoundary::NoBoundary.into();
    assert!(matches!(error, MultipartError::Boundary(InvalidBoundary::NoBoundary)));
    let error: ParseHeadersError = httparse::Error::NewLine.into();
    assert!(matches!(error, ParseHeadersError::Http(httparse::Error::NewLine)));
    let error: MultipartError<()> = httparse::Error::NewLine.into();
    assert!(matches!(
        error,
        MultipartError::ParseHeaders(ParseHeadersError::Http(httparse::Error::NewLine))
    ));
    let invalid = http::HeaderName::from_bytes(b"").unwrap_err();
    assert!(matches!(ParseHeadersError::from(invalid), ParseHeadersError::InvalidName(_)));
    let invalid = http::HeaderValue::from_bytes(b"\n").unwrap_err();
    assert!(matches!(ParseHeadersError::from(invalid), ParseHeadersError::InvalidValue(_)));
}
