use http::header::{HeaderMap, HeaderValue, CONTENT_TYPE};
use multipart::{Boundary, InvalidBoundary};

#[test]
fn boundary_is_its_text() {
    let boundary = Boundary::new("xoxo");
    assert_eq!(boundary.len(), 4);
    assert_eq!(boundary.as_bytes(), b"xoxo");
    assert_eq!(boundary.as_ref(), "xoxo");
    let boundary = Boundary::new(String::from("é"));
    assert_eq!(boundary.len(), 2);
    assert_eq!(boundary.as_bytes(), &[0xc3, 0xa9]);
}

#[test]
fn boundary_from_a_header() {
    let boundary = Boundary::try_from_header("multipart/form-data; boundary=ABCDEFG").unwrap();
    assert_eq!(boundary.as_ref(), "ABCDEFG");
    let boundary = Boundary::try_from_header("Multipart/Mixed; charset=utf-8; Boundary=\"a b\"").unwrap();
    assert_eq!(boundary.as_ref(), "a b");
}

#[test]
fn boundary_errors() {
    assert!(matches!(
        Boundary::try_from_header("no media type"),
        Err(InvalidBoundary::ParseContentType)
    ));
    assert!(matches!(
        Boundary::try_from_header("multipart/form-data; charset=utf-8"),
        Err(InvalidBoundary::NoBoundary)
    ));
    assert!(matches!(Boundary::from_param(None), Err(InvalidBoundary::NoBoundary)));
    assert_eq!(Boundary::from_param(Some("x".to_string())).unwrap().as_ref(), "x");
    assert!(matches!(Boundary::from_content_type(None), Err(InvalidBoundary::NoContentType)));
}

#[test]
fn boundary_from_a_mime() {
    let mime: mime::Mime = "multipart/form-data; boundary=q".parse().unwrap();
    assert_eq!(Boundary::try_from(&mime).unwrap().as_ref(), "q");
    assert!(matches!(
        Boundary::try_from(&mime::TEXT_PLAIN),
        Err(InvalidBoundary::NoBoundary)
    ));
}

#[test]
fn boundary_from_a_header_map() {
    let mut map = HeaderMap::new();
    assert!(matches!(Boundary::try_from(&map), Err(InvalidBoundary::NoContentType)));
    map.insert(CONTENT_TYPE, HeaderValue::from_static("multipart/form-data; boundary=first"));
    map.append(CONTENT_TYPE, HeaderValue::from_static("multipart/form-data; boundary=second"));
    assert_eq!(Boundary::try_from(&map).unwrap().as_ref(), "first");
    map.insert(CONTENT_TYPE, HeaderValue::from_static("text/plain"));
    assert!(matches!(Boundary::try_from(&map), Err(InvalidBoundary::NoBoundary)));
    map.insert(CONTENT_TYPE, HeaderValue::from_bytes(b"multipart/form-data; boundary=\xff").unwrap());
    assert!(matches!(Boundary::try_from(&map), Err(InvalidBoundary::ParseContentType)));
}

#[test]
fn boundary_from_an_actix_header_map() {
    let mut map = actix_http::header::HeaderMap::new();
    assert!(matches!(Boundary::try_from(&map), Err(InvalidBoundary::NoContentType)));
    map.append(CONTENT_TYPE, HeaderValue::from_static("multipart/form-data; boundary=first"));
    map.append(CONTENT_TYPE, HeaderValue::from_static("multipart/form-data; boundary=second"));
    assert_eq!(Boundary::try_from(&map).unwrap().as_ref(), "first");
    map.insert(CONTENT_TYPE, HeaderValue::from_static("nothing"));
    assert!(matches!(Boundary::try_from(&map), Err(InvalidBoundary::ParseContentType)));
}
