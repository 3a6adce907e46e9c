use bytes::{Bytes, BytesMut};
use multipart::{
    BodyPart, Boundary, Event, Multipart, MultipartError, ParseHeadersError, State, Step,
};

type Payload = std::vec::IntoIter<Result<Bytes, u8>>;

fn source(boundary: &str, chunks: &[&[u8]]) -> Multipart<Payload> {
    let items: Vec<Result<Bytes, u8>> = chunks.iter().map(|chunk| Ok(Bytes::copy_from_slice(chunk))).collect();
    Multipart::new(Boundary::new(boundary), items.into_iter())
}

fn failing(boundary: &str, items: Vec<Result<Bytes, u8>>) -> Multipart<Payload> {
    Multipart::new(Boundary::new(boundary), items.into_iter())
}

fn pull(multipart: &mut Multipart<Payload>) -> Event<u8> {
    let item = multipart.stream_mut().next();
    if let Some(Ok(chunk)) = &item {
        assert!(multipart.has_room(chunk.len()));
    }
    Event::Item(item)
}

fn next_part(multipart: &mut Multipart<Payload>) -> Option<Result<BodyPart, MultipartError<u8>>> {
    assert!(
        multipart.state() != State::Body,
        "drop the previous body part before polling next"
    );
    let mut event = Event::Poll;
    loop {
        match multipart.poll_next(event) {
            Step::Ready(part) => return part,
            Step::Extend => event = pull(multipart),
        }
    }
}

fn next_bytes(
    part: &mut BodyPart,
    multipart: &mut Multipart<Payload>,
) -> Option<Result<Bytes, MultipartError<u8>>> {
    let mut event = Event::Poll;
    loop {
        match part.poll_next(multipart, event) {
            Step::Ready(bytes) => return bytes,
            Step::Extend => event = pull(multipart),
        }
    }
}

fn read_all(part: &mut BodyPart, multipart: &mut Multipart<Payload>) -> Vec<u8> {
    let mut data = BytesMut::new();
    while let Some(res) = next_bytes(part, multipart) {
        data.extend_from_slice(&res.unwrap());
    }
    data.to_vec()
}

const BODY: &[u8] = b"--xoxo\r\nContent-Type: text/plain\r\n\r\nYooo\n--xoxo\r\nContent-Type: text/plain\r\n\r\nhello there\n--xoxo--";

#[test]
fn simple_multipart() {
    let mut multipart = source("xoxo", &[BODY]);

    let first = next_part(&mut multipart).unwrap().unwrap();
    assert_eq!(
        first.headers().get("content-type"),
        Some(&"text/plain".parse().unwrap())
    );
    first.release(&mut multipart);

    let mut second = next_part(&mut multipart).unwrap().unwrap();
    let mut data = BytesMut::new();
    while let Some(res) = next_bytes(&mut second, &mut multipart) {
        data.extend(res.unwrap());
    }

    assert_eq!(data.freeze(), b"hello there\n".as_slice());
}

#[test]
#[should_panic]
fn next_part_without_drop() {
    let mut multipart = source("xoxo", &[BODY]);

    let _first = next_part(&mut multipart).unwrap().unwrap();
    let _second = next_part(&mut multipart).unwrap().unwrap();
}

#[test]
fn body_without_leading_boundary() {
    let data = b"Content-Type: text/plain\r\n\r\nHello World!\n--xoxo";
    let mut multipart = source("xoxo", &[data]);
    let result = next_part(&mut multipart);
    assert!(matches!(result, Some(Err(MultipartError::UnexpectedEof))));
    assert_eq!(multipart.state(), State::Headers);
}

#[test]
fn parts_are_read_to_the_end() {
    let mut multipart = source("xoxo", &[b"preamble\r\n", BODY, b"epilogue"]);
    assert_eq!(multipart.state(), State::Skip);

    let mut first = next_part(&mut multipart).unwrap().unwrap();
    assert_eq!(multipart.state(), State::Body);
    assert!(!first.done());
    assert_eq!(read_all(&mut first, &mut multipart), b"Yooo\n");
    assert!(first.done());
    assert_eq!(multipart.state(), State::Skip);
    first.release(&mut multipart);

    let mut second = next_part(&mut multipart).unwrap().unwrap();
    assert_eq!(read_all(&mut second, &mut multipart), b"hello there\n");
    assert_eq!(multipart.state(), State::Eof);
    assert!(next_bytes(&mut second, &mut multipart).is_none());
    second.release(&mut multipart);
    assert_eq!(multipart.state(), State::Eof);

    assert!(next_part(&mut multipart).is_none());
    assert_eq!(multipart.state(), State::Eof);
    assert!(next_part(&mut multipart).is_none());
}

#[test]
fn released_midway_gives_the_same_next_part() {
    let chunks: [&[u8]; 3] = [
        b"--b\r\na: 1\r\n\r\nlong",
        b" body of the first",
        b" part\r\n--b\nc: 2\r\n\r\nrest--b--",
    ];
    let mut read = source("b", &chunks);
    let mut first = next_part(&mut read).unwrap().unwrap();
    assert_eq!(read_all(&mut first, &mut read), b"long body of the first part\r\n");
    first.release(&mut read);
    let mut read_second = next_part(&mut read).unwrap().unwrap();

    let mut dropped = source("b", &chunks);
    let first = next_part(&mut dropped).unwrap().unwrap();
    first.release(&mut dropped);
    let mut dropped_second = next_part(&mut dropped).unwrap().unwrap();

    assert_eq!(read_second.headers(), dropped_second.headers());
    assert_eq!(read_all(&mut read_second, &mut read), b"rest");
    assert_eq!(read_all(&mut dropped_second, &mut dropped), b"rest");
}

#[test]
fn message_in_many_chunks() {
    let mut multipart = source(
        "xoxo",
        &[
            b"pre", b"amble", b"\r\n--xoxo\r\n", b"Content-", b"Type: text", b"/html\r\n\r", b"\nYo",
            b"", b"oo", b"\n--xoxo\r\nX: y\r\n\r\n", b"bye", b"--xoxo--", b"tail",
        ],
    );
    let mut first = next_part(&mut multipart).unwrap().unwrap();
    assert_eq!(first.content_type(), Some(mime::TEXT_HTML));
    assert_eq!(read_all(&mut first, &mut multipart), b"Yooo\n");
    let mut second = next_part(&mut multipart).unwrap().unwrap();
    assert_eq!(second.headers().get("x").unwrap(), "y");
    assert_eq!(read_all(&mut second, &mut multipart), b"bye");
    assert!(next_part(&mut multipart).is_none());
}

#[test]
fn boundary_cut_between_chunks_is_not_seen() {
    let mut multipart = source("xoxo", &[b"--xoxo\r\na: b\r\n\r\nbody--xo", b"xo--"]);
    let mut part = next_part(&mut multipart).unwrap().unwrap();
    assert_eq!(next_bytes(&mut part, &mut multipart).unwrap().unwrap(), "body--xo");
    assert_eq!(next_bytes(&mut part, &mut multipart).unwrap().unwrap(), "xo--");
    assert!(matches!(
        next_bytes(&mut part, &mut multipart),
        Some(Err(MultipartError::UnexpectedEof))
    ));
}

#[test]
fn an_empty_chunk_is_handed_on() {
    let mut multipart = source("b", &[b"--b\r\na: b\r\n\r\n", b"", b"x"]);
    let mut part = next_part(&mut multipart).unwrap().unwrap();
    assert_eq!(next_bytes(&mut part, &mut multipart).unwrap().unwrap(), "");
    assert_eq!(next_bytes(&mut part, &mut multipart).unwrap().unwrap(), "x");
}

#[test]
fn waiting_is_stable() {
    let mut multipart = source("b", &[b"--b\r\na: b\r\n"]);
    let event = pull(&mut multipart);
    assert!(matches!(multipart.poll_next(event), Step::Extend));
    assert_eq!(multipart.state(), State::Headers);
    assert!(matches!(multipart.poll_next::<u8>(Event::Poll), Step::Extend));
    let event = Event::Item(Some(Ok::<Bytes, u8>(Bytes::from_static(b"\r\n"))));
    match multipart.poll_next(event) {
        Step::Ready(Some(Ok(part))) => assert_eq!(part.headers().get("a").unwrap(), "b"),
        other => panic!("{:?}", other),
    }
}

#[test]
fn payload_errors_are_passed_on() {
    let mut multipart = failing("b", vec![Err(7), Ok(Bytes::from_static(b"--b\r\na: b\r\n\r\nx")), Err(8)]);
    assert!(matches!(next_part(&mut multipart), Some(Err(MultipartError::Upstream(7)))));
    assert_eq!(multipart.state(), State::Skip);
    let mut part = next_part(&mut multipart).unwrap().unwrap();
    assert_eq!(next_bytes(&mut part, &mut multipart).unwrap().unwrap(), "x");
    assert!(matches!(
        next_bytes(&mut part, &mut multipart),
        Some(Err(MultipartError::Upstream(8)))
    ));
    assert!(matches!(
        next_bytes(&mut part, &mut multipart),
        Some(Err(MultipartError::UnexpectedEof))
    ));
    assert_eq!(multipart.state(), State::Body);
}

#[test]
fn an_empty_payload_is_unexpected() {
    let mut multipart = source("b", &[]);
    assert!(matches!(next_part(&mut multipart), Some(Err(MultipartError::UnexpectedEof))));
}

#[test]
fn a_long_header_section_overflows() {
    let mut start = b"--b\r\n".to_vec();
    start.extend(vec![b'a'; 16384]);
    let mut multipart = source("b", &[&start]);
    assert!(matches!(next_part(&mut multipart), Some(Err(MultipartError::UnexpectedEof))));
    let mut multipart = source("b", &[&start, b"a"]);
    assert!(matches!(
        next_part(&mut multipart),
        Some(Err(MultipartError::ParseHeaders(ParseHeadersError::HeaderOverflow)))
    ));
    assert_eq!(multipart.state(), State::Headers);
}

#[test]
fn a_header_section_that_is_none() {
    let mut multipart = source("b", &[b"--b\r\nno colon\r\n\r\n"]);
    match next_part(&mut multipart) {
        Some(Err(MultipartError::ParseHeaders(ParseHeadersError::Http(error)))) => {
            assert_eq!(error, httparse::Error::HeaderName)
        }
        other => panic!("{:?}", other),
    }
}

fn section_of(count: usize) -> Vec<u8> {
    let mut section = b"--b\r\n".to_vec();
    for i in 0..count {
        section.extend(format!("x-{}: {}\r\n", i, i).into_bytes());
    }
    section.extend(b"\r\n");
    section
}

#[test]
fn thirty_two_headers_are_the_most() {
    let mut multipart = source("b", &[&section_of(32)]);
    let part = next_part(&mut multipart).unwrap().unwrap();
    assert_eq!(part.headers().len(), 32);
    assert_eq!(part.headers().get("x-31").unwrap(), "31");

    let mut multipart = source("b", &[&section_of(33)]);
    assert!(matches!(
        next_part(&mut multipart),
        Some(Err(MultipartError::ParseHeaders(ParseHeadersError::HeaderOverflow)))
    ));
}

#[test]
fn repeated_headers_keep_their_order() {
    let mut multipart = source("b", &[b"--b\r\nX-Tag: one\r\nOther: z\r\nx-tag: two\r\n\r\n"]);
    let part = next_part(&mut multipart).unwrap().unwrap();
    let tags: Vec<&str> = part.headers().get_all("X-TAG").iter().map(|v| v.to_str().unwrap()).collect();
    assert_eq!(tags, vec!["one", "two"]);
    assert_eq!(part.headers().keys_len(), 2);
    assert_eq!(part.content_type(), None);
}

#[test]
fn content_type_of_a_part() {
    let mut multipart = source(
        "b",
        &[b"--b\r\ncontent-type: Text/PLAIN; charset=utf-8\r\nContent-Type: a/b\r\n\r\n\
            --b\r\nContent-Type: none\r\n\r\n\
            --b\r\nContent-Type: a/b\xff\r\n\r\n--b--"],
    );
    let part = next_part(&mut multipart).unwrap().unwrap();
    assert_eq!(part.content_type(), Some(mime::TEXT_PLAIN_UTF_8));
    part.release(&mut multipart);
    let part = next_part(&mut multipart).unwrap().unwrap();
    assert_eq!(part.content_type(), None);
    part.release(&mut multipart);
    let part = next_part(&mut multipart).unwrap().unwrap();
    assert_eq!(part.headers().get("content-type").unwrap().as_bytes(), b"a/b\xff");
    assert_eq!(part.content_type(), None);
    part.release(&mut multipart);
    assert!(next_part(&mut multipart).is_none());
}

#[test]
fn a_part_that_is_read_need_not_be_released() {
    let mut multipart = source("xoxo", &[BODY]);
    let mut first = next_part(&mut multipart).unwrap().unwrap();
    assert_eq!(read_all(&mut first, &mut multipart), b"Yooo\n");
    let mut second = next_part(&mut multipart).unwrap().unwrap();
    assert_eq!(read_all(&mut second, &mut multipart), b"hello there\n");
    assert!(next_part(&mut multipart).is_none());
    second.release(&mut multipart);
    assert!(next_part(&mut multipart).is_none());
}

#[test]
fn one_step_at_a_time() {
    let data = "--xoxo\r\nContent-Type: text/plain\r\n\r\nHello World!\n--xoxo--";
    let mut payload = Some(Ok::<_, ()>(Bytes::from(data)));
    let mut multipart = Multipart::new(Boundary::new("xoxo"), ());

    assert!(matches!(multipart.poll_next::<()>(Event::Poll), Step::Extend));
    match multipart.poll_next(Event::Item(payload.take())) {
        Step::Ready(Some(Ok(part))) => assert!(part.content_type().is_some()),
        _ => unreachable!(),
    }
}

#[test]
fn a_boundary_with_a_line_end_is_no_boundary_line() {
    let mut multipart = source("a\nb", &[b"--a\nb\r\nx: y\r\n\r\nbody--a\nb--"]);
    match next_part(&mut multipart) {
        Some(Err(MultipartError::ParseHeaders(ParseHeadersError::Http(_)))) => {}
        other => panic!("{:?}", other),
    }
}

/// A message whose part has a header section of this many bytes, with its empty line.
fn message_with_section(len: usize) -> Vec<u8> {
    let mut data = b"--b\r\nx: ".to_vec();
    data.extend(vec![b'y'; len - 7]);
    data.extend(b"\r\n\r\nbody--b--");
    data
}

#[test]
fn the_longest_header_section() {
    let data = message_with_section(16384);
    for cut in [5, 6, 9000, 16385, 16388, 16389] {
        let mut multipart = source("b", &[&data[..cut], &data[cut..]]);
        let part = next_part(&mut multipart).unwrap().unwrap();
        assert_eq!(part.headers().get("x").unwrap().len(), 16377);
    }
}

#[test]
fn a_longer_header_section_overflows_however_it_arrives() {
    let data = message_with_section(16385);
    for cut in [5, 6, 9000, 16385, 16389, 16390] {
        let mut multipart = source("b", &[&data[..cut], &data[cut..]]);
        assert!(matches!(
            next_part(&mut multipart),
            Some(Err(MultipartError::ParseHeaders(ParseHeadersError::HeaderOverflow)))
        ));
    }
}

#[test]
fn a_part_that_is_read_may_be_released_late() {
    let mut multipart = source("xoxo", &[BODY]);
    let mut first = next_part(&mut multipart).unwrap().unwrap();
    assert_eq!(read_all(&mut first, &mut multipart), b"Yooo\n");
    let mut second = next_part(&mut multipart).unwrap().unwrap();
    first.release(&mut multipart);
    assert_eq!(multipart.state(), State::Body);
    assert_eq!(next_bytes(&mut second, &mut multipart).unwrap().unwrap(), "hello there\n");
    assert!(next_bytes(&mut second, &mut multipart).is_none());
    assert!(next_part(&mut multipart).is_none());
}

#[test]
fn a_part_that_is_half_read_may_be_released() {
    let mut multipart = source(
        "b",
        &[b"--b\r\na: 1\r\n\r\nfirst", b"x: y\r\n\r\n", b"--b\r\nc: 2\r\n\r\nrest--b--"],
    );
    let mut first = next_part(&mut multipart).unwrap().unwrap();
    assert_eq!(next_bytes(&mut first, &mut multipart).unwrap().unwrap(), "first");
    first.release(&mut multipart);
    let mut second = next_part(&mut multipart).unwrap().unwrap();
    assert_eq!(second.headers().get("c").unwrap(), "2");
    assert!(second.headers().get("x").is_none());
    assert_eq!(read_all(&mut second, &mut multipart), b"rest");
}

#[test]
fn a_body_comes_byte_for_byte() {
    let bodies: [&[u8]; 5] = [b"", b"\r\n", b"a\r\n\r\nb\n", b"--xox\r\n--xo", b"-"];
    for body in bodies {
        let mut data = b"--xoxo\r\nA: b\r\n\r\n".to_vec();
        data.extend(body);
        data.extend(b"--xoxo--");
        let mut multipart = source("xoxo", &[&data]);
        let mut part = next_part(&mut multipart).unwrap().unwrap();
        assert_eq!(next_bytes(&mut part, &mut multipart).unwrap().unwrap(), body);
        assert!(next_bytes(&mut part, &mut multipart).is_none());
        assert!(next_part(&mut multipart).is_none());
    }
}

#[test]
fn a_delimiter_that_overlaps_with_itself() {
    let data = b"--a--\r\nA: b\r\n\r\n--a--a----";
    let mut multipart = source("a--", &[data]);
    let mut part = next_part(&mut multipart).unwrap().unwrap();
    assert_eq!(next_bytes(&mut part, &mut multipart).unwrap().unwrap(), "");
    assert!(next_bytes(&mut part, &mut multipart).is_none());
}

#[test]
fn nothing_comes_without_a_boundary() {
    let mut multipart = source("xoxo", &[b"no ", b"--xox", b" boundary"]);
    assert!(matches!(next_part(&mut multipart), Some(Err(MultipartError::UnexpectedEof))));
    assert_eq!(multipart.state(), State::Skip);
}

#[test]
fn a_body_that_waits_is_unchanged() {
    let mut multipart = source("b", &[b"--b\r\na: b\r\n\r\n", b"x--b--"]);
    let mut part = next_part(&mut multipart).unwrap().unwrap();
    assert!(matches!(part.poll_next::<_, u8>(&mut multipart, Event::Poll), Step::Extend));
    assert!(matches!(part.poll_next::<_, u8>(&mut multipart, Event::Poll), Step::Extend));
    assert_eq!(multipart.state(), State::Body);
    assert_eq!(read_all(&mut part, &mut multipart), b"x");
}

#[test]
fn boundary_of_a_nested_message() {
    let mut multipart = source(
        "out",
        &[b"--out\r\nContent-Type: multipart/mixed; boundary=in\r\n\r\n--in\r\na: b\r\n\r\nx--in--\r\n--out--"],
    );
    let mut part = next_part(&mut multipart).unwrap().unwrap();
    let stated = Boundary::try_from(&part.content_type().unwrap()).unwrap();
    let boundary = Boundary::try_from(part.headers()).unwrap();
    assert_eq!(stated.as_ref(), boundary.as_ref());
    let body = read_all(&mut part, &mut multipart);
    let mut nested = Multipart::new(boundary, vec![Ok(Bytes::from(body))].into_iter());
    let mut inside = next_part(&mut nested).unwrap().unwrap();
    assert_eq!(read_all(&mut inside, &mut nested), b"x");
    assert!(next_part(&mut nested).is_none());
}
