//! What the results that callers get tell of what they gave: bytes, header fields, media types,
//! boundaries and errors arrive unchanged.
use bytes::Bytes;
use http::header::{InvalidHeaderName, InvalidHeaderValue};
use http::HeaderMap;
use vstd::prelude::*;
use vstd::std_specs::convert::FromSpec;

use crate::boundary::Boundary;
use crate::error::{InvalidBoundary, MultipartError, ParseHeadersError};
use crate::multipart::{BodyPart, Event, Step};
use crate::parser::{BodyPoll, Input, PartPoll};
use crate::section::{Fields, Outcome, RawHeader, SectionError};
use crate::{boundary, buffer, laws, media, multipart, section};

verus! {

/// What a step towards a part's bytes returns tells what came: the bytes that a caller gets are
/// all those that were taken off, an error is the payload's own, and each answer stands for one
/// thing only.
pub proof fn law_body_answer<E>(
    poll: BodyPoll<E>,
    step: Step<Option<Result<Bytes, MultipartError<E>>>>,
)
    requires
        poll.returned_as(step),
    ensures
        match step {
            Step::Extend => poll is Extend,
            Step::Ready(None) => poll is End,
            Step::Ready(Some(Ok(chunk))) => {
                poll is Chunk && poll->Chunk_bytes.len() == buffer::frozen(chunk).len() && forall|
                    i: int,
                |
                    0 <= i < poll->Chunk_bytes.len() ==> #[trigger] poll->Chunk_bytes[i]
                        == buffer::frozen(chunk)[i]
            },
            Step::Ready(Some(Err(MultipartError::Upstream(error)))) => poll == BodyPoll::Upstream(
                error,
            ),
            Step::Ready(Some(Err(MultipartError::UnexpectedEof))) => poll is UnexpectedEof,
            Step::Ready(Some(Err(_))) => false,
        },
{
}

/// What a step towards the next part returns tells what came: a part has exactly the header fields
/// that were read and is at its beginning, an error is the payload's or the header section's own,
/// and each answer stands for one thing only.
pub proof fn law_part_answer<E>(
    poll: PartPoll<E>,
    step: Step<Option<Result<BodyPart, MultipartError<E>>>>,
)
    requires
        poll.returned_as(step),
        !(poll matches PartPoll::Section(Outcome::Incomplete)),
    ensures
        match step {
            Step::Extend => poll is Extend,
            Step::Ready(None) => poll is End,
            Step::Ready(Some(Ok(part))) => {
                !part.is_done() && poll == PartPoll::<E>::Section(Outcome::Fields(part.fields()))
            },
            Step::Ready(Some(Err(MultipartError::Upstream(error)))) => poll == PartPoll::Upstream(
                error,
            ),
            Step::Ready(Some(Err(MultipartError::UnexpectedEof))) => poll is UnexpectedEof,
            Step::Ready(Some(Err(MultipartError::ParseHeaders(error)))) => match error {
                ParseHeadersError::HeaderOverflow => poll == PartPoll::<E>::Section(
                    Outcome::Overflow,
                ),
                ParseHeadersError::Http(cause) => poll == PartPoll::<E>::Section(
                    Outcome::Http(cause),
                ),
                ParseHeadersError::InvalidName(_) => poll == PartPoll::<E>::Section(
                    Outcome::InvalidName,
                ),
                ParseHeadersError::InvalidValue(_) => poll == PartPoll::<E>::Section(
                    Outcome::InvalidValue,
                ),
            },
            Step::Ready(Some(Err(MultipartError::Boundary(_)))) => false,
        },
{
}

/// What reading a header section returns tells what it came to: the map has exactly its fields,
/// and each error stands for one fault only.
pub proof fn law_section_answer<E>(
    outcome: Outcome,
    result: Result<Option<HeaderMap>, MultipartError<E>>,
)
    requires
        outcome.returned_as(result),
    ensures
        match result {
            Ok(None) => outcome is Incomplete,
            Ok(Some(map)) => outcome == Outcome::Fields(section::fields(map)),
            Err(MultipartError::ParseHeaders(ParseHeadersError::HeaderOverflow)) => {
                outcome is Overflow
            },
            Err(MultipartError::ParseHeaders(ParseHeadersError::Http(error))) => {
                outcome == Outcome::Http(error)
            },
            Err(MultipartError::ParseHeaders(ParseHeadersError::InvalidName(_))) => {
                outcome is InvalidName
            },
            Err(MultipartError::ParseHeaders(ParseHeadersError::InvalidValue(_))) => {
                outcome is InvalidValue
            },
            Err(_) => false,
        },
{
}

/// An event hands over what it holds: a chunk with all its bytes, the payload's error, its end, or
/// nothing but a request.
pub proof fn law_event_is_handed_over<E>(event: Event<E>)
    ensures
        match event@ {
            Input::Poll => event is Poll,
            Input::Chunk(bytes) => {
                event matches Event::Item(Some(Ok(chunk))) && bytes.len() == buffer::frozen(
                    chunk,
                ).len() && forall|i: int|
                    0 <= i < bytes.len() ==> #[trigger] bytes[i] == buffer::frozen(chunk)[i]
            },
            Input::Failed(error) => event == Event::Item(Some(Err::<Bytes, E>(error))),
            Input::End => event matches Event::Item(None),
        },
{
}

/// The fields of a parsed header section are those that the parser found, all of them, each with
/// its name and its value as sent, in their order; an error is handed on.
pub proof fn law_section_is_handed_over(
    parsed: Result<Option<(usize, Vec<RawHeader>)>, SectionError>,
)
    ensures
        match parsed {
            Ok(Some((end, raw))) => {
                section::section_view(parsed) matches Ok(Some((till, sent))) && till == end
                    && sent.len() == raw@.len() && forall|i: int|
                    0 <= i < raw@.len() ==> (#[trigger] sent[i]).0 == raw@[i].name@ && sent[i].1
                        == raw@[i].value@
            },
            Ok(None) => section::section_view(parsed) matches Ok(None),
            Err(error) => {
                section::section_view(parsed) == Err::<
                    Option<(nat, Seq<(Seq<char>, Seq<u8>)>)>,
                    SectionError,
                >(error)
            },
        },
{
}

/// A header section whose fields all have a name and a value comes to all of them, however many
/// they are: each name that was sent is there, in lower case, with all values that were sent under
/// it, in their order, and no other name is.
pub proof fn law_section_has_all_fields(end: nat, raw: Seq<(Seq<char>, Seq<u8>)>)
    requires
        forall|i: int|
            0 <= i < raw.len() ==> section::valid_name((#[trigger] raw[i]).0)
                && section::valid_value(raw[i].1),
    ensures
        section::section_outcome(Ok(Some((end, raw)))) matches Outcome::Fields(all) && {
            &&& forall|i: int|
                0 <= i < raw.len() ==> all.dom().contains(section::lower((#[trigger] raw[i]).0))
            &&& forall|name: Seq<char>| #[trigger]
                all.dom().contains(name) <==> laws::values_of(raw, name).len() > 0
            &&& forall|name: Seq<char>| #[trigger]
                all.dom().contains(name) ==> all[name] == laws::values_of(raw, name)
        },
{
    laws::law_collected(raw);
    assert forall|i: int| 0 <= i < raw.len() implies laws::values_of(
        raw,
        section::lower((#[trigger] raw[i]).0),
    ).len() > 0 by {
        lemma_value_of_field(raw, i);
    }
}

/// A field that was sent has a value under its name.
proof fn lemma_value_of_field(raw: Seq<(Seq<char>, Seq<u8>)>, i: int)
    requires
        0 <= i < raw.len(),
    ensures
        laws::values_of(raw, section::lower(raw[i].0)).len() > 0,
    decreases raw.len(),
{
    if i < raw.len() - 1 {
        assert(raw.drop_last()[i] == raw[i]);
        lemma_value_of_field(raw.drop_last(), i);
    }
}

/// A header section in which field `i` is the first whose name or value is none comes to that
/// fault, whatever follows it.
pub proof fn law_section_has_first_fault(end: nat, raw: Seq<(Seq<char>, Seq<u8>)>, i: int)
    requires
        0 <= i < raw.len(),
        forall|j: int|
            0 <= j < i ==> section::valid_name((#[trigger] raw[j]).0) && section::valid_value(
                raw[j].1,
            ),
        !section::valid_name(raw[i].0) || !section::valid_value(raw[i].1),
    ensures
        section::valid_name(raw[i].0) ==> section::section_outcome(
            Ok(Some((end, raw))),
        ) is InvalidValue,
        !section::valid_name(raw[i].0) ==> section::section_outcome(
            Ok(Some((end, raw))),
        ) is InvalidName,
{
    let before = raw.take(i);
    let upto = raw.take(i + 1);
    assert forall|j: int| 0 <= j < before.len() implies section::valid_name(
        (#[trigger] before[j]).0,
    ) && section::valid_value(before[j].1) by {
        assert(before[j] == raw[j]);
    }
    laws::law_collected(before);
    assert(upto.drop_last() =~= before);
    assert(upto.last() == raw[i]);
    section::lemma_fault_stays(raw, i + 1);
}

/// A header section that ends too early, or has more fields than there is room for, is an
/// overflow; any other error of the parser is handed on.
pub proof fn law_section_error(error: httparse::Error)
    ensures
        section::section_outcome(Ok(None)) is Overflow,
        section::section_outcome(Err(SectionError::TooMany)) is Overflow,
        section::section_outcome(Err(SectionError::Http(error))) == Outcome::Http(error),
{
}

/// A header name has 1 to 65535 printable ASCII characters, none of them a space, a bracket or a
/// mark that separates. Its lower case has letters `A` to `Z` made `a` to `z` and all else as it
/// was.
pub proof fn law_name(text: Seq<char>)
    ensures
        section::valid_name(text) <==> 0 < text.len() < 65536 && forall|i: int|
            0 <= i < text.len() ==> {
                let code = (#[trigger] text[i]) as int;
                &&& 33 <= code <= 126
                &&& code != 40 && code != 41 && code != 44 && code != 47
                &&& !(58 <= code <= 64) && !(91 <= code <= 93)
                &&& code != 123 && code != 125
            },
        section::lower(text).len() == text.len(),
        forall|i: int|
            0 <= i < text.len() ==> (#[trigger] section::lower(text)[i]) as int == if 'A' <= text[i]
                <= 'Z' {
                text[i] as int + ('a' as int - 'A' as int)
            } else {
                text[i] as int
            },
{
    if section::valid_name(text) {
        assert forall|i: int| 0 <= i < text.len() implies {
            let code = (#[trigger] text[i]) as int;
            &&& 33 <= code <= 126
            &&& code != 40 && code != 41 && code != 44 && code != 47
            &&& !(58 <= code <= 64) && !(91 <= code <= 93)
            &&& code != 123 && code != 125
        } by {
            assert(section::is_name_char(text[i]));
        }
    }
}

/// A header value has no byte below the space but the tab, and no delete byte; any number of other
/// bytes may stand in it.
pub proof fn law_value(bytes: Seq<u8>)
    ensures
        section::valid_value(bytes) <==> forall|i: int|
            0 <= i < bytes.len() ==> {
                let byte = #[trigger] bytes[i];
                byte != 127 && (byte < 32 ==> byte == 9)
            },
{
    if section::valid_value(bytes) {
        assert forall|i: int| 0 <= i < bytes.len() implies {
            let byte = #[trigger] bytes[i];
            byte != 127 && (byte < 32 ==> byte == 9)
        } by {}
    }
}

/// `text` is the text that `bytes` are in ASCII: one visible character, space or tab for each byte.
pub open spec fn spells(text: Seq<char>, bytes: Seq<u8>) -> bool {
    &&& text.len() == bytes.len()
    &&& forall|i: int|
        0 <= i < bytes.len() ==> (#[trigger] text[i]) as int == bytes[i] as int && (bytes[i] == 9 || (
        32 <= bytes[i] && bytes[i] <= 126))
}

proof fn lemma_spells(text: Seq<char>, bytes: Seq<u8>)
    requires
        spells(text, bytes),
    ensures
        section::visible(bytes),
        section::as_text(bytes) == text,
{
    assert forall|i: int| 0 <= i < bytes.len() implies 32 <= #[trigger] bytes[i] < 127 || bytes[i]
        == 9 by {
        assert(text[i] as int == bytes[i] as int);
    }
    assert forall|i: int| 0 <= i < bytes.len() implies section::as_text(bytes)[i] == text[i] by {
        assert(text[i] as int == bytes[i] as int);
    }
    assert(section::as_text(bytes) =~= text);
}

/// Bytes that are all visible ASCII characters, spaces or tabs spell a text.
proof fn lemma_visible_spells(bytes: Seq<u8>)
    requires
        section::visible(bytes),
    ensures
        spells(section::as_text(bytes), bytes),
{
}

/// The media type of a part is what its first `content-type` value is parsed into, whatever its
/// length: a value that spells a text which the parser accepts gives the media type that the
/// parser gives, one that it rejects gives none.
pub proof fn law_content_type(fields: Fields, text: Seq<char>)
    requires
        fields.dom().contains("content-type"@),
        spells(text, fields["content-type"@][0]),
    ensures
        multipart::content_type_of(fields) == media::media_type(text),
{
    boundary::lemma_content_type_name();
    lemma_spells(text, fields["content-type"@][0]);
}

/// Without a `content-type`, or where its first value spells no text, a part has no media type.
pub proof fn law_no_content_type(fields: Fields)
    requires
        !fields.dom().contains("content-type"@) || forall|text: Seq<char>|
            !#[trigger] spells(text, fields["content-type"@][0]),
    ensures
        multipart::content_type_of(fields) is None,
{
    boundary::lemma_content_type_name();
    if fields.dom().contains("content-type"@) && section::visible(fields["content-type"@][0]) {
        lemma_visible_spells(fields["content-type"@][0]);
    }
}

/// The boundary of a media type is the value of its `boundary` parameter, with nothing added, taken
/// away or changed; without the parameter there is none.
pub proof fn law_boundary_is_the_parameter(mime: Seq<char>, value: Seq<char>)
    ensures
        media::parameter(mime, "boundary"@) == Some(value) ==> boundary::mime_boundary(mime) == Ok::<
            Seq<char>,
            InvalidBoundary,
        >(value),
        media::parameter(mime, "boundary"@) is None ==> boundary::mime_boundary(mime) == Err::<
            Seq<char>,
            InvalidBoundary,
        >(InvalidBoundary::NoBoundary),
        boundary::param_boundary(Some(value)) == Ok::<Seq<char>, InvalidBoundary>(value),
        boundary::param_boundary(None) == Err::<Seq<char>, InvalidBoundary>(
            InvalidBoundary::NoBoundary,
        ),
{
    reveal_strlit("boundary");
    assert("boundary"@ =~= boundary::boundary_name());
}

/// The boundary that a text has is the `boundary` parameter of the media type that it is parsed
/// into, as it is; a text that the parser rejects is an error.
pub proof fn law_boundary_of_text(text: Seq<char>, mime: Seq<char>, value: Seq<char>)
    ensures
        media::media_type(text) == Some(mime) && media::parameter(mime, "boundary"@) == Some(value)
            ==> boundary::text_boundary(text) == Ok::<Seq<char>, InvalidBoundary>(value),
        media::media_type(text) == Some(mime) && media::parameter(mime, "boundary"@) is None
            ==> boundary::text_boundary(text) == Err::<Seq<char>, InvalidBoundary>(
            InvalidBoundary::NoBoundary,
        ),
        media::media_type(text) is None ==> boundary::text_boundary(text) == Err::<
            Seq<char>,
            InvalidBoundary,
        >(InvalidBoundary::ParseContentType),
{
    law_boundary_is_the_parameter(mime, value);
}

/// The boundary that header fields have is that of the text which their first `content-type` value
/// spells, whatever its length.
pub proof fn law_boundary_of_fields(fields: Fields, text: Seq<char>)
    requires
        fields.dom().contains("content-type"@),
        spells(text, fields["content-type"@][0]),
    ensures
        boundary::fields_boundary(fields) == boundary::text_boundary(text),
        boundary::value_boundary(Some(fields["content-type"@][0])) == boundary::text_boundary(text),
{
    boundary::lemma_content_type_name();
    lemma_spells(text, fields["content-type"@][0]);
}

/// Header fields without a `content-type` have no boundary, and neither have those whose first
/// `content-type` value spells no text.
pub proof fn law_no_boundary_of_fields(fields: Fields, value: Seq<u8>)
    ensures
        !fields.dom().contains("content-type"@) ==> boundary::fields_boundary(fields) == Err::<
            Seq<char>,
            InvalidBoundary,
        >(InvalidBoundary::NoContentType),
        fields.dom().contains("content-type"@) && (forall|text: Seq<char>|
            !#[trigger] spells(text, fields["content-type"@][0])) ==> boundary::fields_boundary(
            fields,
        ) == Err::<Seq<char>, InvalidBoundary>(InvalidBoundary::ParseContentType),
        boundary::value_boundary(None) == Err::<Seq<char>, InvalidBoundary>(
            InvalidBoundary::NoContentType,
        ),
        (forall|text: Seq<char>| !#[trigger] spells(text, value)) ==> boundary::value_boundary(
            Some(value),
        ) == Err::<Seq<char>, InvalidBoundary>(InvalidBoundary::ParseContentType),
{
    boundary::lemma_content_type_name();
    if fields.dom().contains("content-type"@) && section::visible(fields["content-type"@][0]) {
        lemma_visible_spells(fields["content-type"@][0]);
    }
    if section::visible(value) {
        lemma_visible_spells(value);
    }
}

/// What a conversion into a boundary returns is the boundary that was looked for, character for
/// character, or the very error.
pub proof fn law_boundary_answer(
    result: Result<Boundary, InvalidBoundary>,
    expected: Result<Seq<char>, InvalidBoundary>,
)
    requires
        boundary::is_boundary(result, expected),
    ensures
        match result {
            Ok(boundary) => expected == Ok::<Seq<char>, InvalidBoundary>(boundary@),
            Err(error) => expected == Err::<Seq<char>, InvalidBoundary>(error),
        },
{
}

/// The bytes of a boundary are its whole text in UTF-8: another boundary has the same bytes only
/// if it has the same text.
pub proof fn law_boundary_bytes(one: Boundary, other: Boundary)
    ensures
        one.octets() == vstd::utf8::encode_utf8(one@),
        vstd::utf8::decode_utf8(one.octets()) == one@,
        one.octets() == other.octets() ==> one@ == other@,
{
    vstd::utf8::encode_utf8_decode_utf8(one@);
    vstd::utf8::encode_utf8_decode_utf8(other@);
}

/// An error that is converted is kept: it stands in the variant that is named after it.
pub proof fn law_errors_are_kept<E>(
    http: httparse::Error,
    name: InvalidHeaderName,
    value: InvalidHeaderValue,
    mime: mime::FromStrError,
    invalid: InvalidBoundary,
)
    ensures
        <InvalidBoundary as FromSpec<mime::FromStrError>>::obeys_from_spec(),
        <InvalidBoundary as FromSpec<mime::FromStrError>>::from_spec(mime) is ParseContentType,
        <ParseHeadersError as FromSpec<httparse::Error>>::obeys_from_spec(),
        <ParseHeadersError as FromSpec<httparse::Error>>::from_spec(http)
            == ParseHeadersError::Http(http),
        <ParseHeadersError as FromSpec<InvalidHeaderName>>::obeys_from_spec(),
        <ParseHeadersError as FromSpec<InvalidHeaderName>>::from_spec(name)
            == ParseHeadersError::InvalidName(name),
        <ParseHeadersError as FromSpec<InvalidHeaderValue>>::obeys_from_spec(),
        <ParseHeadersError as FromSpec<InvalidHeaderValue>>::from_spec(value)
            == ParseHeadersError::InvalidValue(value),
        <MultipartError<E> as FromSpec<InvalidBoundary>>::obeys_from_spec(),
        <MultipartError<E> as FromSpec<InvalidBoundary>>::from_spec(invalid)
            == MultipartError::<E>::Boundary(invalid),
        <MultipartError<E> as FromSpec<httparse::Error>>::obeys_from_spec(),
        <MultipartError<E> as FromSpec<httparse::Error>>::from_spec(http)
            == MultipartError::<E>::ParseHeaders(ParseHeadersError::Http(http)),
        <MultipartError<E> as FromSpec<InvalidHeaderName>>::obeys_from_spec(),
        <MultipartError<E> as FromSpec<InvalidHeaderName>>::from_spec(name)
            == MultipartError::<E>::ParseHeaders(ParseHeadersError::InvalidName(name)),
        <MultipartError<E> as FromSpec<InvalidHeaderValue>>::obeys_from_spec(),
        <MultipartError<E> as FromSpec<InvalidHeaderValue>>::from_spec(value)
            == MultipartError::<E>::ParseHeaders(ParseHeadersError::InvalidValue(value)),
{
}

} // verus!
