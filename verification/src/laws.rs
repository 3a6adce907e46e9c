//! What holds of the parser whatever it is given.
use vstd::prelude::*;

use crate::error::InvalidBoundary;
use crate::parser::{BodyPoll, Input, Parser, PartPoll, State, MAX_HEADER_SECTION_SIZE};
use crate::section::{Fields, Outcome, RawHeader};
use crate::{boundary, multipart, parser, search, section};

verus! {

/// Reading up to a needle loses nothing: the bytes that are returned and those that stay are the
/// bytes that were there. What is returned ends with the needle, and holds it nowhere before.
pub proof fn law_read_until_splits(p: Parser, needle: Seq<u8>)
    ensures
        match p.read_until(needle) {
            (rest, Some(bytes)) => {
                &&& bytes + rest.buf == p.buf
                &&& search::first_at(bytes, needle, bytes.len() - needle.len())
            },
            (rest, None) => rest == p && search::absent(p.buf, needle),
        },
{
    search::lemma_position(p.buf, needle);
    if let Some(at) = search::position(p.buf, needle) {
        let end = at + needle.len();
        let bytes = p.buf.take(end);
        let rest = p.buf.skip(end);
        assert(bytes + rest =~= p.buf);
        search::lemma_occurs_before(bytes, rest, needle, at);
        assert forall|before: int| 0 <= before < at implies !#[trigger] search::occurs_at(
            bytes,
            needle,
            before,
        ) by {
            search::lemma_occurs_before(bytes, rest, needle, before);
        }
    }
}

/// What a needle was found in is found again when more bytes have arrived.
pub proof fn law_read_until_extended(p: Parser, needle: Seq<u8>, more: Seq<u8>)
    requires
        p.read_until(needle).1 is Some,
    ensures
        p.extended(more).read_until(needle) == (
            p.read_until(needle).0.extended(more),
            p.read_until(needle).1,
        ),
{
    search::lemma_position(p.buf, needle);
    search::lemma_position_extended(p.buf, more, needle);
    let end = search::position(p.buf, needle)->0 + needle.len();
    assert((p.buf + more).take(end) =~= p.buf.take(end));
    assert((p.buf + more).skip(end) =~= p.buf.skip(end) + more);
}

/// Reading up to a boundary loses nothing: the bytes that are returned and those that stay are
/// the bytes that were there. No delimiter is among those that are returned. Where one was found
/// the rest begins with it, and where none was nothing is left.
pub proof fn law_read_until_boundary_splits(p: Parser)
    ensures
        ({
            let (rest, bytes, found) = p.read_until_boundary();
            &&& bytes + rest.buf == p.buf
            &&& search::absent(bytes, p.delimiter())
            &&& found is Some ==> search::first_at(rest.buf, p.delimiter(), 0)
            &&& found is None ==> rest.buf.len() == 0
            &&& rest == p.holding(rest.buf)
        }),
{
    let needle = p.delimiter();
    search::lemma_position(p.buf, needle);
    match search::position(p.buf, needle) {
        Some(at) => {
            let bytes = p.buf.take(at);
            let rest = p.buf.skip(at);
            assert(bytes + rest =~= p.buf);
            search::lemma_absent_before(bytes, rest, needle, at);
            search::lemma_first_behind(bytes, rest, needle, at);
        },
        None => {
            assert(p.buf + Seq::<u8>::empty() =~= p.buf);
        },
    }
}

/// Asked again without anything new, a parser that waits for more of the payload waits on, and
/// is unchanged.
pub proof fn law_waiting_is_stable<E>(p: Parser, input: Input<E>)
    requires
        p.state != State::Body,
        input is Poll || p.state != State::Eof,
        p.poll_part(input).1 is Extend,
    ensures
        p.poll_part(input).0.poll_part(Input::<E>::Poll) == (
            p.poll_part(input).0,
            PartPoll::<E>::Extend,
        ),
{
    let q = p.poll_part(input).0;
    lemma_waiting::<E>(p, input);
    if q.buf.len() != 0 {
        assert(q.next_part::<E>() == q.open_part::<E>());
    }
}

/// Where a header section is incomplete nothing is read of it, and it is within bounds.
proof fn lemma_incomplete(p: Parser)
    ensures
        p.read_headers().1 is Incomplete ==> p.read_headers().0 == p && p.buf.len()
            <= MAX_HEADER_SECTION_SIZE,
{
    if let (rest, Some(bytes)) = p.read_until(parser::blank_line()) {
        section::lemma_section_decided(
            section::parsed_section(bytes, section::MAX_HEADERS as nat),
        );
    }
}

/// A parser that waits for more of the payload is before a boundary with nothing in its buffer,
/// or before a header section of which it has the beginning.
proof fn lemma_waiting<E>(p: Parser, input: Input<E>)
    requires
        p.state != State::Body,
        input is Poll || p.state != State::Eof,
        p.poll_part(input).1 is Extend,
    ensures
        ({
            let q = p.poll_part(input).0;
            ||| q.state == State::Skip && q.buf.len() == 0
            ||| q.state == State::Headers && q.read_headers() == (q, Outcome::Incomplete)
        }),
{
    lemma_incomplete(p);
    if let Input::Chunk(chunk) = input {
        let e = p.extended(chunk);
        lemma_incomplete(e);
        lemma_incomplete(e.skip_until_boundary(false).0.at(State::Headers));
    } else if p.buf.len() != 0 {
        lemma_incomplete(p.skip_until_boundary(false).0.at(State::Headers));
    } else {
        search::lemma_position(p.buf, parser::blank_line());
    }
}

/// While it waits for more of the payload, a parser never holds more than the most bytes of a
/// header section.
pub proof fn law_waiting_is_bounded<E>(p: Parser, input: Input<E>)
    requires
        p.state != State::Body,
        input is Poll || p.state != State::Eof,
        p.poll_part(input).1 is Extend,
    ensures
        p.poll_part(input).0.buf.len() <= MAX_HEADER_SECTION_SIZE,
{
    lemma_waiting(p, input);
    lemma_incomplete(p.poll_part(input).0);
}

/// A part whose body waits for more of the payload has nothing in the buffer; asked again, it
/// waits on, and is unchanged.
pub proof fn law_body_waiting_is_stable<E>(p: Parser, done: bool, input: Input<E>)
    requires
        p.poll_body(done, input).1 is Extend,
    ensures
        p.poll_body(done, input).0 == p,
        p.buf.len() == 0,
        p.poll_body(done, Input::<E>::Poll) == (p, BodyPoll::<E>::Extend),
{
}

/// Where no part comes any more the parser is at the final boundary, and it stays there: no
/// further request gives a part or asks for more of the payload.
pub proof fn law_end_is_final<E>(p: Parser, input: Input<E>)
    requires
        p.state != State::Body,
        input is Poll || p.state != State::Eof,
        p.poll_part(input).1 is End,
    ensures
        p.poll_part(input).0.state == State::Eof,
        p.poll_part(input).0.poll_part(Input::<E>::Poll) == (
            p.poll_part(input).0,
            PartPoll::<E>::End,
        ),
{
}

/// A part that is done gives no more bytes, and takes none from the parser.
pub proof fn law_done_is_final<E>(p: Parser, input: Input<E>)
    ensures
        p.poll_body(true, input) == (p, BodyPoll::<E>::End),
{
}

/// A part that was read to its end may be released at any time: whatever the parser is doing then,
/// it goes on with it, be it in the body of a later part.
pub proof fn law_late_release<E>(p: Parser, done: bool, input: Input<E>)
    ensures
        p.released(true).poll_part(input) == p.poll_part(input),
        p.released(true).poll_body(done, input) == p.poll_body(done, input),
{
}

/// An error of the payload, and its end, change nothing: what was waited for is waited for still.
pub proof fn law_failure_changes_nothing<E>(p: Parser, error: E)
    ensures
        p.poll_part(Input::Failed(error)) == (p, PartPoll::Upstream(error)),
        p.poll_part(Input::<E>::End) == (p, PartPoll::<E>::UnexpectedEof),
        p.poll_body(false, Input::Failed(error)) == (p, BodyPoll::Upstream(error)),
        p.poll_body(false, Input::<E>::End) == (p, BodyPoll::<E>::UnexpectedEof),
{
}

/// No step changes the boundary.
pub proof fn law_boundary_is_kept<E>(p: Parser, done: bool, input: Input<E>)
    ensures
        p.poll_part(input).0.boundary == p.boundary,
        p.poll_body(done, input).0.boundary == p.boundary,
{
}

/// A part is handed out exactly when the parser enters a body, and a body is left exactly when
/// its last bytes are handed out.
pub proof fn law_body_state<E>(p: Parser, input: Input<E>)
    ensures
        p.state != State::Body && (input is Poll || p.state != State::Eof) ==> (
        p.poll_part(input).0.state == State::Body <==> p.poll_part(input).1 matches PartPoll::Section(
            Outcome::Fields(_),
        )),
        p.state == State::Body ==> (p.poll_body(false, input).0.state != State::Body <==> (
        p.poll_body(false, input).1 matches BodyPoll::Chunk { bytes, last } && last)),
{
}

/// The boundary that header fields have is that of the media type that they state: where they
/// state one, its boundary is looked up, and where they state none, there is no `Content-Type` or
/// it cannot be parsed.
pub proof fn law_boundary_of_content_type(fields: Fields)
    ensures
        boundary::fields_boundary(fields) == match multipart::content_type_of(fields) {
            Some(mime) => boundary::mime_boundary(mime),
            None => if fields.dom().contains(boundary::content_type_name()) {
                Err(InvalidBoundary::ParseContentType)
            } else {
                Err(InvalidBoundary::NoContentType)
            },
        },
{
}

/// The values of the fields that have this name, in lower case, in the order in which they were
/// sent.
pub open spec fn values_of(raw: Seq<(Seq<char>, Seq<u8>)>, name: Seq<char>) -> Seq<Seq<u8>>
    decreases raw.len(),
{
    if raw.len() == 0 {
        Seq::empty()
    } else if section::lower(raw.last().0) == name {
        values_of(raw.drop_last(), name).push(raw.last().1)
    } else {
        values_of(raw.drop_last(), name)
    }
}

/// The values of the fields that have this name, in lower case, in the order in which they were
/// sent, of the fields as they were parsed.
pub open spec fn sent_under(raw: Seq<RawHeader>, name: Seq<char>) -> Seq<Seq<u8>>
    decreases raw.len(),
{
    if raw.len() == 0 {
        Seq::empty()
    } else if section::lower(raw.last().name@) == name {
        sent_under(raw.drop_last(), name).push(raw.last().value@)
    } else {
        sent_under(raw.drop_last(), name)
    }
}

/// Fields as they were parsed have the values of the fields that they stand for.
pub(crate) proof fn lemma_sent_under(raw: Seq<RawHeader>)
    ensures
        forall|name: Seq<char>| #[trigger]
            sent_under(raw, name) == values_of(section::raw_fields(raw), name),
    decreases raw.len(),
{
    let sent = section::raw_fields(raw);
    if raw.len() > 0 {
        lemma_sent_under(raw.drop_last());
        assert(sent.drop_last() =~= section::raw_fields(raw.drop_last()));
        assert(sent.last() == (raw.last().name@, raw.last().value@));
    }
    assert forall|name: Seq<char>| #[trigger] sent_under(raw, name) == values_of(sent, name) by {
        if raw.len() > 0 {
            assert(sent_under(raw.drop_last(), name) == values_of(sent.drop_last(), name));
        }
    }
}

/// A header section gives fields exactly when each of its fields has a name and a value. It then
/// has each name that was sent, in lower case, with the values that were sent under it, in their
/// order, and no other.
pub proof fn law_collected(raw: Seq<(Seq<char>, Seq<u8>)>)
    ensures
        section::collected(raw) is Fields <==> forall|i: int|
            0 <= i < raw.len() ==> section::valid_name((#[trigger] raw[i]).0)
                && section::valid_value(raw[i].1),
        section::collected(raw) matches Outcome::Fields(all) ==> forall|name: Seq<char>|
            {
                &&& #[trigger] all.dom().contains(name) <==> values_of(raw, name).len() > 0
                &&& all.dom().contains(name) ==> all[name] == values_of(raw, name)
            },
    decreases raw.len(),
{
    if raw.len() > 0 {
        let before = raw.drop_last();
        law_collected(before);
        assert forall|i: int| 0 <= i < before.len() implies #[trigger] before[i] == raw[i] by {}
        if section::collected(raw) is Fields {
            assert forall|i: int| 0 <= i < raw.len() implies section::valid_name(
                (#[trigger] raw[i]).0,
            ) && section::valid_value(raw[i].1) by {
                if i < before.len() {
                    assert(before[i] == raw[i]);
                }
            }
        }
        if forall|i: int|
            0 <= i < raw.len() ==> section::valid_name((#[trigger] raw[i]).0)
                && section::valid_value(raw[i].1) {
            assert(raw.last() == raw[raw.len() - 1]);
        }
    }
}

} // verus!
