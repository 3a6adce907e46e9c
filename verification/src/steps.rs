//! What each step of the parser does, said of the bytes that go in and come out: where a byte
//! string stands is told byte by byte, and every marker is written out.
use vstd::prelude::*;

use crate::parser::{BodyPoll, Input, Parser, PartPoll, State};
use crate::section::Outcome;
use crate::{parser, search, section};

verus! {

/// The bytes of `needle` are those of `bytes` from index `at` on.
pub open spec fn stands_at(bytes: Seq<u8>, needle: Seq<u8>, at: int) -> bool {
    &&& 0 <= at
    &&& at + needle.len() <= bytes.len()
    &&& forall|i: int| 0 <= i < needle.len() ==> bytes[at + i] == #[trigger] needle[i]
}

/// `at` is where `needle` stands in `bytes`, and it stands nowhere before.
pub open spec fn stands_first_at(bytes: Seq<u8>, needle: Seq<u8>, at: int) -> bool {
    &&& stands_at(bytes, needle, at)
    &&& forall|before: int| 0 <= before < at ==> !#[trigger] stands_at(bytes, needle, before)
}

/// `needle` stands nowhere in `bytes`.
pub open spec fn stands_nowhere(bytes: Seq<u8>, needle: Seq<u8>) -> bool {
    forall|at: int| !#[trigger] stands_at(bytes, needle, at)
}

/// Two hyphens and the whole boundary.
pub open spec fn marker(boundary: Seq<u8>) -> Seq<u8> {
    seq![45u8, 45u8] + boundary
}

/// What the parser has to look at: what is in the buffer, and the chunk that came, if one did.
pub open spec fn at_hand<E>(p: Parser, input: Input<E>) -> Seq<u8> {
    match input {
        Input::Chunk(chunk) => p.buf + chunk,
        _ => p.buf,
    }
}

/// There is something to look at: a chunk came, or the buffer holds bytes.
pub open spec fn looks<E>(p: Parser, input: Input<E>) -> bool {
    input is Chunk || input is Poll && p.buf.len() > 0
}

proof fn lemma_stands(bytes: Seq<u8>, needle: Seq<u8>, at: int)
    ensures
        stands_at(bytes, needle, at) == search::occurs_at(bytes, needle, at),
{
    if search::occurs_at(bytes, needle, at) {
        let part = bytes.subrange(at, at + needle.len());
        assert forall|i: int| 0 <= i < needle.len() implies bytes[at + i] == #[trigger] needle[i] by {
            assert(part[i] == bytes[at + i]);
        }
    }
    if stands_at(bytes, needle, at) {
        assert(bytes.subrange(at, at + needle.len()) =~= needle);
    }
}

proof fn lemma_all_stands(bytes: Seq<u8>, needle: Seq<u8>)
    ensures
        forall|at: int| #[trigger]
            stands_at(bytes, needle, at) == search::occurs_at(bytes, needle, at),
        forall|at: int| #[trigger]
            search::occurs_at(bytes, needle, at) == stands_at(bytes, needle, at),
{
    assert forall|at: int| #[trigger]
        stands_at(bytes, needle, at) == search::occurs_at(bytes, needle, at) by {
        lemma_stands(bytes, needle, at);
    }
    assert forall|at: int| #[trigger]
        search::occurs_at(bytes, needle, at) == stands_at(bytes, needle, at) by {
        lemma_stands(bytes, needle, at);
    }
}

/// `position` is where a needle stands first.
proof fn lemma_found(bytes: Seq<u8>, needle: Seq<u8>)
    ensures
        match search::position(bytes, needle) {
            Some(at) => stands_first_at(bytes, needle, at),
            None => stands_nowhere(bytes, needle),
        },
        forall|at: int| #[trigger]
            stands_first_at(bytes, needle, at) ==> search::position(bytes, needle) == Some(at),
{
    lemma_all_stands(bytes, needle);
    search::lemma_position(bytes, needle);
    assert forall|at: int| #[trigger] stands_first_at(bytes, needle, at) implies search::position(
        bytes,
        needle,
    ) == Some(at) by {
        search::lemma_position_is(bytes, needle, at);
    }
}

/// Of a parser each part can be changed, and the others stay: where it stands, what it holds, and
/// the bytes behind those. It begins with the given boundary, nothing in its buffer, and skips. It
/// looks for two hyphens with all bytes of the boundary behind them.
pub proof fn law_parts_of_a_parser(p: Parser, state: State, bytes: Seq<u8>)
    ensures
        p.at(state).boundary == p.boundary && p.at(state).buf == p.buf,
        p.at(state).state == state,
        p.holding(bytes).boundary == p.boundary && p.holding(bytes).state == p.state,
        p.holding(bytes).buf == bytes,
        p.extended(bytes).boundary == p.boundary && p.extended(bytes).state == p.state,
        p.extended(bytes).buf == p.buf + bytes,
        p.released(true) == p,
        p.released(false).boundary == p.boundary && p.released(false).buf == p.buf,
        p.released(false).state == State::Skip,
        Parser::start(bytes).boundary == bytes,
        Parser::start(bytes).state == State::Skip,
        Parser::start(bytes).buf.len() == 0,
        p.delimiter().len() == p.boundary.len() + 2,
        p.delimiter()[0] == 45 && p.delimiter()[1] == 45,
        forall|i: int|
            0 <= i < p.boundary.len() ==> p.delimiter()[i + 2] == #[trigger] p.boundary[i],
        p.delimiter() == marker(p.boundary),
        parser::newline() == seq![10u8],
        parser::blank_line() == seq![13u8, 10u8, 13u8, 10u8],
        parser::hyphens() == seq![45u8, 45u8],
{
    assert(p.delimiter() =~= marker(p.boundary));
}

/// Reading up to a needle takes off the bytes up to the end of its first occurrence, and keeps all
/// others in their order. Where the needle stands nowhere nothing is taken.
pub proof fn law_read_until_takes(p: Parser, needle: Seq<u8>)
    ensures
        ({
            let (q, read) = p.read_until(needle);
            &&& q.boundary == p.boundary
            &&& q.state == p.state
            &&& match read {
                Some(bytes) => {
                    &&& bytes + q.buf == p.buf
                    &&& stands_first_at(p.buf, needle, bytes.len() - needle.len())
                },
                None => q.buf == p.buf && stands_nowhere(p.buf, needle),
            }
        }),
{
    lemma_found(p.buf, needle);
    if let Some(at) = search::position(p.buf, needle) {
        let end = at + needle.len();
        assert(p.buf.take(end) + p.buf.skip(end) =~= p.buf);
    }
}

/// Reading up to a boundary takes off the bytes before the first two hyphens that the whole
/// boundary follows, and keeps all others. The boundary is the final one exactly if two hyphens
/// follow it. Where there is no boundary all bytes are taken.
pub proof fn law_read_until_boundary_takes(p: Parser)
    ensures
        ({
            let (q, bytes, found) = p.read_until_boundary();
            let mark = marker(p.boundary);
            &&& q.boundary == p.boundary
            &&& q.state == p.state
            &&& bytes + q.buf == p.buf
            &&& match found {
                Some(eof) => {
                    &&& stands_first_at(p.buf, mark, bytes.len() as int)
                    &&& eof <==> stands_at(p.buf, mark + seq![45u8, 45u8], bytes.len() as int)
                },
                None => q.buf.len() == 0 && stands_nowhere(p.buf, mark),
            }
        }),
{
    let mark = marker(p.boundary);
    assert(p.delimiter() =~= mark);
    lemma_found(p.buf, mark);
    match search::position(p.buf, mark) {
        Some(at) => {
            assert(p.buf.take(at) + p.buf.skip(at) =~= p.buf);
            lemma_closes(p, at);
        },
        None => {
            assert(p.buf + Seq::<u8>::empty() =~= p.buf);
        },
    }
}

/// A boundary is a final one exactly if two hyphens follow it.
proof fn lemma_closes(p: Parser, at: int)
    requires
        stands_at(p.buf, marker(p.boundary), at),
    ensures
        p.closes(p.buf.skip(at)) <==> stands_at(
            p.buf,
            marker(p.boundary) + seq![45u8, 45u8],
            at,
        ),
{
    let mark = marker(p.boundary);
    let n = mark.len() as int;
    let closing = mark + seq![45u8, 45u8];
    assert(p.delimiter() =~= mark);
    let line = p.buf.skip(at);
    if stands_at(p.buf, closing, at) {
        assert(closing[n] == 45 && closing[n + 1] == 45);
        assert(p.buf[at + n] == closing[n]);
        assert(p.buf[at + (n + 1)] == closing[n + 1]);
        assert(line[n] == 45 && line[n + 1] == 45);
    }
    if p.closes(line) {
        assert(line[n] == p.buf[at + n] && line[n + 1] == p.buf[at + n + 1]);
        assert forall|i: int| 0 <= i < closing.len() implies p.buf[at + i]
            == #[trigger] closing[i] by {
            if i < n {
                assert(closing[i] == mark[i]);
            }
        }
    }
}

/// Skipping to a boundary tells the same of it as reading up to it, and passes over the same
/// bytes. Of the boundary's line nothing goes if the boundary is to be kept, or if the line has no
/// end yet; else it goes up to and with its first line end.
pub proof fn law_skip_until_boundary_skips(p: Parser, keep_boundary: bool)
    ensures
        ({
            let (q, found) = p.skip_until_boundary(keep_boundary);
            let (r, bytes, boundary) = p.read_until_boundary();
            &&& found == boundary
            &&& q.boundary == p.boundary
            &&& q.state == p.state
            &&& keep_boundary || found is None ==> q.buf == r.buf
            &&& !keep_boundary && found is Some ==> {
                ||| stands_nowhere(r.buf, seq![10u8]) && q.buf == r.buf
                ||| exists|line: Seq<u8>|
                    line.len() > 0 && #[trigger] (line + q.buf) == r.buf && line.last() == 10
                        && forall|i: int| 0 <= i < line.len() - 1 ==> #[trigger] line[i] != 10
            }
        }),
{
    let r = p.read_until_boundary().0;
    let newline = seq![10u8];
    assert(parser::newline() =~= newline);
    law_read_until_takes(r, newline);
    let (rest, read) = r.read_until(newline);
    if let Some(line) = read {
        assert(newline[0] == 10);
        assert(r.buf[line.len() - 1] == line.last());
        assert(stands_at(r.buf, newline, line.len() - 1));
        assert(r.buf[line.len() - 1 + 0] == newline[0]);
        assert forall|i: int| 0 <= i < line.len() - 1 implies #[trigger] line[i] != 10 by {
            assert(r.buf[i] == line[i]);
            if r.buf[i] == 10 {
                assert(stands_at(r.buf, newline, i));
            }
        }
        assert(line + rest.buf == r.buf);
    }
}

/// A header section goes up to its first empty line. Of at most 16384 bytes, it comes to what its
/// bytes are parsed into, with room for 32 fields; of more, it is an overflow. What is behind it
/// stays.
pub proof fn law_section_arrived(p: Parser, at: int)
    requires
        stands_first_at(p.buf, seq![13u8, 10u8, 13u8, 10u8], at),
    ensures
        p.read_headers().0 == (Parser {
            boundary: p.boundary,
            state: p.state,
            buf: p.buf.subrange(at + 4, p.buf.len() as int),
        }),
        p.read_headers().1 == if at + 4 <= 16384 {
            section::section_outcome(section::parsed_section(p.buf.subrange(0, at + 4), 32))
        } else {
            Outcome::Overflow
        },
{
    let blank = seq![13u8, 10u8, 13u8, 10u8];
    assert(parser::blank_line() =~= blank);
    lemma_found(p.buf, blank);
    assert(p.buf.take(at + 4) =~= p.buf.subrange(0, at + 4));
    assert(p.buf.skip(at + 4) =~= p.buf.subrange(at + 4, p.buf.len() as int));
}

/// Before its first empty line has arrived a header section is incomplete, as long as there are at
/// most 16384 bytes of it; with more it is an overflow. All of it stays.
pub proof fn law_section_missing(p: Parser)
    requires
        stands_nowhere(p.buf, seq![13u8, 10u8, 13u8, 10u8]),
    ensures
        p.read_headers().0 == p,
        p.buf.len() <= 16384 ==> p.read_headers().1 is Incomplete,
        p.buf.len() > 16384 ==> p.read_headers().1 is Overflow,
{
    let blank = seq![13u8, 10u8, 13u8, 10u8];
    assert(parser::blank_line() =~= blank);
    lemma_found(p.buf, blank);
}

/// `result` is what a parser that stands before the header section `bytes` makes of it: a part,
/// with which its body begins; an error; or the demand for more.
pub open spec fn opens<E>(boundary: Seq<u8>, bytes: Seq<u8>, result: (Parser, PartPoll<E>)) -> bool {
    let (rest, outcome) = (Parser { boundary, state: State::Headers, buf: bytes }).read_headers();
    &&& result.0.boundary == boundary
    &&& result.0.buf == rest.buf
    &&& result.0.state == State::Body <==> outcome is Fields
    &&& result.0.state != State::Body ==> result.0.state == State::Headers
    &&& result.1 is Extend <==> outcome is Incomplete
    &&& !(outcome is Incomplete) ==> result.1 == PartPoll::<E>::Section(outcome)
}

proof fn lemma_opens<E>(p: Parser)
    requires
        p.state == State::Headers,
    ensures
        opens(p.boundary, p.buf, p.open_part::<E>()),
{
    law_read_until_takes(p, parser::blank_line());
    assert(p == (Parser { boundary: p.boundary, state: State::Headers, buf: p.buf }));
}

/// A parser that stands before a header section reads it, out of all that is at hand.
pub proof fn law_part_before_section<E>(p: Parser, input: Input<E>)
    requires
        p.state == State::Headers,
        looks(p, input),
    ensures
        opens(p.boundary, at_hand(p, input), p.poll_part(input)),
{
    if let Input::Chunk(chunk) = input {
        lemma_opens::<E>(p.extended(chunk));
    } else {
        lemma_opens::<E>(p);
    }
}

/// A parser that skips, and finds no boundary in all that is at hand, passes over it and asks for
/// more.
pub proof fn law_part_without_boundary<E>(p: Parser, input: Input<E>)
    requires
        p.state == State::Skip,
        looks(p, input),
        stands_nowhere(at_hand(p, input), marker(p.boundary)),
    ensures
        p.poll_part(input).0 == (Parser {
            boundary: p.boundary,
            state: State::Skip,
            buf: Seq::empty(),
        }),
        p.poll_part(input).1 is Extend,
{
    let q = if let Input::Chunk(chunk) = input {
        p.extended(chunk)
    } else {
        p
    };
    assert(q.delimiter() =~= marker(p.boundary));
    lemma_found(q.buf, marker(p.boundary));
}

/// A parser that skips, and finds the final boundary first, is at the end.
pub proof fn law_part_at_final_boundary<E>(p: Parser, input: Input<E>, at: int)
    requires
        p.state == State::Skip,
        looks(p, input),
        stands_first_at(at_hand(p, input), marker(p.boundary), at),
        stands_at(at_hand(p, input), marker(p.boundary) + seq![45u8, 45u8], at),
    ensures
        p.poll_part(input).0.state == State::Eof,
        p.poll_part(input).1 is End,
{
    let q = if let Input::Chunk(chunk) = input {
        p.extended(chunk)
    } else {
        p
    };
    assert(q.delimiter() =~= marker(p.boundary));
    lemma_found(q.buf, marker(p.boundary));
    lemma_closes(q, at);
}

/// A parser that skips, and finds a boundary first that is not the final one, reads a header
/// section behind the first line end from there on.
pub proof fn law_part_behind_boundary<E>(p: Parser, input: Input<E>, at: int, end: int)
    requires
        p.state == State::Skip,
        looks(p, input),
        stands_first_at(at_hand(p, input), marker(p.boundary), at),
        !stands_at(at_hand(p, input), marker(p.boundary) + seq![45u8, 45u8], at),
        at <= end < at_hand(p, input).len(),
        at_hand(p, input)[end] == 10,
        forall|i: int| at <= i < end ==> #[trigger] at_hand(p, input)[i] != 10,
    ensures
        opens(
            p.boundary,
            at_hand(p, input).subrange(end + 1, at_hand(p, input).len() as int),
            p.poll_part(input),
        ),
{
    let all = at_hand(p, input);
    let q = if let Input::Chunk(chunk) = input {
        p.extended(chunk)
    } else {
        p
    };
    let newline = seq![10u8];
    assert(parser::newline() =~= newline);
    assert(q.delimiter() =~= marker(p.boundary));
    lemma_found(q.buf, marker(p.boundary));
    lemma_closes(q, at);
    let from = all.skip(at);
    assert(stands_first_at(from, newline, end - at)) by {
        assert(newline[0] == 10);
        assert(from[end - at] == all[end]);
        assert forall|before: int| 0 <= before < end - at implies !#[trigger] stands_at(
            from,
            newline,
            before,
        ) by {
            assert(from[before] == all[at + before]);
            if stands_at(from, newline, before) {
                assert(from[before + 0] == newline[0]);
            }
        }
    }
    lemma_found(from, newline);
    let rest = all.subrange(end + 1, all.len() as int);
    assert(from.skip(end - at + 1) =~= rest);
    let headed = q.at(State::Headers).holding(rest);
    assert(q.skip_until_boundary(false) == (q.holding(rest), Some(false)));
    assert(p.poll_part(input) == headed.open_part::<E>());
    lemma_opens::<E>(headed);
}

/// A parser that skips, and finds a boundary first whose line has no end yet, reads a header
/// section from the boundary on.
pub proof fn law_part_at_unended_line<E>(p: Parser, input: Input<E>, at: int)
    requires
        p.state == State::Skip,
        looks(p, input),
        stands_first_at(at_hand(p, input), marker(p.boundary), at),
        !stands_at(at_hand(p, input), marker(p.boundary) + seq![45u8, 45u8], at),
        forall|i: int| at <= i < at_hand(p, input).len() ==> #[trigger] at_hand(p, input)[i] != 10,
    ensures
        opens(
            p.boundary,
            at_hand(p, input).subrange(at, at_hand(p, input).len() as int),
            p.poll_part(input),
        ),
{
    let all = at_hand(p, input);
    let q = if let Input::Chunk(chunk) = input {
        p.extended(chunk)
    } else {
        p
    };
    let newline = seq![10u8];
    assert(parser::newline() =~= newline);
    assert(q.delimiter() =~= marker(p.boundary));
    lemma_found(q.buf, marker(p.boundary));
    lemma_closes(q, at);
    let from = all.skip(at);
    assert(stands_nowhere(from, newline)) by {
        assert(newline[0] == 10);
        assert forall|before: int| !#[trigger] stands_at(from, newline, before) by {
            if stands_at(from, newline, before) {
                assert(from[before + 0] == newline[0]);
                assert(from[before] == all[at + before]);
            }
        }
    }
    lemma_found(from, newline);
    assert(from =~= all.subrange(at, all.len() as int));
    let headed = q.at(State::Headers).holding(from);
    assert(q.skip_until_boundary(false) == (q.holding(from), Some(false)));
    assert(p.poll_part(input) == headed.open_part::<E>());
    lemma_opens::<E>(headed);
}

/// A request with nothing at hand asks for more of the payload, and changes nothing. At the end it
/// is answered with the end.
pub proof fn law_nothing_at_hand<E>(p: Parser)
    ensures
        p.buf.len() == 0 && p.state != State::Eof ==> p.poll_part(Input::<E>::Poll) == (
            p,
            PartPoll::<E>::Extend,
        ),
        p.state == State::Eof ==> p.poll_part(Input::<E>::Poll) == (p, PartPoll::<E>::End),
        p.buf.len() == 0 ==> p.poll_body(false, Input::<E>::Poll) == (p, BodyPoll::<E>::Extend),
{
}

/// Of a body all bytes at hand before the first boundary are handed out, in their order, and all
/// others stay. They are the last exactly if there is a boundary; the parser is then at the end if
/// two hyphens follow the boundary, and else skips to the next part.
pub proof fn law_body_bytes<E>(p: Parser, input: Input<E>)
    requires
        looks(p, input),
    ensures
        ({
            let all = at_hand(p, input);
            let mark = marker(p.boundary);
            let (q, poll) = p.poll_body(false, input);
            &&& q.boundary == p.boundary
            &&& poll matches BodyPoll::Chunk { bytes, last } && {
                &&& bytes + q.buf == all
                &&& last <==> !stands_nowhere(all, mark)
                &&& last ==> stands_first_at(all, mark, bytes.len() as int)
                &&& last ==> (q.state == State::Eof <==> stands_at(
                    all,
                    mark + seq![45u8, 45u8],
                    bytes.len() as int,
                ))
                &&& last && q.state != State::Eof ==> q.state == State::Skip
                &&& !last ==> q.buf.len() == 0 && q.state == p.state
            }
        }),
{
    let q = if let Input::Chunk(chunk) = input {
        p.extended(chunk)
    } else {
        p
    };
    law_read_until_boundary_takes(q);
    if q.read_until_boundary().2 is Some {
        let at = q.read_until_boundary().1.len() as int;
        assert(stands_at(q.buf, marker(p.boundary), at));
    } else {
        assert(q.read_until_boundary().1 =~= q.buf);
    }
}

} // verus!
