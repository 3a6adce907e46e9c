//! Whole messages: what is sent part by part is read part by part, however it arrives.
use vstd::prelude::*;

use crate::parser::{BodyPoll, Input, Parser, PartPoll, State, MAX_HEADER_SECTION_SIZE};
use crate::section::{Fields, Outcome, MAX_HEADERS};
use crate::session::PartRun;
use crate::{parser, search, section, session, steps};

verus! {

/// A part as it is sent behind a delimiter.
pub struct SentPart {
    /// The rest of the boundary's line.
    pub line: Seq<u8>,
    /// The header section, with the empty line.
    pub head: Seq<u8>,
    /// The body.
    pub body: Seq<u8>,
}

/// What a header section comes to.
pub open spec fn head_outcome(head: Seq<u8>) -> Outcome {
    section::section_outcome(section::parsed_section(head, MAX_HEADERS as nat))
}

/// The rest of a boundary's line: it ends with the first line end, and does not make the
/// boundary a final one.
pub open spec fn is_line_rest(line: Seq<u8>) -> bool {
    &&& line.len() > 0
    &&& line.last() == 10
    &&& forall|i: int| 0 <= i < line.len() - 1 ==> #[trigger] line[i] != 10
    &&& !(line.len() >= 2 && line[0] == 45 && line[1] == 45)
}

impl SentPart {
    /// The part can be told from what is around it: its header section ends with its first empty
    /// line, is not too long and has fields, and no delimiter begins within its body.
    pub open spec fn well_formed(self, delimiter: Seq<u8>) -> bool {
        &&& is_line_rest(self.line)
        &&& search::first_at(self.head, parser::blank_line(), self.head.len() - 4)
        &&& self.head.len() <= MAX_HEADER_SECTION_SIZE
        &&& head_outcome(self.head) is Fields
        &&& search::first_at(self.body + delimiter, delimiter, self.body.len() as int)
    }

    /// What is read of the part: its header fields and its body.
    pub open spec fn content(self) -> (Fields, Seq<u8>) {
        (head_outcome(self.head)->Fields_0, self.body)
    }
}

/// A message: the parts, each behind a delimiter, and the final boundary.
pub open spec fn message(delimiter: Seq<u8>, parts: Seq<SentPart>) -> Seq<u8>
    decreases parts.len(),
{
    if parts.len() == 0 {
        delimiter + parser::hyphens()
    } else {
        let part = parts.first();
        delimiter + part.line + part.head + part.body + message(delimiter, parts.drop_first())
    }
}

/// Between two of the pending chunks, and before the first, there is no cut with more than `low`
/// and fewer than `high` bytes behind it.
pub open spec fn uncut(pending: Seq<Seq<u8>>, low: int, high: int) -> bool {
    forall|j: int|
        0 <= j < pending.len() ==> !(low < (#[trigger] pending.skip(j)).flatten().len() < high)
}

/// No cut goes through a delimiter or the rest of its line, or the hyphens of the final boundary,
/// when `tail` follows the message.
pub open spec fn well_cut(
    pending: Seq<Seq<u8>>,
    delimiter: Seq<u8>,
    parts: Seq<SentPart>,
    tail: Seq<u8>,
) -> bool
    decreases parts.len(),
{
    let length = message(delimiter, parts).len() + tail.len();
    if parts.len() == 0 {
        uncut(pending, tail.len() as int, length as int)
    } else {
        let part = parts.first();
        let head_at = length - delimiter.len() - part.line.len();
        &&& uncut(pending, head_at, length as int)
        &&& well_cut(pending, delimiter, parts.drop_first(), tail)
    }
}

proof fn lemma_uncut_suffix(pending: Seq<Seq<u8>>, from: int, low: int, high: int)
    requires
        uncut(pending, low, high),
        0 <= from <= pending.len(),
    ensures
        uncut(pending.skip(from), low, high),
{
    assert forall|j: int| 0 <= j < pending.skip(from).len() implies !(low < (
    #[trigger] pending.skip(from).skip(j)).flatten().len() < high) by {
        assert(pending.skip(from).skip(j) =~= pending.skip(from + j));
    }
}

proof fn lemma_well_cut_suffix(
    pending: Seq<Seq<u8>>,
    from: int,
    delimiter: Seq<u8>,
    parts: Seq<SentPart>,
    tail: Seq<u8>,
)
    requires
        well_cut(pending, delimiter, parts, tail),
        0 <= from <= pending.len(),
    ensures
        well_cut(pending.skip(from), delimiter, parts, tail),
    decreases parts.len(),
{
    let length = message(delimiter, parts).len() + tail.len();
    if parts.len() == 0 {
        lemma_uncut_suffix(pending, from, tail.len() as int, length as int);
    } else {
        let head_at = length - delimiter.len() - parts.first().line.len();
        lemma_uncut_suffix(pending, from, head_at, length as int);
        lemma_well_cut_suffix(pending, from, delimiter, parts.drop_first(), tail);
    }
}

/// Where a stretch of the bytes to come is not wholly in the buffer and no cut goes through it,
/// it begins behind the buffer.
proof fn lemma_stretch_behind(
    buf: Seq<u8>,
    pending: Seq<Seq<u8>>,
    at: int,
    length: int,
)
    requires
        0 <= at,
        0 < length,
        at + length <= buf.len() + pending.flatten().len(),
        uncut(
            pending,
            buf.len() + pending.flatten().len() - at - length,
            buf.len() + pending.flatten().len() - at,
        ),
        at + length > buf.len(),
    ensures
        pending.len() > 0,
        buf.len() <= at,
        pending.flatten() == pending[0] + pending.drop_first().flatten(),
        pending.drop_first() == pending.skip(1),
{
    if pending.len() > 0 {
        assert(pending.skip(0) =~= pending);
        assert(pending.drop_first() =~= pending.skip(1));
    }
}

/// The first needle, where it is wholly in the buffer, is found there.
proof fn lemma_first_in_buffer(buf: Seq<u8>, behind: Seq<u8>, needle: Seq<u8>, at: int)
    requires
        search::first_at(buf + behind, needle, at),
        at + needle.len() <= buf.len(),
    ensures
        search::first_at(buf, needle, at),
        search::position(buf, needle) == Some(at),
{
    search::lemma_occurs_before(buf, behind, needle, at);
    assert forall|before: int| 0 <= before < at implies !#[trigger] search::occurs_at(
        buf,
        needle,
        before,
    ) by {
        search::lemma_occurs_before(buf, behind, needle, before);
    }
    search::lemma_position_is(buf, needle, at);
}

/// The body of a part is what comes before the first delimiter, however it arrives, as long as no
/// cut goes through that delimiter. What follows, from the delimiter on, is left.
pub proof fn law_body_in_chunks(p: Parser, pending: Seq<Seq<u8>>, at: int)
    requires
        search::first_at(p.buf + pending.flatten(), steps::marker(p.boundary), at),
        uncut(
            pending,
            p.buf.len() + pending.flatten().len() - at - steps::marker(p.boundary).len(),
            p.buf.len() + pending.flatten().len() - at,
        ),
    ensures
        ({
            let body = session::run_body(p, Input::Poll, pending);
            let whole = p.buf + pending.flatten();
            &&& body.done
            &&& body.bytes == whole.take(at)
            &&& body.parser.buf + body.pending.flatten() == whole.skip(at)
            &&& body.parser.boundary == p.boundary
            &&& exists|j: int| 0 <= j <= pending.len() && body.pending == #[trigger] pending.skip(j)
        }),
{
    assert(p.delimiter() =~= steps::marker(p.boundary));
    session::lemma_drain(p, pending);
    lemma_drain_in_chunks(p, pending, at);
}

proof fn lemma_drain_in_chunks(p: Parser, pending: Seq<Seq<u8>>, at: int)
    requires
        search::first_at(p.buf + pending.flatten(), p.delimiter(), at),
        uncut(
            pending,
            p.buf.len() + pending.flatten().len() - at - p.delimiter().len(),
            p.buf.len() + pending.flatten().len() - at,
        ),
    ensures
        ({
            let body = session::drain(p, pending);
            let whole = p.buf + pending.flatten();
            &&& body.done
            &&& body.bytes == whole.take(at)
            &&& body.parser.buf + body.pending.flatten() == whole.skip(at)
            &&& body.parser.boundary == p.boundary
            &&& exists|j: int| 0 <= j <= pending.len() && body.pending == #[trigger] pending.skip(j)
        }),
    decreases pending.len(),
{
    let needle = p.delimiter();
    let whole = p.buf + pending.flatten();
    let body = session::drain(p, pending);
    if at + needle.len() <= p.buf.len() {
        lemma_first_in_buffer(p.buf, pending.flatten(), needle, at);
        assert(p.buf.take(at) =~= whole.take(at));
        assert(p.buf.skip(at) + pending.flatten() =~= whole.skip(at));
        assert(pending.skip(0) =~= pending);
    } else {
        lemma_stretch_behind(p.buf, pending, at, needle.len() as int);
        search::lemma_position(p.buf, needle);
        search::lemma_absent_before(p.buf, pending.flatten(), needle, at);
        search::lemma_first_behind(p.buf, pending.flatten(), needle, at);
        let rest = pending.drop_first();
        let next = p.holding(Seq::empty()).extended(pending[0]);
        assert(next.buf =~= pending[0]);
        assert(next.delimiter() == needle);
        let low = whole.len() - at - needle.len();
        lemma_uncut_suffix(pending, 1, low, whole.len() - at);
        lemma_drain_in_chunks(next, rest, at - p.buf.len());
        let more = session::drain(next, rest);
        assert(body.bytes == p.buf + more.bytes);
        assert(p.buf + pending.flatten().take(at - p.buf.len()) =~= whole.take(at));
        assert(pending.flatten().skip(at - p.buf.len()) =~= whole.skip(at));
        let j = choose|j: int| 0 <= j <= rest.len() && more.pending == #[trigger] rest.skip(j);
        assert(rest.skip(j) =~= pending.skip(j + 1));
    }
}

/// A parser that skips comes to hold the first delimiter and what follows it for a while, none of
/// it cut: returned are the parser then, the number of chunks used and of bytes passed over.
proof fn lemma_seek_delimiter(p: Parser, pending: Seq<Seq<u8>>, at: int, length: int) -> (found: (
    Parser,
    int,
    int,
))
    requires
        p.state == State::Skip,
        search::first_at(p.buf + pending.flatten(), p.delimiter(), at),
        p.delimiter().len() <= length,
        at + length <= p.buf.len() + pending.flatten().len(),
        uncut(
            pending,
            p.buf.len() + pending.flatten().len() - at - length,
            p.buf.len() + pending.flatten().len() - at,
        ),
    ensures
        ({
            let (q, used, passed) = found;
            &&& 0 <= used <= pending.len()
            &&& 0 <= passed <= at
            &&& q == p.holding(q.buf)
            &&& session::seek(p, pending) == session::seek(q, pending.skip(used))
            &&& q.buf + pending.skip(used).flatten() == (p.buf + pending.flatten()).skip(passed)
            &&& search::position(q.buf, p.delimiter()) == Some(at - passed)
            &&& at - passed + length <= q.buf.len()
        }),
    decreases pending.len(),
{
    let needle = p.delimiter();
    let whole = p.buf + pending.flatten();
    if at + length <= p.buf.len() {
        lemma_first_in_buffer(p.buf, pending.flatten(), needle, at);
        assert(pending.skip(0) =~= pending);
        assert(whole.skip(0) =~= whole);
        (p, 0, 0)
    } else {
        lemma_stretch_behind(p.buf, pending, at, length);
        search::lemma_position(p.buf, needle);
        search::lemma_absent_before(p.buf, pending.flatten(), needle, at);
        search::lemma_first_behind(p.buf, pending.flatten(), needle, at);
        let rest = pending.drop_first();
        let next = p.holding(Seq::empty()).extended(pending[0]);
        assert(next.buf =~= pending[0]);
        assert(next.delimiter() == needle);
        assert(p.next_part::<()>() == (p.holding(Seq::empty()), PartPoll::<()>::Extend));
        lemma_uncut_suffix(pending, 1, whole.len() - at - length, whole.len() - at);
        let (q, used, passed) = lemma_seek_delimiter(next, rest, at - p.buf.len(), length);
        assert(rest.skip(used) =~= pending.skip(used + 1));
        assert((next.buf + rest.flatten()).skip(passed) =~= whole.skip(passed + p.buf.len()));
        (q, used + 1, passed + p.buf.len())
    }
}

/// Behind a delimiter the rest of its line is read over: the header section comes next.
proof fn lemma_line<E>(p: Parser, at: int, line: Seq<u8>, behind: Seq<u8>)
    requires
        p.state == State::Skip,
        search::position(p.buf, p.delimiter()) == Some(at),
        p.buf.skip(at) == p.delimiter() + line + behind,
        is_line_rest(line),
        !p.boundary.contains(10),
    ensures
        p.next_part::<E>() == p.at(State::Headers).holding(behind).next_part::<E>(),
{
    let delimiter = p.delimiter();
    let from = p.buf.skip(at);
    let found = p.holding(from);
    let end = delimiter.len() + line.len() - 1;
    assert(!p.closes(from)) by {
        assert(from[delimiter.len() as int] == line[0]);
        if line.len() >= 2 {
            assert(from[delimiter.len() as int + 1] == line[1]);
        }
    }
    assert(search::first_at(from, parser::newline(), end)) by {
        assert(from.subrange(end, end + 1) =~= parser::newline());
        assert forall|before: int| 0 <= before < end implies !#[trigger] search::occurs_at(
            from,
            parser::newline(),
            before,
        ) by {
            if search::occurs_at(from, parser::newline(), before) {
                assert(from.subrange(before, before + 1)[0] == 10);
                assert(from[before] == 10);
                if before < delimiter.len() {
                    assert(delimiter[before] == 10);
                    if before >= 2 {
                        assert(p.boundary[before - 2] == 10);
                    }
                } else {
                    assert(line[before - delimiter.len()] == 10);
                }
            }
        }
    }
    search::lemma_position_is(from, parser::newline(), end);
    assert(from.skip(end + 1) =~= behind);
    assert(p.skip_until_boundary(false) == (p.holding(behind), Some(false)));
}

/// A header section is read, however it arrives; what follows it is left.
proof fn lemma_head(p: Parser, pending: Seq<Seq<u8>>, head: Seq<u8>, behind: Seq<u8>) -> (found: (
    Seq<u8>,
    int,
))
    requires
        p.state == State::Headers,
        p.buf + pending.flatten() == head + behind,
        search::first_at(head, parser::blank_line(), head.len() - 4),
        head.len() <= MAX_HEADER_SECTION_SIZE,
        head_outcome(head) is Fields,
    ensures
        ({
            let (buf, used) = found;
            &&& 0 <= used <= pending.len()
            &&& session::seek(p, pending) == (PartRun {
                parser: p.at(State::Body).holding(buf),
                poll: PartPoll::Section(head_outcome(head)),
                pending: pending.skip(used),
            })
            &&& buf + pending.skip(used).flatten() == behind
        }),
    decreases pending.len(),
{
    let blank = parser::blank_line();
    let whole = p.buf + pending.flatten();
    if head.len() <= p.buf.len() {
        let buf = p.buf.skip(head.len() as int);
        assert(p.buf.take(head.len() as int) =~= whole.take(head.len() as int));
        assert(whole.take(head.len() as int) =~= head);
        assert(p.buf =~= head + buf);
        search::lemma_position_is(head, blank, head.len() - 4);
        search::lemma_position_extended(head, buf, blank);
        assert(pending.skip(0) =~= pending);
        assert(buf + pending.flatten() =~= whole.skip(head.len() as int));
        assert(whole.skip(head.len() as int) =~= behind);
        (buf, 0)
    } else {
        let tail = head.skip(p.buf.len() as int);
        assert(whole.take(p.buf.len() as int) =~= p.buf);
        assert((head + behind).take(p.buf.len() as int) =~= head.take(p.buf.len() as int));
        assert(p.buf + tail =~= head);
        search::lemma_absent_before(p.buf, tail, blank, head.len() - 4);
        search::lemma_position(p.buf, blank);
        if pending.len() == 0 {
            assert(whole =~= p.buf);
        }
        assert(p.next_part::<()>() == (p, PartPoll::<()>::Extend));
        let rest = pending.drop_first();
        assert(rest =~= pending.skip(1));
        let next = p.extended(pending[0]);
        assert(next.buf + rest.flatten() =~= whole);
        let (buf, used) = lemma_head(next, rest, head, behind);
        assert(rest.skip(used) =~= pending.skip(used + 1));
        assert(next.at(State::Body).holding(buf) == p.at(State::Body).holding(buf));
        (buf, used + 1)
    }
}

/// A header section that is longer than it may be is refused, however it arrives.
pub proof fn law_long_section(p: Parser, pending: Seq<Seq<u8>>, head: Seq<u8>, behind: Seq<u8>)
    requires
        p.state == State::Headers,
        p.buf + pending.flatten() == head + behind,
        search::first_at(head, parser::blank_line(), head.len() - 4),
        head.len() > MAX_HEADER_SECTION_SIZE,
    ensures
        session::run_part(p, Input::Poll, pending).poll == PartPoll::<()>::Section(
            Outcome::Overflow,
        ),
{
    session::lemma_seek(p, pending);
    lemma_long_section(p, pending, head, behind);
}

proof fn lemma_long_section(p: Parser, pending: Seq<Seq<u8>>, head: Seq<u8>, behind: Seq<u8>)
    requires
        p.state == State::Headers,
        p.buf + pending.flatten() == head + behind,
        search::first_at(head, parser::blank_line(), head.len() - 4),
        head.len() > MAX_HEADER_SECTION_SIZE,
    ensures
        session::seek(p, pending).poll == PartPoll::<()>::Section(Outcome::Overflow),
    decreases pending.len(),
{
    let blank = parser::blank_line();
    let whole = p.buf + pending.flatten();
    if head.len() <= p.buf.len() {
        let buf = p.buf.skip(head.len() as int);
        assert(p.buf.take(head.len() as int) =~= whole.take(head.len() as int));
        assert(whole.take(head.len() as int) =~= head);
        assert(p.buf =~= head + buf);
        search::lemma_position_is(head, blank, head.len() - 4);
        search::lemma_position_extended(head, buf, blank);
    } else {
        let tail = head.skip(p.buf.len() as int);
        assert(whole.take(p.buf.len() as int) =~= p.buf);
        assert((head + behind).take(p.buf.len() as int) =~= head.take(p.buf.len() as int));
        assert(p.buf + tail =~= head);
        search::lemma_absent_before(p.buf, tail, blank, head.len() - 4);
        search::lemma_position(p.buf, blank);
        if pending.len() == 0 {
            assert(whole =~= p.buf);
        }
        if p.buf.len() <= MAX_HEADER_SECTION_SIZE {
            assert(p.next_part::<()>() == (p, PartPoll::<()>::Extend));
            let rest = pending.drop_first();
            let next = p.extended(pending[0]);
            assert(next.buf + rest.flatten() =~= whole);
            lemma_long_section(next, rest, head, behind);
        }
    }
}

/// A delimiter that is the first behind some bytes is so whatever follows it.
proof fn lemma_delimiter_extended(before: Seq<u8>, delimiter: Seq<u8>, behind: Seq<u8>)
    requires
        search::first_at(before + delimiter, delimiter, before.len() as int),
    ensures
        search::first_at(before + (delimiter + behind), delimiter, before.len() as int),
{
    assert(before + (delimiter + behind) =~= (before + delimiter) + behind);
    search::lemma_position_is(before + delimiter, delimiter, before.len() as int);
    search::lemma_position_extended(before + delimiter, behind, delimiter);
    search::lemma_position(before + delimiter + behind, delimiter);
}

/// Of bytes that are wholly in the buffer, what follows them is in the buffer and behind it.
proof fn lemma_line_in_buffer(
    buf: Seq<u8>,
    behind: Seq<u8>,
    at: int,
    before: Seq<u8>,
    line: Seq<u8>,
    remainder: Seq<u8>,
)
    requires
        before.len() == at,
        buf + behind == before + (line + remainder),
        at + line.len() <= buf.len(),
    ensures
        buf.skip(at) == line + buf.skip(at + line.len()),
        buf.skip(at + line.len()) + behind == remainder,
{
    let whole = buf + behind;
    let end = at + line.len();
    assert(whole.subrange(at, end) =~= line);
    assert(buf.subrange(at, end) =~= whole.subrange(at, end));
    assert(buf.skip(at) =~= line + buf.skip(end));
    assert(whole.skip(end) =~= remainder);
    assert(buf.skip(end) + behind =~= whole.skip(end));
}

/// Behind a delimiter and the rest of its line, none of it cut, a part is opened: returned are
/// what is then in the buffer and the number of chunks used.
proof fn lemma_part_opens(
    p: Parser,
    pending: Seq<Seq<u8>>,
    preamble: Seq<u8>,
    part: SentPart,
    content: Seq<u8>,
) -> (found: (Seq<u8>, int))
    requires
        p.state == State::Skip,
        !p.boundary.contains(10),
        p.buf + pending.flatten() == preamble + (p.delimiter() + (part.line + (part.head
            + content))),
        search::first_at(preamble + p.delimiter(), p.delimiter(), preamble.len() as int),
        part.well_formed(p.delimiter()),
        uncut(
            pending,
            part.head.len() + content.len() as int,
            p.delimiter().len() + part.line.len() + part.head.len() + content.len() as int,
        ),
    ensures
        ({
            let (buf, used) = found;
            &&& 0 <= used <= pending.len()
            &&& session::seek(p, pending) == (PartRun {
                parser: p.at(State::Body).holding(buf),
                poll: PartPoll::Section(head_outcome(part.head)),
                pending: pending.skip(used),
            })
            &&& buf + pending.skip(used).flatten() == content
        }),
{
    let delimiter = p.delimiter();
    let whole = p.buf + pending.flatten();
    let at = preamble.len() as int;
    let remainder = part.head + content;
    lemma_delimiter_extended(preamble, delimiter, part.line + remainder);
    let length = delimiter.len() + part.line.len() as int;
    let (q, used, passed) = lemma_seek_delimiter(p, pending, at, length);
    let left = pending.skip(used);
    let behind = q.buf.skip(at - passed + length);
    let before = preamble.skip(passed);
    assert(whole.skip(passed) =~= before + (delimiter + part.line + remainder));
    lemma_line_in_buffer(
        q.buf,
        left.flatten(),
        at - passed,
        before,
        delimiter + part.line,
        remainder,
    );
    lemma_line::<()>(q, at - passed, part.line, behind);
    let opened = q.at(State::Headers).holding(behind);
    assert(session::seek(q, left) == session::seek(opened, left));
    let (buf, more) = lemma_head(opened, left, part.head, content);
    assert(left.skip(more) =~= pending.skip(used + more));
    assert(opened.at(State::Body).holding(buf) == p.at(State::Body).holding(buf));
    (buf, used + more)
}

/// What is sent is read: of a message of well-formed parts, whatever comes before its first
/// delimiter and behind its final boundary, each part comes with its header fields and its body,
/// in their order, and then the end. The message may arrive in any chunks that do not cut through
/// a boundary line.
pub proof fn law_message_is_read(
    p: Parser,
    pending: Seq<Seq<u8>>,
    preamble: Seq<u8>,
    parts: Seq<SentPart>,
    epilogue: Seq<u8>,
)
    requires
        p.state == State::Skip,
        !p.boundary.contains(10),
        p.buf + pending.flatten() == preamble + message(steps::marker(p.boundary), parts) + epilogue,
        search::first_at(preamble + steps::marker(p.boundary), steps::marker(p.boundary), preamble.len() as int),
        forall|i: int| 0 <= i < parts.len() ==> (#[trigger] parts[i]).well_formed(steps::marker(p.boundary)),
        well_cut(pending, steps::marker(p.boundary), parts, epilogue),
    ensures
        session::run_all(p, pending, parts.len()) == Some(
            parts.map_values(|part: SentPart| part.content()),
        ),
    decreases parts.len(),
{
    let delimiter = p.delimiter();
    assert(delimiter =~= steps::marker(p.boundary));
    let whole = p.buf + pending.flatten();
    session::lemma_seek(p, pending);
    if parts.len() == 0 {
        assert(whole =~= preamble + (delimiter + (parser::hyphens() + epilogue)));
        lemma_end(p, pending, preamble, epilogue);
        assert(parts.map_values(|part: SentPart| part.content()) =~= Seq::empty());
    } else {
        let part = parts.first();
        let others = parts.drop_first();
        assert(part == parts[0]);
        let following = message(delimiter, others) + epilogue;
        let content = part.body + following;
        assert(whole =~= preamble + (delimiter + (part.line + (part.head + content))));
        let (buf, used) = lemma_part_opens(p, pending, preamble, part, content);
        let reading = p.at(State::Body).holding(buf);
        let rest = pending.skip(used);
        lemma_well_cut_suffix(pending, used, delimiter, others, epilogue);
        lemma_body_is_read(reading, rest, part.body, others, epilogue);
        let body = session::run_body(reading, Input::Poll, rest);
        let next = body.parser.at(State::Skip);
        session::lemma_kept(reading, rest, others.len());
        let nothing = Seq::<u8>::empty();
        assert(nothing + message(delimiter, others) + epilogue =~= following);
        assert(nothing + delimiter =~= delimiter);
        assert(delimiter.subrange(0, delimiter.len() as int) =~= delimiter);
        assert(next.delimiter() == delimiter);
        assert forall|i: int| 0 <= i < others.len() implies (#[trigger] others[i]).well_formed(
            delimiter,
        ) by {
            assert(others[i] == parts[i + 1]);
        }
        law_message_is_read(next, body.pending, nothing, others, epilogue);
        assert(seq![part.content()] + others.map_values(|part: SentPart| part.content())
            =~= parts.map_values(|part: SentPart| part.content()));
    }
}

/// A needle whose beginning is nowhere its end.
pub open spec fn overlap_free(needle: Seq<u8>) -> bool {
    forall|k: int|
        0 < k < needle.len() ==> #[trigger] needle.take(k) != needle.skip(needle.len() - k)
}

/// A body that holds no delimiter is told from the delimiter behind it, where the delimiter does
/// not overlap with itself.
pub proof fn law_body_without_delimiter(body: Seq<u8>, delimiter: Seq<u8>)
    requires
        overlap_free(delimiter),
        search::absent(body, delimiter),
    ensures
        search::first_at(body + delimiter, delimiter, body.len() as int),
{
    let whole = body + delimiter;
    let end = body.len() as int;
    assert(whole.subrange(end, end + delimiter.len()) =~= delimiter);
    assert forall|before: int| 0 <= before < end implies !#[trigger] search::occurs_at(
        whole,
        delimiter,
        before,
    ) by {
        if search::occurs_at(whole, delimiter, before) {
            if before + delimiter.len() <= end {
                search::lemma_occurs_before(body, delimiter, delimiter, before);
            } else {
                let k = before + delimiter.len() - end;
                let found = whole.subrange(before, before + delimiter.len());
                assert forall|i: int| 0 <= i < k implies delimiter.take(k)[i] == delimiter.skip(
                    delimiter.len() - k,
                )[i] by {
                    assert(found[delimiter.len() - k + i] == whole[end + i]);
                }
                assert(delimiter.take(k) =~= delimiter.skip(delimiter.len() - k));
            }
        }
    }
}

/// A message of one part that arrives in one chunk, step by step: the part is handed out with its
/// header fields, its body comes byte for byte, as one piece that may be empty, then the end of
/// the body, and then the end of the message.
pub proof fn law_single_part<E>(boundary: Seq<u8>, part: SentPart)
    requires
        !boundary.contains(10),
        part.well_formed(steps::marker(boundary)),
    ensures
        ({
            let start = Parser::start(boundary);
            let sent = message(steps::marker(boundary), seq![part]);
            let (opened, poll) = start.poll_part(Input::<E>::Chunk(sent));
            let (read, chunk) = opened.poll_body(false, Input::<E>::Poll);
            &&& start.poll_part(Input::<E>::Poll) == (start, PartPoll::<E>::Extend)
            &&& poll == PartPoll::<E>::Section(head_outcome(part.head))
            &&& opened.state == State::Body
            &&& chunk == (BodyPoll::<E>::Chunk { bytes: part.body, last: true })
            &&& read.poll_body(true, Input::<E>::Poll) == (read, BodyPoll::<E>::End)
            &&& read.released(true).poll_part(Input::<E>::Poll) == (read, PartPoll::<E>::End)
        }),
{
    let start = Parser::start(boundary);
    let delimiter = start.delimiter();
    assert(delimiter =~= steps::marker(boundary));
    let closing = delimiter + parser::hyphens();
    let content = part.body + closing;
    let behind = part.head + content;
    let sent = message(delimiter, seq![part]);
    assert(seq![part].drop_first() =~= Seq::<SentPart>::empty());
    assert(message(delimiter, Seq::<SentPart>::empty()) == closing);
    assert(sent =~= delimiter + part.line + behind);
    let p = start.extended(sent);
    assert(p.buf =~= sent);
    assert(search::first_at(sent, delimiter, 0)) by {
        assert(sent.subrange(0, delimiter.len() as int) =~= delimiter);
    }
    search::lemma_position_is(sent, delimiter, 0);
    assert(sent.skip(0) =~= sent);
    lemma_line::<E>(p, 0, part.line, behind);
    let headed = p.at(State::Headers).holding(behind);
    search::lemma_position_is(part.head, parser::blank_line(), part.head.len() - 4);
    search::lemma_position_extended(part.head, content, parser::blank_line());
    assert(behind.take(part.head.len() as int) =~= part.head);
    assert(behind.skip(part.head.len() as int) =~= content);
    let opened = headed.at(State::Body).holding(content);
    assert(headed.next_part::<E>() == (opened, PartPoll::<E>::Section(head_outcome(part.head))));
    lemma_delimiter_extended(part.body, delimiter, parser::hyphens());
    let at = part.body.len() as int;
    search::lemma_position_is(content, delimiter, at);
    assert(content.take(at) =~= part.body);
    assert(content.skip(at) =~= closing);
    assert(opened.closes(closing));
}

/// At the final boundary, not cut from its hyphens, there is no further part.
proof fn lemma_end(p: Parser, pending: Seq<Seq<u8>>, preamble: Seq<u8>, epilogue: Seq<u8>)
    requires
        p.state == State::Skip,
        p.buf + pending.flatten() == preamble + (p.delimiter() + (parser::hyphens() + epilogue)),
        search::first_at(preamble + p.delimiter(), p.delimiter(), preamble.len() as int),
        uncut(pending, epilogue.len() as int, p.delimiter().len() + 2 + epilogue.len() as int),
    ensures
        session::seek(p, pending).poll is End,
{
    let delimiter = p.delimiter();
    let whole = p.buf + pending.flatten();
    let at = preamble.len() as int;
    lemma_delimiter_extended(preamble, delimiter, parser::hyphens() + epilogue);
    let (q, used, passed) = lemma_seek_delimiter(p, pending, at, delimiter.len() as int + 2);
    let from = q.buf.skip(at - passed);
    let seen = q.buf + pending.skip(used).flatten();
    let behind = delimiter.len() as int;
    assert(from[behind] == seen[at - passed + behind]);
    assert(from[behind + 1] == seen[at - passed + behind + 1]);
    assert(whole[at + behind] == 45);
    assert(whole[at + behind + 1] == 45);
    assert(q.closes(from));
    assert(q.next_part::<()>().1 is End);
}

/// A body before further parts is read up to the next delimiter.
proof fn lemma_body_is_read(
    p: Parser,
    pending: Seq<Seq<u8>>,
    bytes: Seq<u8>,
    others: Seq<SentPart>,
    epilogue: Seq<u8>,
)
    requires
        p.buf + pending.flatten() == bytes + (message(p.delimiter(), others) + epilogue),
        search::first_at(bytes + p.delimiter(), p.delimiter(), bytes.len() as int),
        well_cut(pending, p.delimiter(), others, epilogue),
    ensures
        ({
            let body = session::run_body(p, Input::Poll, pending);
            &&& body.done
            &&& body.bytes == bytes
            &&& body.parser.buf + body.pending.flatten() == message(p.delimiter(), others)
                + epilogue
            &&& body.parser.boundary == p.boundary
            &&& well_cut(body.pending, p.delimiter(), others, epilogue)
        }),
{
    let delimiter = p.delimiter();
    let following = message(delimiter, others) + epilogue;
    let whole = p.buf + pending.flatten();
    lemma_message_begins(delimiter, others, epilogue);
    let after = choose|after: Seq<u8>| following == delimiter + after;
    lemma_delimiter_extended(bytes, delimiter, after);
    lemma_first_line_uncut(pending, delimiter, others, epilogue);
    law_body_in_chunks(p, pending, bytes.len() as int);
    let body = session::run_body(p, Input::Poll, pending);
    assert(whole.take(bytes.len() as int) =~= bytes);
    assert(whole.skip(bytes.len() as int) =~= following);
    let j = choose|j: int| 0 <= j <= pending.len() && body.pending == #[trigger] pending.skip(j);
    lemma_well_cut_suffix(pending, j, delimiter, others, epilogue);
}

/// A message begins with a delimiter.
proof fn lemma_message_begins(delimiter: Seq<u8>, parts: Seq<SentPart>, tail: Seq<u8>)
    ensures
        exists|after: Seq<u8>| message(delimiter, parts) + tail == delimiter + after,
{
    if parts.len() == 0 {
        assert(message(delimiter, parts) + tail =~= delimiter + (parser::hyphens() + tail));
    } else {
        let part = parts.first();
        let rest = message(delimiter, parts.drop_first());
        assert(message(delimiter, parts) + tail =~= delimiter + (part.line + part.head + part.body
            + rest + tail));
    }
}

/// Where the boundary lines are uncut, the first delimiter is.
proof fn lemma_first_line_uncut(
    pending: Seq<Seq<u8>>,
    delimiter: Seq<u8>,
    parts: Seq<SentPart>,
    tail: Seq<u8>,
)
    requires
        well_cut(pending, delimiter, parts, tail),
    ensures
        ({
            let length = message(delimiter, parts).len() + tail.len();
            uncut(pending, length - delimiter.len(), length as int)
        }),
{
}

} // verus!
