//! Reading a whole body: the steps driven to their end, with a payload that arrives in chunks.
use vstd::prelude::*;

use crate::parser::{BodyPoll, Input, Parser, PartPoll, State};
use crate::section::{Fields, Outcome};
use crate::{laws, search, steps};

verus! {

/// What asking for the next part comes to.
pub struct PartRun {
    /// The parser afterwards.
    pub parser: Parser,
    /// What came.
    pub poll: PartPoll<()>,
    /// The chunks that were not needed.
    pub pending: Seq<Seq<u8>>,
}

/// What reading a part's body comes to.
pub struct BodyRun {
    /// The parser afterwards.
    pub parser: Parser,
    /// The bytes of the body.
    pub bytes: Seq<u8>,
    /// The body was read to its end.
    pub done: bool,
    /// The chunks that were not needed.
    pub pending: Seq<Seq<u8>>,
}

/// Takes steps towards the next part; whenever more of the payload is demanded, the next of the
/// `pending` chunks is handed over. Without a chunk the demand stands.
pub open spec fn run_part(p: Parser, input: Input<()>, pending: Seq<Seq<u8>>) -> PartRun
    decreases pending.len(),
{
    let (next, poll) = p.poll_part(input);
    if poll is Extend && pending.len() > 0 {
        run_part(next, Input::Chunk(pending[0]), pending.drop_first())
    } else {
        PartRun { parser: next, poll, pending }
    }
}

/// Takes steps through the body of a part up to its end; whenever more of the payload is
/// demanded, the next of the `pending` chunks is handed over. Without a chunk the body is not
/// done.
pub open spec fn run_body(p: Parser, input: Input<()>, pending: Seq<Seq<u8>>) -> BodyRun
    decreases
            pending.len(),
            if input is Poll {
                p.buf.len()
            } else {
                p.buf.len() + 1
            },
{
    match p.poll_body(false, input) {
        (next, BodyPoll::Chunk { bytes, last: true }) => {
            BodyRun { parser: next, bytes, done: true, pending }
        },
        (next, BodyPoll::Chunk { bytes, last: false }) => {
            let more = run_body(next, Input::Poll, pending);
            BodyRun { bytes: bytes + more.bytes, ..more }
        },
        (next, BodyPoll::Extend) => if pending.len() > 0 {
            run_body(next, Input::Chunk(pending[0]), pending.drop_first())
        } else {
            BodyRun { parser: next, bytes: Seq::empty(), done: false, pending }
        },
        (next, _) => BodyRun { parser: next, bytes: Seq::empty(), done: false, pending },
    }
}

/// Reads up to `count` parts, each to its end, whereupon it is released, and then the end of the
/// body; `None` where anything else comes.
pub open spec fn run_all(p: Parser, pending: Seq<Seq<u8>>, count: nat) -> Option<
    Seq<(Fields, Seq<u8>)>,
>
    decreases count,
{
    let part = run_part(p, Input::Poll, pending);
    match part.poll {
        PartPoll::End => Some(Seq::empty()),
        PartPoll::Section(Outcome::Fields(all)) => if count > 0 {
            let body = run_body(part.parser, Input::Poll, part.pending);
            match run_all(
                body.parser.released(body.done),
                body.pending,
                (count - 1) as nat,
            ) {
                Some(others) => if body.done {
                    Some(seq![(all, body.bytes)] + others)
                } else {
                    None
                },
                None => None,
            }
        } else {
            None
        },
        _ => None,
    }
}

/// `run_part` from where the buffer is looked at.
pub(crate) open spec fn seek(p: Parser, pending: Seq<Seq<u8>>) -> PartRun
    decreases pending.len(),
{
    let (next, poll) = p.next_part::<()>();
    if poll is Extend && pending.len() > 0 {
        seek(next.extended(pending[0]), pending.drop_first())
    } else {
        PartRun { parser: next, poll, pending }
    }
}

/// `run_body` from where the buffer is looked at.
pub(crate) open spec fn drain(p: Parser, pending: Seq<Seq<u8>>) -> BodyRun
    decreases pending.len(),
{
    let (next, bytes, found) = p.read_until_boundary();
    match found {
        Some(eof) => {
            let state = if eof {
                State::Eof
            } else {
                State::Skip
            };
            BodyRun { parser: next.at(state), bytes, done: true, pending }
        },
        None => if pending.len() > 0 {
            let more = drain(next.extended(pending[0]), pending.drop_first());
            BodyRun { bytes: bytes + more.bytes, ..more }
        } else {
            BodyRun { parser: next, bytes, done: false, pending }
        },
    }
}

/// An empty buffer holds no delimiter and no header section.
proof fn lemma_empty(p: Parser)
    requires
        p.buf.len() == 0,
    ensures
        p.read_until_boundary() == (p, Seq::<u8>::empty(), None::<bool>),
        p.read_headers() == (p, Outcome::Incomplete),
{
    assert(p.buf =~= Seq::<u8>::empty());
    assert(p.holding(Seq::empty()) == p);
}

proof fn lemma_seek_chunk(p: Parser, chunk: Seq<u8>, pending: Seq<Seq<u8>>)
    ensures
        run_part(p, Input::Chunk(chunk), pending) == seek(p.extended(chunk), pending),
    decreases pending.len(),
{
    let (next, poll) = p.extended(chunk).next_part::<()>();
    if poll is Extend && pending.len() > 0 {
        lemma_seek_chunk(next, pending[0], pending.drop_first());
    }
}

pub(crate) proof fn lemma_seek(p: Parser, pending: Seq<Seq<u8>>)
    requires
        p.state == State::Skip || p.state == State::Headers,
    ensures
        run_part(p, Input::Poll, pending) == seek(p, pending),
{
    if p.buf.len() == 0 {
        lemma_empty(p);
    }
    let (next, poll) = p.next_part::<()>();
    assert(p.poll_part::<()>(Input::Poll) == (next, poll));
    if poll is Extend && pending.len() > 0 {
        lemma_seek_chunk(next, pending[0], pending.drop_first());
    }
}

proof fn lemma_drain_chunk(p: Parser, chunk: Seq<u8>, pending: Seq<Seq<u8>>)
    ensures
        run_body(p, Input::Chunk(chunk), pending) == drain(p.extended(chunk), pending),
    decreases pending.len(),
{
    let (next, bytes, found) = p.extended(chunk).read_until_boundary();
    if found is None {
        lemma_drain_rest(next, bytes, pending);
        if pending.len() > 0 {
            lemma_drain_chunk(next, pending[0], pending.drop_first());
        }
    }
}

/// With an empty buffer a body goes on with the next chunk.
proof fn lemma_drain_rest(p: Parser, bytes: Seq<u8>, pending: Seq<Seq<u8>>)
    requires
        p.buf.len() == 0,
    ensures
        pending.len() > 0 ==> run_body(p, Input::Poll, pending) == run_body(
            p,
            Input::Chunk(pending[0]),
            pending.drop_first(),
        ),
        pending.len() == 0 ==> run_body(p, Input::Poll, pending) == (BodyRun {
            parser: p,
            bytes: Seq::empty(),
            done: false,
            pending,
        }),
        bytes + Seq::<u8>::empty() == bytes,
        Seq::<u8>::empty() + bytes == bytes,
{
    assert(bytes + Seq::<u8>::empty() =~= bytes);
    assert(Seq::<u8>::empty() + bytes =~= bytes);
    reveal_with_fuel(run_body, 2);
}

pub(crate) proof fn lemma_drain(p: Parser, pending: Seq<Seq<u8>>)
    ensures
        run_body(p, Input::Poll, pending) == drain(p, pending),
{
    let (next, bytes, found) = p.read_until_boundary();
    if p.buf.len() == 0 {
        lemma_empty(p);
        lemma_drain_rest(p, Seq::empty(), pending);
        if pending.len() > 0 {
            lemma_drain_chunk(p, pending[0], pending.drop_first());
            let more = drain(p.extended(pending[0]), pending.drop_first());
            assert(Seq::<u8>::empty() + more.bytes =~= more.bytes);
        }
    } else if found is None {
        lemma_drain_rest(next, bytes, pending);
        if pending.len() > 0 {
            lemma_drain_chunk(next, pending[0], pending.drop_first());
        }
    }
}

/// Reading a body loses nothing: its bytes, what stays in the buffer and the chunks that were not
/// needed are what was in the buffer and in the chunks.
pub proof fn law_body_loses_nothing(p: Parser, pending: Seq<Seq<u8>>)
    ensures
        ({
            let body = run_body(p, Input::Poll, pending);
            body.bytes + body.parser.buf + body.pending.flatten() == p.buf + pending.flatten()
        }),
{
    lemma_drain(p, pending);
    lemma_drain_loses_nothing(p, pending);
}

proof fn lemma_drain_loses_nothing(p: Parser, pending: Seq<Seq<u8>>)
    ensures
        ({
            let body = drain(p, pending);
            body.bytes + body.parser.buf + body.pending.flatten() == p.buf + pending.flatten()
        }),
    decreases pending.len(),
{
    let (next, bytes, found) = p.read_until_boundary();
    laws::law_read_until_boundary_splits(p);
    if found is None && pending.len() > 0 {
        let more = drain(next.extended(pending[0]), pending.drop_first());
        lemma_drain_loses_nothing(next.extended(pending[0]), pending.drop_first());
        assert(next.buf =~= Seq::<u8>::empty());
        assert(bytes =~= p.buf);
        assert(Seq::<u8>::empty() + pending[0] =~= pending[0]);
        assert(bytes + more.bytes + more.parser.buf + more.pending.flatten() =~= bytes + (more.bytes
            + more.parser.buf + more.pending.flatten()));
        assert(p.buf + (pending[0] + pending.drop_first().flatten()) =~= p.buf + pending.flatten());
    }
}

/// Where a body was read to its end the parser is before the delimiter that ended it: at the final
/// boundary if that is one, else about to skip to the next part.
proof fn lemma_drain_done(p: Parser, pending: Seq<Seq<u8>>)
    requires
        drain(p, pending).done,
    ensures
        ({
            let q = drain(p, pending).parser;
            &&& search::position(q.buf, q.delimiter()) == Some(0int)
            &&& q.state == if q.closes(q.buf) {
                State::Eof
            } else {
                State::Skip
            }
        }),
    decreases pending.len(),
{
    let (next, bytes, found) = p.read_until_boundary();
    laws::law_read_until_boundary_splits(p);
    if found is Some {
        search::lemma_position_is(next.buf, p.delimiter(), 0);
    } else {
        lemma_drain_done(next.extended(pending[0]), pending.drop_first());
    }
}

/// At the final boundary it makes no difference whether the parser knows it: no part comes.
proof fn lemma_at_final(q: Parser, pending: Seq<Seq<u8>>)
    requires
        search::position(q.buf, q.delimiter()) == Some(0int),
        q.closes(q.buf),
    ensures
        run_part(q.at(State::Eof), Input::Poll, pending) == (PartRun {
            parser: q.at(State::Eof),
            poll: PartPoll::End,
            pending,
        }),
        ({
            let run = run_part(q.at(State::Skip), Input::Poll, pending);
            run.poll is End && run.pending == pending && run.parser.state == State::Eof
        }),
{
    let skipping = q.at(State::Skip);
    search::lemma_position(q.buf, q.delimiter());
    assert(skipping.delimiter() == q.delimiter());
    assert(q.buf.skip(0) =~= q.buf);
    assert(skipping.closes(q.buf));
}

/// Behind a body that was read to its end, the same parts come whether the parser stays where it
/// is or is made to skip.
pub(crate) proof fn lemma_kept(p: Parser, pending: Seq<Seq<u8>>, count: nat)
    requires
        run_body(p, Input::Poll, pending).done,
    ensures
        ({
            let body = run_body(p, Input::Poll, pending);
            run_all(body.parser, body.pending, count) == run_all(
                body.parser.at(State::Skip),
                body.pending,
                count,
            )
        }),
{
    lemma_drain(p, pending);
    lemma_drain_done(p, pending);
    let body = drain(p, pending);
    if body.parser.closes(body.parser.buf) {
        lemma_at_final(body.parser, body.pending);
        assert(body.parser.at(State::Eof) == body.parser);
    } else {
        assert(body.parser.at(State::Skip) == body.parser);
    }
}

/// Whether a part is read to its end before it is released, or released at any point before,
/// makes no difference to what comes next: the same part, and the same parser to read on with;
/// the same error; or the end.
pub proof fn law_release_midway(p: Parser, pending: Seq<Seq<u8>>)
    ensures
        ({
            let body = run_body(p, Input::Poll, pending);
            let early = run_part(p.released(false), Input::Poll, pending);
            let late = run_part(body.parser.released(body.done), Input::Poll, body.pending);
            &&& early.poll == late.poll
            &&& early.pending == late.pending
            &&& early.parser.state == late.parser.state
            &&& !(early.poll is End) ==> early == late
        }),
{
    let body = drain(p, pending);
    lemma_drain(p, pending);
    lemma_seek(p.at(State::Skip), pending);
    lemma_seek(body.parser.at(State::Skip), body.pending);
    lemma_release_midway(p, pending);
    if body.done {
        lemma_drain_done(p, pending);
        if body.parser.closes(body.parser.buf) {
            lemma_at_final(body.parser, body.pending);
            assert(body.parser.at(State::Eof) == body.parser);
        } else {
            assert(body.parser.at(State::Skip) == body.parser);
        }
    }
}

/// Whether a part is released before or after some bytes of its body have been read makes no
/// difference to what comes next. The bytes may have been in the buffer or have arrived for it.
pub proof fn law_release_half_read(p: Parser, input: Input<()>, pending: Seq<Seq<u8>>)
    requires
        input is Poll || input is Chunk && p.buf.len() == 0,
        p.poll_body(false, input).1 matches BodyPoll::Chunk { bytes, last } && !last,
    ensures
        ({
            let all = match input {
                Input::Chunk(chunk) => seq![chunk] + pending,
                _ => pending,
            };
            run_part(p.released(false), Input::Poll, all) == run_part(
                p.poll_body(false, input).0.released(false),
                Input::Poll,
                pending,
            )
        }),
{
    let skipping = p.at(State::Skip);
    let next = p.poll_body(false, input).0;
    let empty = skipping.holding(Seq::empty());
    assert(next.at(State::Skip) == empty);
    lemma_seek(empty, pending);
    lemma_empty(empty);
    match input {
        Input::Chunk(chunk) => {
            let all = seq![chunk] + pending;
            assert(all.drop_first() =~= pending);
            assert(all[0] == chunk);
            lemma_seek(skipping, all);
            lemma_empty(skipping);
            assert(skipping.buf =~= Seq::<u8>::empty());
            let extended = skipping.extended(chunk);
            assert(extended.delimiter() == p.extended(chunk).delimiter());
            assert(extended.next_part::<()>() == (empty, PartPoll::<()>::Extend));
            assert(skipping.next_part::<()>() == (skipping, PartPoll::<()>::Extend));
            assert(seek(skipping, all) == seek(extended, pending));
            assert(seek(extended, pending) == seek(empty, pending));
        },
        _ => {
            lemma_seek(skipping, pending);
            assert(skipping.delimiter() == p.delimiter());
            assert(skipping.next_part::<()>() == (empty, PartPoll::<()>::Extend));
        },
    }
}

proof fn lemma_release_midway(p: Parser, pending: Seq<Seq<u8>>)
    ensures
        ({
            let body = drain(p, pending);
            seek(p.at(State::Skip), pending) == seek(body.parser.at(State::Skip), body.pending)
        }),
    decreases pending.len(),
{
    let (next, bytes, found) = p.read_until_boundary();
    let skipping = p.at(State::Skip);
    let body = drain(p, pending);
    laws::law_read_until_boundary_splits(p);
    assert(skipping.delimiter() == p.delimiter());
    match found {
        Some(eof) => {
            let after = body.parser.at(State::Skip);
            assert(after == skipping.holding(next.buf));
            search::lemma_position_is(next.buf, p.delimiter(), 0);
            assert(next.buf.skip(0) =~= next.buf);
            assert(after.read_until_boundary().0 == skipping.read_until_boundary().0);
            assert(after.next_part::<()>() == skipping.next_part::<()>());
        },
        None => {
            let empty = skipping.holding(Seq::empty());
            assert(skipping.next_part::<()>() == (empty, PartPoll::<()>::Extend));
            lemma_empty(empty);
            if pending.len() > 0 {
                let extended = next.extended(pending[0]);
                lemma_release_midway(extended, pending.drop_first());
                assert(extended.at(State::Skip) == empty.extended(pending[0]));
            } else {
                assert(body.parser.at(State::Skip) == empty);
            }
        },
    }
}

/// Where no delimiter ever arrives no part comes, and the body of a part has no end: all that
/// arrives is used, and more is waited for.
pub proof fn law_without_boundary(p: Parser, pending: Seq<Seq<u8>>)
    requires
        search::absent(p.buf + pending.flatten(), steps::marker(p.boundary)),
    ensures
        p.state == State::Skip ==> waits(p, run_part(p, Input::Poll, pending)),
        run_body(p, Input::Poll, pending) == (BodyRun {
            parser: p.holding(Seq::empty()),
            bytes: p.buf + pending.flatten(),
            done: false,
            pending: Seq::empty(),
        }),
{
    assert(p.delimiter() =~= steps::marker(p.boundary));
    lemma_drain(p, pending);
    lemma_drain_without_boundary(p, pending);
    if p.state == State::Skip {
        lemma_seek(p, pending);
        lemma_seek_without_boundary(p, pending);
    }
}

/// The parser has used all that arrived, and waits for more.
pub open spec fn waits(p: Parser, run: PartRun) -> bool {
    run == PartRun {
        parser: p.holding(Seq::empty()),
        poll: PartPoll::Extend,
        pending: Seq::empty(),
    }
}

/// Bytes that hold no delimiter hold none in the buffer, and none behind it.
proof fn lemma_without_boundary(p: Parser, pending: Seq<Seq<u8>>)
    requires
        search::absent(p.buf + pending.flatten(), p.delimiter()),
    ensures
        p.read_until_boundary() == (p.holding(Seq::empty()), p.buf, None::<bool>),
        pending.len() > 0 ==> {
            let next = p.holding(Seq::empty()).extended(pending[0]);
            &&& search::absent(next.buf + pending.drop_first().flatten(), next.delimiter())
            &&& next.buf + pending.drop_first().flatten() == pending.flatten()
        },
{
    let needle = p.delimiter();
    let rest = pending.flatten();
    assert forall|at: int| !#[trigger] search::occurs_at(p.buf, needle, at) by {
        if search::occurs_at(p.buf, needle, at) {
            search::lemma_occurs_before(p.buf, rest, needle, at);
        }
    }
    assert forall|at: int| !#[trigger] search::occurs_at(rest, needle, at) by {
        if search::occurs_at(rest, needle, at) {
            search::lemma_occurs_behind(p.buf, rest, needle, at);
        }
    }
    if pending.len() > 0 {
        let next = p.holding(Seq::empty()).extended(pending[0]);
        assert(next.buf =~= pending[0]);
        assert(next.buf + pending.drop_first().flatten() =~= rest);
    }
}

proof fn lemma_seek_without_boundary(p: Parser, pending: Seq<Seq<u8>>)
    requires
        p.state == State::Skip,
        search::absent(p.buf + pending.flatten(), p.delimiter()),
    ensures
        waits(p, seek(p, pending)),
    decreases pending.len(),
{
    lemma_without_boundary(p, pending);
    if pending.len() > 0 {
        let next = p.holding(Seq::empty()).extended(pending[0]);
        lemma_seek_without_boundary(next, pending.drop_first());
    } else {
        assert(pending =~= Seq::empty());
    }
}

proof fn lemma_drain_without_boundary(p: Parser, pending: Seq<Seq<u8>>)
    requires
        search::absent(p.buf + pending.flatten(), p.delimiter()),
    ensures
        drain(p, pending) == (BodyRun {
            parser: p.holding(Seq::empty()),
            bytes: p.buf + pending.flatten(),
            done: false,
            pending: Seq::empty(),
        }),
    decreases pending.len(),
{
    lemma_without_boundary(p, pending);
    if pending.len() > 0 {
        let next = p.holding(Seq::empty()).extended(pending[0]);
        lemma_drain_without_boundary(next, pending.drop_first());
    } else {
        assert(pending =~= Seq::empty());
        assert(p.buf + pending.flatten() =~= p.buf);
    }
}

} // verus!
