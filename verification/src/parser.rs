//! The parser as a mathematical object: what it holds, and what each step makes of it.
use vstd::prelude::*;

use crate::section::{Outcome, MAX_HEADERS};
use crate::{search, section};

verus! {

/// Maximum size of the header section of each body part (16 KiB).
pub const MAX_HEADER_SECTION_SIZE: usize = 16384;

/// Where in the body the parser stands.
#[derive(Debug, Clone, Copy, PartialEq, Eq, Structural)]
pub enum State {
    /// Skip to the next boundary.
    Skip,
    /// Behind a boundary, before the header section of a part.
    Headers,
    /// In the body of a part.
    Body,
    /// At the final boundary.
    Eof,
}

/// What a parser holds, its payload aside.
pub struct Parser {
    /// The boundary, as bytes.
    pub boundary: Seq<u8>,
    /// Where in the body the parser stands.
    pub state: State,
    /// The bytes that have arrived and have not been used.
    pub buf: Seq<u8>,
}

/// What is handed to the parser.
pub enum Input<E> {
    /// A request for what comes next.
    Poll,
    /// A chunk of the payload.
    Chunk(Seq<u8>),
    /// The payload's error.
    Failed(E),
    /// The end of the payload.
    End,
}

/// What a request for the next part comes to.
pub enum PartPoll<E> {
    /// More of the payload is needed.
    Extend,
    /// There is no further part.
    End,
    /// The payload failed.
    Upstream(E),
    /// The payload ended before the body did.
    UnexpectedEof,
    /// A header section was read, and came to this.
    Section(Outcome),
}

/// What a request for the next bytes of a part's body comes to.
pub enum BodyPoll<E> {
    /// More of the payload is needed.
    Extend,
    /// The part's body is at its end.
    End,
    /// The payload failed.
    Upstream(E),
    /// The payload ended before the body did.
    UnexpectedEof,
    /// These bytes, and whether the part's body ends behind them.
    Chunk { bytes: Seq<u8>, last: bool },
}

/// The two hyphens that stand before a boundary, and behind the final one.
pub open spec fn hyphens() -> Seq<u8> {
    seq![45u8, 45u8]
}

/// The end of a line.
pub open spec fn newline() -> Seq<u8> {
    seq![10u8]
}

/// The end of a header section: a line end and an empty line.
pub open spec fn blank_line() -> Seq<u8> {
    seq![13u8, 10u8, 13u8, 10u8]
}

impl Parser {
    /// The parser that a body is begun with.
    pub open spec fn start(boundary: Seq<u8>) -> Parser {
        Parser { boundary, state: State::Skip, buf: Seq::empty() }
    }

    /// What a boundary line begins with: two hyphens and the boundary.
    pub open spec fn delimiter(self) -> Seq<u8> {
        hyphens() + self.boundary
    }

    /// The parser, standing elsewhere.
    pub open spec fn at(self, state: State) -> Parser {
        Parser { state, ..self }
    }

    /// The parser after a part has been given up. A part that is `done` has left the parser
    /// already; otherwise its body is being read, and the rest of it is to be skipped.
    pub open spec fn released(self, done: bool) -> Parser {
        if done {
            self
        } else {
            self.at(State::Skip)
        }
    }

    /// The parser with other bytes in its buffer.
    pub open spec fn holding(self, buf: Seq<u8>) -> Parser {
        Parser { buf, ..self }
    }

    /// The parser after a chunk has arrived.
    pub open spec fn extended(self, chunk: Seq<u8>) -> Parser {
        self.holding(self.buf + chunk)
    }

    /// The bytes up to and with the first `needle` are taken off; without a needle, none.
    pub open spec fn read_until(self, needle: Seq<u8>) -> (Parser, Option<Seq<u8>>) {
        match search::position(self.buf, needle) {
            Some(at) => {
                let end = at + needle.len();
                (self.holding(self.buf.skip(end)), Some(self.buf.take(end)))
            },
            None => (self, None),
        }
    }

    /// The bytes `line`, which begin with the delimiter, are a final boundary: two hyphens follow
    /// the delimiter.
    pub open spec fn closes(self, line: Seq<u8>) -> bool {
        let behind = self.delimiter().len() as int;
        line.len() >= behind + 2 && line[behind] == 45 && line[behind + 1] == 45
    }

    /// The bytes before the first delimiter are taken off, and it is told whether that delimiter
    /// is a final boundary; without a delimiter, all bytes are.
    pub open spec fn read_until_boundary(self) -> (Parser, Seq<u8>, Option<bool>) {
        match search::position(self.buf, self.delimiter()) {
            Some(at) => {
                let line = self.buf.skip(at);
                (self.holding(line), self.buf.take(at), Some(self.closes(line)))
            },
            None => (self.holding(Seq::empty()), self.buf, None),
        }
    }

    /// Like `read_until_boundary`; the rest of the boundary's line goes too, unless the boundary
    /// is to be kept.
    pub open spec fn skip_until_boundary(self, keep_boundary: bool) -> (Parser, Option<bool>) {
        let (found, _, boundary) = self.read_until_boundary();
        if boundary is Some && !keep_boundary {
            (found.read_until(newline()).0, boundary)
        } else {
            (found, boundary)
        }
    }

    /// A header section up to and with the empty line is taken off; without one, none is. A
    /// section that is longer than it may be is an overflow, whether its end has arrived or not.
    pub open spec fn read_headers(self) -> (Parser, Outcome) {
        match self.read_until(blank_line()) {
            (rest, Some(bytes)) => {
                if bytes.len() > MAX_HEADER_SECTION_SIZE {
                    (rest, Outcome::Overflow)
                } else {
                    (
                        rest,
                        section::section_outcome(
                            section::parsed_section(bytes, MAX_HEADERS as nat),
                        ),
                    )
                }
            },
            (rest, None) => if self.buf.len() > MAX_HEADER_SECTION_SIZE {
                (rest, Outcome::Overflow)
            } else {
                (rest, Outcome::Incomplete)
            },
        }
    }

    /// The header section of the next part is read; with it the part's body begins.
    pub open spec fn open_part<E>(self) -> (Parser, PartPoll<E>) {
        match self.read_headers() {
            (rest, Outcome::Incomplete) => (rest, PartPoll::Extend),
            (rest, Outcome::Fields(all)) => {
                (rest.at(State::Body), PartPoll::Section(Outcome::Fields(all)))
            },
            (rest, fault) => (rest, PartPoll::Section(fault)),
        }
    }

    /// The next part is looked for in the buffer.
    pub open spec fn next_part<E>(self) -> (Parser, PartPoll<E>) {
        if self.state == State::Skip {
            match self.skip_until_boundary(false) {
                (rest, Some(false)) => rest.at(State::Headers).open_part(),
                (rest, Some(true)) => (rest.at(State::Eof), PartPoll::End),
                (rest, None) => (rest, PartPoll::Extend),
            }
        } else {
            self.open_part()
        }
    }

    /// A request for the next part.
    pub open spec fn poll_part<E>(self, input: Input<E>) -> (Parser, PartPoll<E>) {
        match input {
            Input::Poll => if self.state == State::Eof {
                (self, PartPoll::End)
            } else if self.buf.len() == 0 {
                (self, PartPoll::Extend)
            } else {
                self.next_part()
            },
            Input::Chunk(chunk) => self.extended(chunk).next_part(),
            Input::Failed(error) => (self, PartPoll::Upstream(error)),
            Input::End => (self, PartPoll::UnexpectedEof),
        }
    }

    /// The next bytes of a part's body are taken off the buffer.
    pub open spec fn next_chunk<E>(self) -> (Parser, BodyPoll<E>) {
        match self.read_until_boundary() {
            (rest, bytes, Some(eof)) => (
                rest.at(
                    if eof {
                        State::Eof
                    } else {
                        State::Skip
                    },
                ),
                BodyPoll::Chunk { bytes, last: true },
            ),
            (rest, bytes, None) => (rest, BodyPoll::Chunk { bytes, last: false }),
        }
    }

    /// A request for the next bytes of the body of a part, which may be `done`.
    pub open spec fn poll_body<E>(self, done: bool, input: Input<E>) -> (Parser, BodyPoll<E>) {
        if done {
            (self, BodyPoll::End)
        } else {
            match input {
                Input::Poll => if self.buf.len() == 0 {
                    (self, BodyPoll::Extend)
                } else {
                    self.next_chunk()
                },
                Input::Chunk(chunk) => self.extended(chunk).next_chunk(),
                Input::Failed(error) => (self, BodyPoll::Upstream(error)),
                Input::End => (self, BodyPoll::UnexpectedEof),
            }
        }
    }
}

} // verus!
