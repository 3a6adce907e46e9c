//! The buffer of a multipart body and the steps that read it.
use bytes::{Bytes, BytesMut};
use http::HeaderMap;
use vstd::prelude::*;

use crate::boundary::Boundary;
use crate::error::{MultipartError, ParseHeadersError};
use crate::parser::{Parser, State, MAX_HEADER_SECTION_SIZE};
use crate::section::{collect_headers, parse_section, MAX_HEADERS};
use crate::{buffer, parser, search};

verus! {

/// A multipart body that is being read: its boundary, the payload that it comes from, and what
/// has arrived of it.
#[derive(Debug)]
pub struct InnerMultipart<S> {
    boundary: Boundary,
    state: State,
    stream: S,
    buf: BytesMut,
}

impl<S> View for InnerMultipart<S> {
    type V = Parser;

    closed spec fn view(&self) -> Parser {
        Parser {
            boundary: self.boundary.octets(),
            state: self.state,
            buf: buffer::held(self.buf),
        }
    }
}

impl<S> InnerMultipart<S> {
    /// The payload.
    pub closed spec fn payload(&self) -> S {
        self.stream
    }

    /// A body of which nothing has arrived.
    pub fn new(boundary: Boundary, stream: S) -> (inner: Self)
        ensures
            inner@ == Parser::start(boundary.octets()),
            inner@.boundary == vstd::utf8::encode_utf8(boundary@),
            inner@.state == State::Skip,
            inner@.buf.len() == 0,
            inner.payload() == stream,
    {
        InnerMultipart { boundary, state: State::Skip, stream, buf: BytesMut::new() }
    }

    /// Where in the body the parser stands.
    pub fn state(&self) -> (state: State)
        ensures
            state == self@.state,
    {
        self.state
    }

    /// Puts the parser elsewhere in the body.
    pub fn set_state(&mut self, state: State)
        ensures
            final(self)@ == old(self)@.at(state),
            final(self).payload() == old(self).payload(),
    {
        self.state = state;
    }

    /// Whether nothing that has arrived is left unused.
    pub fn is_empty(&self) -> (empty: bool)
        ensures
            empty == (self@.buf.len() == 0),
    {
        self.buf.is_empty()
    }

    /// Whether the buffer can take so many bytes more.
    pub fn has_room(&self, additional: usize) -> (room: bool)
        ensures
            room == (self@.buf.len() + additional <= usize::MAX / 8),
    {
        let held: usize = self.buf.len();
        held <= usize::MAX / 8 && additional <= usize::MAX / 8 - held
    }

    /// The payload, to be asked for more.
    pub fn stream_mut(&mut self) -> (stream: &mut S)
        ensures
            *stream == old(self).payload(),
            final(self)@ == old(self)@,
            final(self).payload() == *final(stream),
    {
        &mut self.stream
    }

    /// Searches for a needle, and returns all bytes up to and **including the needle**, if it's
    /// found.
    ///
    /// If no needle is found, no bytes are returned and the buffer is unaffected.
    pub fn read_until(&mut self, needle: &[u8]) -> (bytes: Option<Bytes>)
        ensures
            final(self)@ == old(self)@.read_until(needle@).0,
            match old(self)@.read_until(needle@).1 {
                Some(read) => bytes matches Some(found) && buffer::frozen(found) == read,
                None => bytes is None,
            },
            final(self).payload() == old(self).payload(),
    {
        proof {
            search::lemma_position(self@.buf, needle@);
        }
        match search::find(&self.buf, needle) {
            Some(at) => {
                proof {
                    search::lemma_position_is(self@.buf, needle@, at as int);
                }
                Some(self.buf.split_to(at + needle.len()).freeze())
            },
            None => None,
        }
    }

    /// Reads a line, with its end.
    pub fn readline(&mut self) -> (bytes: Option<Bytes>)
        ensures
            final(self)@ == old(self)@.read_until(parser::newline()).0,
            match old(self)@.read_until(parser::newline()).1 {
                Some(read) => bytes matches Some(found) && buffer::frozen(found) == read,
                None => bytes is None,
            },
            final(self).payload() == old(self).payload(),
    {
        let newline = [10u8];
        assert(newline@ =~= parser::newline());
        self.read_until(&newline)
    }

    /// Reads a header section, and returns its fields; `None` where it has not arrived in full.
    ///
    /// A section of more than 16 KiB, or with more than 32 fields, is an overflow.
    pub fn read_headers<E>(&mut self) -> (result: Result<Option<HeaderMap>, MultipartError<E>>)
        ensures
            final(self)@ == old(self)@.read_headers().0,
            old(self)@.read_headers().1.returned_as(result),
            final(self).payload() == old(self).payload(),
    {
        let blank_line = [13u8, 10u8, 13u8, 10u8];
        assert(blank_line@ =~= parser::blank_line());
        match self.read_until(&blank_line) {
            Some(bytes) => {
                let section: &[u8] = &bytes;
                if section.len() > MAX_HEADER_SECTION_SIZE {
                    Err(MultipartError::ParseHeaders(ParseHeadersError::HeaderOverflow))
                } else {
                    collect_headers(parse_section(section, MAX_HEADERS))
                }
            },
            None => if self.buf.len() > MAX_HEADER_SECTION_SIZE {
                Err(MultipartError::ParseHeaders(ParseHeadersError::HeaderOverflow))
            } else {
                Ok(None)
            },
        }
    }

    /// Reads until a boundary is found, or the buffer is empty. The boundary itself is kept in
    /// the buffer.
    ///
    /// With the bytes comes whether a boundary was found, and whether it is the final one.
    pub fn read_until_boundary(&mut self) -> (result: (Bytes, Option<bool>))
        ensures
            final(self)@ == old(self)@.read_until_boundary().0,
            buffer::frozen(result.0) == old(self)@.read_until_boundary().1,
            result.1 == old(self)@.read_until_boundary().2,
            final(self).payload() == old(self).payload(),
    {
        let mut delimiter: Vec<u8> = Vec::new();
        delimiter.push(45);
        delimiter.push(45);
        delimiter.extend_from_slice(self.boundary.as_bytes());
        assert(delimiter@ =~= self@.delimiter());
        proof {
            search::lemma_position(self@.buf, delimiter@);
        }
        match search::find(&self.buf, delimiter.as_slice()) {
            Some(at) => {
                proof {
                    search::lemma_position_is(self@.buf, delimiter@, at as int);
                }
                let chunk = self.buf.split_to(at).freeze();
                let behind: usize = delimiter.len();
                let eof = self.buf.len() - behind >= 2 && self.buf[behind] == 45
                    && self.buf[behind + 1] == 45;
                (chunk, Some(eof))
            },
            None => (self.buf.split().freeze(), None),
        }
    }

    /// Skips until a boundary is found, or to the end of the buffer.
    ///
    /// - `None` -- no boundary found.
    /// - `Some(false)` -- boundary found, but it's not the final one.
    /// - `Some(true)` -- final boundary found.
    pub fn skip_until_boundary(&mut self, keep_boundary: bool) -> (boundary: Option<bool>)
        ensures
            final(self)@ == old(self)@.skip_until_boundary(keep_boundary).0,
            boundary == old(self)@.skip_until_boundary(keep_boundary).1,
            final(self).payload() == old(self).payload(),
    {
        let (_, boundary) = self.read_until_boundary();
        if boundary.is_some() && !keep_boundary {
            self.readline();
        }
        boundary
    }

    /// Extends the buffer by what the payload gave, or returns an error if the payload failed or
    /// is finished.
    pub fn poll_extend<E>(&mut self, item: Option<Result<Bytes, E>>) -> (result: Result<
        (),
        MultipartError<E>,
    >)
        requires
            item matches Some(Ok(chunk)) ==> old(self)@.buf.len() + buffer::frozen(chunk).len()
                <= usize::MAX / 8,
        ensures
            match item {
                Some(Ok(chunk)) => {
                    &&& result is Ok
                    &&& final(self)@ == old(self)@.extended(buffer::frozen(chunk))
                },
                Some(Err(error)) => {
                    &&& result == Err::<(), MultipartError<E>>(MultipartError::Upstream(error))
                    &&& final(self)@ == old(self)@
                },
                None => {
                    &&& result == Err::<(), MultipartError<E>>(MultipartError::UnexpectedEof)
                    &&& final(self)@ == old(self)@
                },
            },
            final(self).payload() == old(self).payload(),
    {
        match item {
            Some(Ok(chunk)) => {
                self.buf.extend_from_slice(&chunk);
                Ok(())
            },
            Some(Err(error)) => Err(MultipartError::Upstream(error)),
            None => Err(MultipartError::UnexpectedEof),
        }
    }
}

} // verus!
