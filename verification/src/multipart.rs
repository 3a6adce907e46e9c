//! A multipart body and its parts, in steps: each step is given what has happened and says what
//! is to be done.
use bytes::Bytes;
use http::HeaderMap;
use mime::Mime;
use vstd::prelude::*;

use crate::boundary::Boundary;
use crate::error::MultipartError;
use crate::inner::InnerMultipart;
use crate::parser::{BodyPoll, Input, Parser, PartPoll, State};
use crate::section::Outcome;
use crate::{boundary, buffer, media, section, steps};

verus! {

/// What has happened since the last step.
#[derive(Debug)]
pub enum Event<E> {
    /// The next part, or the next bytes of a part, are asked for.
    Poll,
    /// The payload was asked for more, and gave this.
    Item(Option<Result<Bytes, E>>),
}

impl<E> View for Event<E> {
    type V = Input<E>;

    open spec fn view(&self) -> Input<E> {
        match *self {
            Event::Poll => Input::Poll,
            Event::Item(Some(Ok(chunk))) => Input::Chunk(buffer::frozen(chunk)),
            Event::Item(Some(Err(error))) => Input::Failed(error),
            Event::Item(None) => Input::End,
        }
    }
}

/// What is to be done next.
#[derive(Debug)]
pub enum Step<T> {
    /// Ask the payload for more, and hand on what it gives.
    Extend,
    /// This is what was asked for.
    Ready(T),
}

/// A part of a multipart body.
#[derive(Debug)]
pub struct BodyPart {
    headers: HeaderMap,
    done: bool,
}

/// A multipart request.
///
/// **Each body part must be either read to completion or released before polling the next body
/// part, since they share the underlying payload.**
#[derive(Debug)]
pub struct Multipart<S> {
    inner: InnerMultipart<S>,
}

impl<S> View for Multipart<S> {
    type V = Parser;

    closed spec fn view(&self) -> Parser {
        self.inner@
    }
}

impl<E> PartPoll<E> {
    /// `step` is how this is returned.
    pub open spec fn returned_as(
        self,
        step: Step<Option<Result<BodyPart, MultipartError<E>>>>,
    ) -> bool {
        match self {
            PartPoll::Extend => step is Extend,
            PartPoll::End => step matches Step::Ready(None),
            PartPoll::Upstream(error) => {
                step matches Step::Ready(Some(Err(MultipartError::Upstream(cause)))) && cause
                    == error
            },
            PartPoll::UnexpectedEof => {
                step matches Step::Ready(Some(Err(MultipartError::UnexpectedEof)))
            },
            PartPoll::Section(Outcome::Fields(all)) => {
                step matches Step::Ready(Some(Ok(part))) && part.fields() == all && !part.is_done()
            },
            PartPoll::Section(fault) => {
                step matches Step::Ready(Some(Err(error))) && fault.returned_as(
                    Err::<Option<HeaderMap>, MultipartError<E>>(error),
                )
            },
        }
    }
}

impl<E> BodyPoll<E> {
    /// `step` is how this is returned.
    pub open spec fn returned_as(
        self,
        step: Step<Option<Result<Bytes, MultipartError<E>>>>,
    ) -> bool {
        match self {
            BodyPoll::Extend => step is Extend,
            BodyPoll::End => step matches Step::Ready(None),
            BodyPoll::Upstream(error) => {
                step matches Step::Ready(Some(Err(MultipartError::Upstream(cause)))) && cause
                    == error
            },
            BodyPoll::UnexpectedEof => {
                step matches Step::Ready(Some(Err(MultipartError::UnexpectedEof)))
            },
            BodyPoll::Chunk { bytes, last } => {
                step matches Step::Ready(Some(Ok(chunk))) && buffer::frozen(chunk) == bytes
            },
        }
    }
}

impl<S> Multipart<S> {
    /// The payload.
    pub closed spec fn payload(&self) -> S {
        self.inner.payload()
    }

    /// Constructs a new parser from a given boundary and payload.
    pub fn new(boundary: Boundary, payload: S) -> (multipart: Self)
        ensures
            multipart@ == Parser::start(boundary.octets()),
            multipart@.boundary == vstd::utf8::encode_utf8(boundary@),
            multipart@.state == State::Skip,
            multipart@.buf.len() == 0,
            multipart.payload() == payload,
    {
        Multipart { inner: InnerMultipart::new(boundary, payload) }
    }

    /// Where in the body the parser stands.
    pub fn state(&self) -> (state: State)
        ensures
            state == self@.state,
    {
        self.inner.state()
    }

    /// Whether a chunk of the payload of this length can be taken.
    pub fn has_room(&self, additional: usize) -> (room: bool)
        ensures
            room == (self@.buf.len() + additional <= usize::MAX / 8),
    {
        self.inner.has_room(additional)
    }

    /// The payload, to be asked for more.
    pub fn stream_mut(&mut self) -> (stream: &mut S)
        ensures
            *stream == old(self).payload(),
            final(self)@ == old(self)@,
            final(self).payload() == *final(stream),
    {
        self.inner.stream_mut()
    }

    /// Takes a step towards the next part.
    ///
    /// The step ends with the part, with `None` behind the last one, with an error, or with the
    /// demand for more of the payload. The next part may not be asked for while the body of one
    /// is being read.
    pub fn poll_next<E>(&mut self, event: Event<E>) -> (step: Step<
        Option<Result<BodyPart, MultipartError<E>>>,
    >)
        requires
            old(self)@.state != State::Body,
            event is Item ==> old(self)@.state != State::Eof,
            event@ matches Input::Chunk(chunk) ==> old(self)@.buf.len() + chunk.len() <= usize::MAX
                / 8,
        ensures
            final(self)@ == old(self)@.poll_part(event@).0,
            old(self)@.poll_part(event@).1.returned_as(step),
            final(self).payload() == old(self).payload(),
    {
        match event {
            Event::Poll => {
                if self.inner.state() == State::Eof {
                    return Step::Ready(None);
                }
                if self.inner.is_empty() {
                    return Step::Extend;
                }
            },
            Event::Item(item) => match self.inner.poll_extend(item) {
                Ok(()) => {},
                Err(error) => return Step::Ready(Some(Err(error))),
            },
        }
        if self.inner.state() == State::Skip {
            match self.inner.skip_until_boundary(false) {
                Some(false) => self.inner.set_state(State::Headers),
                Some(true) => {
                    self.inner.set_state(State::Eof);
                    return Step::Ready(None);
                },
                None => return Step::Extend,
            }
        }
        match self.inner.read_headers() {
            Ok(Some(headers)) => {
                self.inner.set_state(State::Body);
                Step::Ready(Some(Ok(BodyPart::new(headers))))
            },
            Ok(None) => Step::Extend,
            Err(error) => Step::Ready(Some(Err(error))),
        }
    }
}

impl BodyPart {
    /// The header fields of the part.
    pub closed spec fn fields(&self) -> section::Fields {
        section::fields(self.headers)
    }

    /// The part's body is at its end.
    pub closed spec fn is_done(&self) -> bool {
        self.done
    }

    fn new(headers: HeaderMap) -> (part: Self)
        ensures
            part.fields() == section::fields(headers),
            !part.is_done(),
    {
        BodyPart { headers, done: false }
    }

    /// Whether the part's body is at its end.
    pub fn done(&self) -> (done: bool)
        ensures
            done == self.is_done(),
    {
        self.done
    }

    /// The headers associated with this body part.
    #[must_use]
    pub fn headers(&self) -> (headers: &HeaderMap)
        ensures
            section::fields(*headers) == self.fields(),
    {
        &self.headers
    }

    /// Gets and parses the `Content-Type`.
    #[must_use]
    pub fn content_type(&self) -> (mime: Option<Mime>)
        ensures
            match content_type_of(self.fields()) {
                Some(text) => mime matches Some(parsed) && media::mime_text(parsed) == text,
                None => mime is None,
            },
    {
        proof {
            boundary::lemma_content_type_name();
        }
        match section::get(&self.headers, "content-type") {
            Some(value) => match value.to_str() {
                Ok(text) => match media::parse(text) {
                    Ok(mime) => Some(mime),
                    Err(_) => None,
                },
                Err(_) => None,
            },
            None => None,
        }
    }

    /// Takes a step towards the next bytes of the part's body.
    ///
    /// The step ends with the bytes, with `None` behind the last ones, with an error, or with the
    /// demand for more of the payload. A part that is not at its end is the one that is being
    /// read.
    pub fn poll_next<S, E>(&mut self, source: &mut Multipart<S>, event: Event<E>) -> (step: Step<
        Option<Result<Bytes, MultipartError<E>>>,
    >)
        requires
            !old(self).is_done() ==> old(source)@.state == State::Body,
            event is Item ==> !old(self).is_done(),
            event@ matches Input::Chunk(chunk) ==> old(source)@.buf.len() + chunk.len()
                <= usize::MAX / 8,
        ensures
            final(source)@ == old(source)@.poll_body(old(self).is_done(), event@).0,
            old(source)@.poll_body(old(self).is_done(), event@).1.returned_as(step),
            final(source).payload() == old(source).payload(),
            final(self).fields() == old(self).fields(),
            final(self).is_done() == (old(self).is_done() || (old(source)@.poll_body(
                false,
                event@,
            ).1 matches BodyPoll::Chunk { bytes, last } && last)),
            step matches Step::Ready(Some(Ok(chunk))) ==> buffer::frozen(chunk) + final(source)@.buf
                == old(source)@.buf + match event {
                Event::Item(Some(Ok(arrived))) => buffer::frozen(arrived),
                _ => Seq::empty(),
            },
            !(step matches Step::Ready(Some(Ok(_)))) ==> final(source)@ == old(source)@,
    {
        proof {
            if !self.done {
                let p = match event@ {
                    Input::Chunk(arrived) => source@.extended(arrived),
                    _ => source@,
                };
                steps::law_read_until_boundary_takes(p);
                assert(source@.buf + Seq::<u8>::empty() =~= source@.buf);
            }
        }
        if self.done {
            return Step::Ready(None);
        }
        match event {
            Event::Poll => if source.inner.is_empty() {
                return Step::Extend;
            },
            Event::Item(item) => match source.inner.poll_extend(item) {
                Ok(()) => {},
                Err(error) => return Step::Ready(Some(Err(error))),
            },
        }
        let (bytes, boundary) = source.inner.read_until_boundary();
        if let Some(eof) = boundary {
            if eof {
                source.inner.set_state(State::Eof);
            } else {
                source.inner.set_state(State::Skip);
            }
            self.done = true;
        }
        Step::Ready(Some(Ok(bytes)))
    }

    /// Gives the part up, as when it is dropped: the parser is to skip what is left of its body.
    /// A part that is at its end has nothing left; the parser stays where it is, and another part
    /// may be read there.
    pub fn release<S>(&self, source: &mut Multipart<S>)
        ensures
            final(source)@ == old(source)@.released(self.is_done()),
            final(source).payload() == old(source).payload(),
    {
        if !self.done {
            source.inner.set_state(State::Skip);
        }
    }
}

/// The text of the media type that header fields state in their first `Content-Type`.
pub open spec fn content_type_of(fields: section::Fields) -> Option<Seq<char>> {
    if fields.dom().contains(boundary::content_type_name()) {
        let value = fields[boundary::content_type_name()][0];
        if section::visible(value) {
            media::media_type(section::as_text(value))
        } else {
            None
        }
    } else {
        None
    }
}

} // verus!
