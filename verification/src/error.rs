//! The errors of the parser.
use http::header::{InvalidHeaderName, InvalidHeaderValue};
use vstd::prelude::*;

verus! {

/// `httparse::Error`, of which nothing is said.
#[verifier::external_type_specification]
#[verifier::external_body]
pub struct ExHttparseError(httparse::Error);

/// `http::header::InvalidHeaderName`, of which nothing is said.
#[verifier::external_type_specification]
#[verifier::external_body]
pub struct ExInvalidHeaderName(http::header::InvalidHeaderName);

/// `http::header::InvalidHeaderValue`, of which nothing is said.
#[verifier::external_type_specification]
#[verifier::external_body]
pub struct ExInvalidHeaderValue(http::header::InvalidHeaderValue);

/// `mime::FromStrError`, of which nothing is said.
#[verifier::external_type_specification]
#[verifier::external_body]
pub struct ExFromStrError(mime::FromStrError);

/// Boundary extraction error.
#[derive(Debug)]
pub enum InvalidBoundary {
    /// `Content-Type` header missing.
    NoContentType,
    /// `Content-Type` could not be parsed.
    ParseContentType,
    /// No boundary specified.
    NoBoundary,
}

impl From<mime::FromStrError> for InvalidBoundary {
    fn from(error: mime::FromStrError) -> (converted: Self) {
        InvalidBoundary::ParseContentType
    }
}

impl vstd::std_specs::convert::FromSpecImpl<mime::FromStrError> for InvalidBoundary {
    open spec fn obeys_from_spec() -> bool {
        true
    }

    open spec fn from_spec(error: mime::FromStrError) -> Self {
        InvalidBoundary::ParseContentType
    }
}

/// Headers parsing error.
#[derive(Debug)]
pub enum ParseHeadersError {
    /// Failed to parse the HTTP header section.
    Http(httparse::Error),
    /// Invalid header name.
    InvalidName(InvalidHeaderName),
    /// Invalid header value.
    InvalidValue(InvalidHeaderValue),
    /// Too many headers specified, or more than 16 KiB of them.
    HeaderOverflow,
}

impl From<httparse::Error> for ParseHeadersError {
    fn from(error: httparse::Error) -> (converted: Self) {
        ParseHeadersError::Http(error)
    }
}

impl vstd::std_specs::convert::FromSpecImpl<httparse::Error> for ParseHeadersError {
    open spec fn obeys_from_spec() -> bool {
        true
    }

    open spec fn from_spec(error: httparse::Error) -> Self {
        ParseHeadersError::Http(error)
    }
}

impl From<InvalidHeaderName> for ParseHeadersError {
    fn from(error: InvalidHeaderName) -> (converted: Self) {
        ParseHeadersError::InvalidName(error)
    }
}

impl vstd::std_specs::convert::FromSpecImpl<InvalidHeaderName> for ParseHeadersError {
    open spec fn obeys_from_spec() -> bool {
        true
    }

    open spec fn from_spec(error: InvalidHeaderName) -> Self {
        ParseHeadersError::InvalidName(error)
    }
}

impl From<InvalidHeaderValue> for ParseHeadersError {
    fn from(error: InvalidHeaderValue) -> (converted: Self) {
        ParseHeadersError::InvalidValue(error)
    }
}

impl vstd::std_specs::convert::FromSpecImpl<InvalidHeaderValue> for ParseHeadersError {
    open spec fn obeys_from_spec() -> bool {
        true
    }

    open spec fn from_spec(error: InvalidHeaderValue) -> Self {
        ParseHeadersError::InvalidValue(error)
    }
}

/// An error.
#[derive(Debug)]
pub enum MultipartError<E> {
    /// Upstream error.
    Upstream(E),
    /// Unexpected EOF.
    UnexpectedEof,
    /// Failed to parse headers.
    ParseHeaders(ParseHeadersError),
    /// Boundary extraction error.
    Boundary(InvalidBoundary),
}

impl<E> From<InvalidBoundary> for MultipartError<E> {
    fn from(error: InvalidBoundary) -> (converted: Self) {
        MultipartError::Boundary(error)
    }
}

impl<E> vstd::std_specs::convert::FromSpecImpl<InvalidBoundary> for MultipartError<E> {
    open spec fn obeys_from_spec() -> bool {
        true
    }

    open spec fn from_spec(error: InvalidBoundary) -> Self {
        MultipartError::Boundary(error)
    }
}

impl<E> From<httparse::Error> for MultipartError<E> {
    fn from(error: httparse::Error) -> (converted: Self) {
        MultipartError::ParseHeaders(ParseHeadersError::Http(error))
    }
}

impl<E> vstd::std_specs::convert::FromSpecImpl<httparse::Error> for MultipartError<E> {
    open spec fn obeys_from_spec() -> bool {
        true
    }

    open spec fn from_spec(error: httparse::Error) -> Self {
        MultipartError::ParseHeaders(ParseHeadersError::Http(error))
    }
}

impl<E> From<InvalidHeaderName> for MultipartError<E> {
    fn from(error: InvalidHeaderName) -> (converted: Self) {
        MultipartError::ParseHeaders(ParseHeadersError::InvalidName(error))
    }
}

impl<E> vstd::std_specs::convert::FromSpecImpl<InvalidHeaderName> for MultipartError<E> {
    open spec fn obeys_from_spec() -> bool {
        true
    }

    open spec fn from_spec(error: InvalidHeaderName) -> Self {
        MultipartError::ParseHeaders(ParseHeadersError::InvalidName(error))
    }
}

impl<E> From<InvalidHeaderValue> for MultipartError<E> {
    fn from(error: InvalidHeaderValue) -> (converted: Self) {
        MultipartError::ParseHeaders(ParseHeadersError::InvalidValue(error))
    }
}

impl<E> vstd::std_specs::convert::FromSpecImpl<InvalidHeaderValue> for MultipartError<E> {
    open spec fn obeys_from_spec() -> bool {
        true
    }

    open spec fn from_spec(error: InvalidHeaderValue) -> Self {
        MultipartError::ParseHeaders(ParseHeadersError::InvalidValue(error))
    }
}

} // verus!
