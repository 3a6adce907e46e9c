//! The boundary between the parts of a multipart body.
use http::header::HeaderValue;
use http::HeaderMap;
use mime::Mime;
use vstd::prelude::*;
use vstd::std_specs::convert::TryFromSpecImpl;

use crate::error::InvalidBoundary;
use crate::{media, section};

verus! {

/// `actix_http::header::HeaderMap`; `actix_fields` says what it holds.
#[verifier::external_type_specification]
#[verifier::external_body]
pub struct ExActixHeaderMap(actix_http::header::HeaderMap);

/// The fields of an `actix_http` header map: for each name that it holds the values under that
/// name, in the order in which the map keeps them.
pub uninterp spec fn actix_fields(map: actix_http::header::HeaderMap) -> section::Fields;

/// `HeaderMap::get` of `actix_http` gives the first value under a name, and `None` where the map
/// holds none.
#[verifier::external_body]
pub(crate) fn actix_get<'a>(map: &'a actix_http::header::HeaderMap, name: &str) -> (value: Option<
    &'a HeaderValue,
>)
    requires
        section::valid_name(name@),
    ensures
        match value {
            Some(first) => {
                &&& actix_fields(*map).dom().contains(section::lower(name@))
                &&& section::value_bytes(*first) == actix_fields(*map)[section::lower(name@)][0]
            },
            None => !actix_fields(*map).dom().contains(section::lower(name@)),
        },
{
    map.get(name)
}

/// `String::from` a `&str` copies the text.
pub assume_specification<'a>[ <String as core::convert::From<&'a str>>::from ](text: &str) -> (copy: String)
    ensures
        copy@ == text@,
;

/// The conversion of a type into itself returns its argument.
pub assume_specification<X>[ <X as core::convert::From<X>>::from ](value: X) -> (same: X)
    ensures
        same == value,
;

/// A multipart boundary.
#[derive(Debug)]
pub struct Boundary(String);

impl View for Boundary {
    type V = Seq<char>;

    closed spec fn view(&self) -> Seq<char> {
        self.0@
    }
}

/// The name of the header field that holds the media type.
pub open spec fn content_type_name() -> Seq<char> {
    seq!['c', 'o', 'n', 't', 'e', 'n', 't', '-', 't', 'y', 'p', 'e']
}

/// The name of the media type's parameter that holds the boundary.
pub open spec fn boundary_name() -> Seq<char> {
    seq!['b', 'o', 'u', 'n', 'd', 'a', 'r', 'y']
}

/// The boundary that a media type has, from its parameter.
pub open spec fn param_boundary(param: Option<Seq<char>>) -> Result<Seq<char>, InvalidBoundary> {
    match param {
        Some(text) => Ok(text),
        None => Err(InvalidBoundary::NoBoundary),
    }
}

/// The boundary that a media type has.
pub open spec fn mime_boundary(mime: Seq<char>) -> Result<Seq<char>, InvalidBoundary> {
    param_boundary(media::parameter(mime, boundary_name()))
}

/// The boundary that the text of a `Content-Type` field has.
pub open spec fn text_boundary(text: Seq<char>) -> Result<Seq<char>, InvalidBoundary> {
    match media::media_type(text) {
        Some(mime) => mime_boundary(mime),
        None => Err(InvalidBoundary::ParseContentType),
    }
}

/// The boundary that the value of a `Content-Type` field has, where there is such a field.
pub open spec fn value_boundary(value: Option<Seq<u8>>) -> Result<Seq<char>, InvalidBoundary> {
    match value {
        None => Err(InvalidBoundary::NoContentType),
        Some(bytes) => if section::visible(bytes) {
            text_boundary(section::as_text(bytes))
        } else {
            Err(InvalidBoundary::ParseContentType)
        },
    }
}

/// The boundary that header fields have: that of their first `Content-Type`.
pub open spec fn fields_boundary(fields: section::Fields) -> Result<Seq<char>, InvalidBoundary> {
    value_boundary(
        if fields.dom().contains(content_type_name()) {
            Some(fields[content_type_name()][0])
        } else {
            None
        },
    )
}

/// `result` holds the boundary `expected`, or its error.
pub open spec fn is_boundary(
    result: Result<Boundary, InvalidBoundary>,
    expected: Result<Seq<char>, InvalidBoundary>,
) -> bool {
    match expected {
        Ok(text) => result matches Ok(boundary) && boundary@ == text,
        Err(error) => result == Err::<Boundary, InvalidBoundary>(error),
    }
}

/// `content-type` is the text of a header name in lower case.
pub proof fn lemma_content_type_name()
    ensures
        "content-type"@ == content_type_name(),
        section::valid_name(content_type_name()),
        section::lower(content_type_name()) == content_type_name(),
{
    reveal_strlit("content-type");
    assert("content-type"@ =~= content_type_name());
    assert(section::lower(content_type_name()) =~= content_type_name());
}

impl Boundary {
    /// The boundary as bytes: its characters in UTF-8.
    pub open spec fn octets(&self) -> Seq<u8> {
        vstd::utf8::encode_utf8(self@)
    }

    /// Constructs a new boundary: the text that `data` converts into.
    pub fn new<T: Into<String>>(data: T) -> (boundary: Self)
        ensures
            exists|text: String| #[trigger]
                call_ensures(<T as Into<String>>::into, (data,), text) && boundary@ == text@,
    {
        let text: String = data.into();
        Boundary(text)
    }

    /// Converts the text of a `Content-Type` header into a boundary.
    ///
    /// Fails where the text is no media type, and where the media type has no boundary.
    pub fn try_from_header(h: &str) -> (result: Result<Self, InvalidBoundary>)
        ensures
            is_boundary(result, text_boundary(h@)),
            match media::media_type(h@) {
                Some(mime) => match media::parameter(mime, "boundary"@) {
                    Some(text) => result matches Ok(boundary) && boundary@ == text,
                    None => result matches Err(InvalidBoundary::NoBoundary),
                },
                None => result matches Err(InvalidBoundary::ParseContentType),
            },
    {
        match media::parse(h) {
            Ok(mime) => Self::try_from(&mime),
            Err(error) => Err(InvalidBoundary::from(error)),
        }
    }

    /// The boundary out of the media type's `boundary` parameter.
    pub fn from_param(param: Option<String>) -> (result: Result<Self, InvalidBoundary>)
        ensures
            is_boundary(
                result,
                param_boundary(
                    match param {
                        Some(text) => Some(text@),
                        None => None,
                    },
                ),
            ),
            match param {
                Some(text) => result matches Ok(boundary) && boundary@ == text@,
                None => result matches Err(InvalidBoundary::NoBoundary),
            },
    {
        match param {
            Some(text) => Ok(Self::new(text)),
            None => Err(InvalidBoundary::NoBoundary),
        }
    }

    /// The boundary out of the first `Content-Type` header, where there is one.
    pub fn from_content_type(value: Option<&HeaderValue>) -> (result: Result<Self, InvalidBoundary>)
        ensures
            is_boundary(
                result,
                value_boundary(
                    match value {
                        Some(first) => Some(section::value_bytes(*first)),
                        None => None,
                    },
                ),
            ),
    {
        match value {
            Some(first) => match first.to_str() {
                Ok(text) => Self::try_from_header(text),
                Err(_) => Err(InvalidBoundary::ParseContentType),
            },
            None => Err(InvalidBoundary::NoContentType),
        }
    }

    /// The length of the boundary in bytes.
    #[must_use]
    pub fn len(&self) -> (len: usize)
        ensures
            len == self.octets().len(),
            len == vstd::utf8::encode_utf8(self@).len(),
    {
        self.as_bytes().len()
    }

    /// The boundary as bytes.
    #[must_use]
    pub fn as_bytes(&self) -> (bytes: &[u8])
        ensures
            bytes@ == self.octets(),
            bytes@ == vstd::utf8::encode_utf8(self@),
    {
        self.0.as_str().as_bytes()
    }
}

impl AsRef<str> for Boundary {
    fn as_ref(&self) -> (text: &str)
        ensures
            text@ == self@,
    {
        self.0.as_str()
    }
}

impl<'a> TryFrom<&'a Mime> for Boundary {
    type Error = InvalidBoundary;

    fn try_from(value: &'a Mime) -> (result: Result<Self, InvalidBoundary>)
        ensures
            is_boundary(result, mime_boundary(media::mime_text(*value))),
            match media::parameter(media::mime_text(*value), "boundary"@) {
                Some(text) => result matches Ok(boundary) && boundary@ == text,
                None => result matches Err(InvalidBoundary::NoBoundary),
            },
    {
        proof {
            reveal_strlit("boundary");
            assert("boundary"@ =~= boundary_name());
        }
        Self::from_param(media::get_param(value, "boundary"))
    }
}

impl<'a> TryFromSpecImpl<&'a Mime> for Boundary {
    open spec fn obeys_try_from_spec() -> bool {
        false
    }

    open spec fn try_from_spec(value: &'a Mime) -> Result<Self, InvalidBoundary> {
        arbitrary()
    }
}

impl<'a> TryFrom<&'a HeaderMap> for Boundary {
    type Error = InvalidBoundary;

    fn try_from(value: &'a HeaderMap) -> (result: Result<Self, InvalidBoundary>)
        ensures
            is_boundary(result, fields_boundary(section::fields(*value))),
    {
        proof {
            lemma_content_type_name();
        }
        Self::from_content_type(section::get(value, "content-type"))
    }
}

impl<'a> TryFromSpecImpl<&'a HeaderMap> for Boundary {
    open spec fn obeys_try_from_spec() -> bool {
        false
    }

    open spec fn try_from_spec(value: &'a HeaderMap) -> Result<Self, InvalidBoundary> {
        arbitrary()
    }
}

impl<'a> TryFrom<&'a actix_http::header::HeaderMap> for Boundary {
    type Error = InvalidBoundary;

    fn try_from(value: &'a actix_http::header::HeaderMap) -> (result: Result<Self, InvalidBoundary>)
        ensures
            is_boundary(result, fields_boundary(actix_fields(*value))),
    {
        proof {
            lemma_content_type_name();
        }
        Self::from_content_type(actix_get(value, "content-type"))
    }
}

impl<'a> TryFromSpecImpl<&'a actix_http::header::HeaderMap> for Boundary {
    open spec fn obeys_try_from_spec() -> bool {
        false
    }

    open spec fn try_from_spec(value: &'a actix_http::header::HeaderMap) -> Result<Self, InvalidBoundary> {
        arbitrary()
    }
}

} // verus!
