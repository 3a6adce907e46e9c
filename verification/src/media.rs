//! Media types: the `mime` crate's parser.
use mime::{FromStrError, Mime};
use vstd::prelude::*;

verus! {

/// `mime::Mime`; `mime_text` says what it holds.
#[verifier::external_type_specification]
#[verifier::external_body]
pub struct ExMime(mime::Mime);

/// The text of a media type.
pub uninterp spec fn mime_text(mime: Mime) -> Seq<char>;

/// The text of the media type that the `mime` crate reads out of a text, and `None` where it
/// rejects the text.
pub uninterp spec fn media_type(text: Seq<char>) -> Option<Seq<char>>;

/// The value of a parameter of the media type with the given text, as `Mime::get_param` finds it,
/// and `None` where there is no such parameter.
pub uninterp spec fn parameter(mime: Seq<char>, name: Seq<char>) -> Option<Seq<char>>;

/// `str::parse::<Mime>`, which is `Mime::from_str`: `media_type` says what it accepts, and what
/// text the result has.
#[verifier::external_body]
pub(crate) fn parse(text: &str) -> (mime: Result<Mime, FromStrError>)
    ensures
        match mime {
            Ok(mime) => media_type(text@) == Some(mime_text(mime)),
            Err(_) => media_type(text@) is None,
        },
{
    text.parse::<Mime>()
}

/// `Mime::get_param`: `parameter` says what it finds. Which parameter a name stands for depends
/// on nothing but the text of the media type.
#[verifier::external_body]
pub(crate) fn get_param(mime: &Mime, name: &str) -> (value: Option<String>)
    ensures
        match value {
            Some(value) => parameter(mime_text(*mime), name@) == Some(value@),
            None => parameter(mime_text(*mime), name@) is None,
        },
{
    mime.get_param(name).map(|value| value.to_string())
}

} // verus!
