//! Header fields: the `http` crate's names, values and map, and the section of a body part that
//! they are read from.
use http::header::{HeaderName, HeaderValue, InvalidHeaderName, InvalidHeaderValue, ToStrError};
use http::HeaderMap;
use vstd::prelude::*;

use crate::error::{MultipartError, ParseHeadersError};
use crate::laws;

verus! {

/// `http::header::HeaderName`; `name_text` says what it holds.
#[verifier::external_type_specification]
#[verifier::external_body]
pub struct ExHeaderName(http::header::HeaderName);

/// `http::header::HeaderValue`; `value_bytes` says what it holds.
#[verifier::external_type_specification]
#[verifier::external_body]
pub struct ExHeaderValue(http::header::HeaderValue);

/// `http::header::ToStrError`, of which nothing is said.
#[verifier::external_type_specification]
#[verifier::external_body]
pub struct ExToStrError(http::header::ToStrError);

/// `http::HeaderMap`; `fields` says what it holds.
#[verifier::external_type_specification]
#[verifier::external_body]
#[verifier::reject_recursive_types(T)]
pub struct ExHeaderMap<T>(http::HeaderMap<T>);

/// Header fields: for each name the values under it, in their order.
pub type Fields = Map<Seq<char>, Seq<Seq<u8>>>;

/// The characters of a header name.
pub uninterp spec fn name_text(name: HeaderName) -> Seq<char>;

/// The bytes of a header value.
pub uninterp spec fn value_bytes(value: HeaderValue) -> Seq<u8>;

/// The fields of a header map: for each name that it holds the values under that name, in the
/// order in which they were appended.
pub uninterp spec fn fields(map: HeaderMap) -> Fields;

/// A character that a header name may have.
pub open spec fn is_name_char(c: char) -> bool {
    let code = c as int;
    ||| 33 <= code <= 39
    ||| code == 42
    ||| code == 43
    ||| code == 45
    ||| code == 46
    ||| 48 <= code <= 57
    ||| 65 <= code <= 90
    ||| 94 <= code <= 122
    ||| code == 124
    ||| code == 126
}

/// The text of a header name, in either case.
pub open spec fn valid_name(text: Seq<char>) -> bool {
    &&& 1 <= text.len() <= 65535
    &&& forall|i: int| 0 <= i < text.len() ==> is_name_char(#[trigger] text[i])
}

/// The lower case of an ASCII letter; any other character itself.
pub open spec fn lower_char(c: char) -> char {
    if 65 <= c as int <= 90 {
        (c as int + 32) as char
    } else {
        c
    }
}

/// A text with its ASCII letters in lower case.
pub open spec fn lower(text: Seq<char>) -> Seq<char> {
    text.map_values(|c: char| lower_char(c))
}

/// The bytes of a header value: no control byte but the tab.
pub open spec fn valid_value(bytes: Seq<u8>) -> bool {
    forall|i: int| 0 <= i < bytes.len() ==> (#[trigger] bytes[i] >= 32 && bytes[i] != 127) || bytes[i] == 9
}

/// Bytes that are all visible ASCII characters, spaces or tabs.
pub open spec fn visible(bytes: Seq<u8>) -> bool {
    forall|i: int| 0 <= i < bytes.len() ==> 32 <= #[trigger] bytes[i] < 127 || bytes[i] == 9
}

/// Bytes read as characters, each for itself.
pub open spec fn as_text(bytes: Seq<u8>) -> Seq<char> {
    bytes.map_values(|b: u8| b as char)
}

/// The fields `all` with one more value under `name`, behind those that are there.
pub open spec fn appended(
    all: Fields,
    name: Seq<char>,
    value: Seq<u8>,
) -> Fields {
    if all.dom().contains(name) {
        all.insert(name, all[name].push(value))
    } else {
        all.insert(name, seq![value])
    }
}

/// `HeaderName::try_from` accepts a text of 1 to 65535 characters that are all header name
/// characters, and puts it into lower case. The error carries nothing.
#[verifier::external_body]
pub(crate) fn header_name(text: &str) -> (name: Result<HeaderName, InvalidHeaderName>)
    ensures
        name is Ok <==> valid_name(text@),
        name matches Ok(parsed) ==> name_text(parsed) == lower(text@),
{
    HeaderName::try_from(text)
}

/// `HeaderValue::try_from` accepts bytes that are no control bytes but tabs, and keeps them. The
/// error carries nothing.
#[verifier::external_body]
pub(crate) fn header_value(bytes: &[u8]) -> (value: Result<HeaderValue, InvalidHeaderValue>)
    ensures
        value is Ok <==> valid_value(bytes@),
        value matches Ok(parsed) ==> value_bytes(parsed) == bytes@,
{
    HeaderValue::try_from(bytes)
}

/// `HeaderValue::to_str` gives the value as a text where all its bytes are visible ASCII, spaces
/// or tabs: each byte is a character. The error carries nothing.
pub assume_specification[ http::header::HeaderValue::to_str ](value: &HeaderValue) -> (text: Result<&str, ToStrError>)
    ensures
        text is Ok <==> visible(value_bytes(*value)),
        text matches Ok(characters) ==> characters@ == as_text(value_bytes(*value)),
;

/// `HeaderMap::with_capacity` makes a map that holds nothing. It panics on a capacity of more
/// than 24576.
#[verifier::external_body]
pub(crate) fn header_map(capacity: usize) -> (map: HeaderMap)
    requires
        capacity <= 24576,
    ensures
        fields(map) == Fields::empty(),
{
    HeaderMap::with_capacity(capacity)
}

/// `HeaderMap::append` adds a value under a name, behind those that are there, and says whether
/// there were any. It panics where the map cannot grow, which a map of fewer than 128 names
/// always can.
#[verifier::external_body]
pub(crate) fn append(map: &mut HeaderMap, name: HeaderName, value: HeaderValue) -> (present: bool)
    requires
        fields(*old(map)).dom().finite(),
        fields(*old(map)).dom().len() < 128,
    ensures
        present == fields(*old(map)).dom().contains(name_text(name)),
        fields(*final(map)) == appended(fields(*old(map)), name_text(name), value_bytes(value)),
{
    map.append(name, value)
}

/// `HeaderMap::get` gives the first value under a name, and `None` where the map holds none. The
/// case of the name does not matter.
#[verifier::external_body]
pub(crate) fn get<'a>(map: &'a HeaderMap, name: &str) -> (value: Option<&'a HeaderValue>)
    requires
        valid_name(name@),
        name@.len() <= 64,
    ensures
        match value {
            Some(first) => {
                &&& fields(*map).dom().contains(lower(name@))
                &&& value_bytes(*first) == fields(*map)[lower(name@)][0]
            },
            None => !fields(*map).dom().contains(lower(name@)),
        },
{
    map.get(name)
}

/// A field of a header section as it was sent.
#[derive(Debug)]
pub struct RawHeader {
    pub name: String,
    pub value: Vec<u8>,
}

impl View for RawHeader {
    type V = (Seq<char>, Seq<u8>);

    open spec fn view(&self) -> (Seq<char>, Seq<u8>) {
        (self.name@, self.value@)
    }
}

/// Why a header section cannot be parsed.
#[derive(Debug)]
pub enum SectionError {
    /// There are more fields than there is room for: `httparse::Error::TooManyHeaders`.
    TooMany,
    /// Any other error of `httparse`.
    Http(httparse::Error),
}

/// What `httparse::parse_headers` makes of a header section, with room for so many fields: an
/// error, `None` where the section ends too early, or how many bytes the section takes and its
/// fields in their order.
pub uninterp spec fn parsed_section(section: Seq<u8>, slots: nat) -> Result<Option<(nat, Seq<(Seq<char>, Seq<u8>)>)>, SectionError>;

/// The fields that a header section was read into.
pub open spec fn raw_fields(raw: Seq<RawHeader>) -> Seq<(Seq<char>, Seq<u8>)> {
    raw.map_values(|field: RawHeader| field@)
}

/// A parsed header section with its fields as plain values.
pub open spec fn section_view(
    parsed: Result<Option<(usize, Vec<RawHeader>)>, SectionError>,
) -> Result<Option<(nat, Seq<(Seq<char>, Seq<u8>)>)>, SectionError> {
    match parsed {
        Ok(Some((end, raw))) => Ok(Some((end as nat, raw_fields(raw@)))),
        Ok(None) => Ok(None),
        Err(error) => Err(error),
    }
}

/// `httparse::parse_headers`, given room for `slots` fields: `parsed_section` says what it
/// returns. It never returns more fields than it has room for; where there are more, its error is
/// `TooManyHeaders`, which is told apart from its other errors.
#[verifier::external_body]
pub(crate) fn parse_section(section: &[u8], slots: usize) -> (parsed: Result<
    Option<(usize, Vec<RawHeader>)>,
    SectionError,
>)
    requires
        slots <= 65535,
    ensures
        section_view(parsed) == parsed_section(section@, slots as nat),
        parsed matches Ok(Some((_, raw))) ==> raw@.len() <= slots,
{
    let mut room = vec![httparse::EMPTY_HEADER; slots];
    match httparse::parse_headers(section, &mut room) {
        Ok(httparse::Status::Complete((end, found))) => {
            let raw = found.iter().map(|h| RawHeader { name: h.name.to_string(), value: h.value.to_vec() });
            Ok(Some((end, raw.collect())))
        },
        Ok(httparse::Status::Partial) => Ok(None),
        Err(httparse::Error::TooManyHeaders) => Err(SectionError::TooMany),
        Err(error) => Err(SectionError::Http(error)),
    }
}

/// The most fields that a header section may have.
pub const MAX_HEADERS: usize = 32;

/// What a header section comes to.
pub enum Outcome {
    /// There is no header section yet.
    Incomplete,
    /// These fields.
    Fields(Fields),
    /// The section has too many fields, is too long, or ends too early.
    Overflow,
    /// `httparse` rejects the section otherwise.
    Http(httparse::Error),
    /// The first field at fault has a name that is none.
    InvalidName,
    /// The first field at fault has a name, but a value that is none.
    InvalidValue,
}

impl Outcome {
    /// `result` is how this outcome is returned.
    pub open spec fn returned_as<E>(self, result: Result<Option<HeaderMap>, MultipartError<E>>) -> bool {
        match self {
            Outcome::Incomplete => result matches Ok(None),
            Outcome::Fields(all) => result matches Ok(Some(map)) && fields(map) == all,
            Outcome::Overflow => {
                result == Err::<Option<HeaderMap>, MultipartError<E>>(
                    MultipartError::ParseHeaders(ParseHeadersError::HeaderOverflow),
                )
            },
            Outcome::Http(error) => {
                result == Err::<Option<HeaderMap>, MultipartError<E>>(
                    MultipartError::ParseHeaders(ParseHeadersError::Http(error)),
                )
            },
            Outcome::InvalidName => {
                result matches Err(MultipartError::ParseHeaders(ParseHeadersError::InvalidName(_)))
            },
            Outcome::InvalidValue => {
                result matches Err(MultipartError::ParseHeaders(ParseHeadersError::InvalidValue(_)))
            },
        }
    }
}

/// The fields in the order in which they were sent, each with its name in lower case, up to the
/// first one at fault.
pub open spec fn collected(raw: Seq<(Seq<char>, Seq<u8>)>) -> Outcome
    decreases raw.len(),
{
    if raw.len() == 0 {
        Outcome::Fields(Fields::empty())
    } else {
        match collected(raw.drop_last()) {
            Outcome::Fields(all) => {
                let (name, value) = raw.last();
                if !valid_name(name) {
                    Outcome::InvalidName
                } else if !valid_value(value) {
                    Outcome::InvalidValue
                } else {
                    Outcome::Fields(appended(all, lower(name), value))
                }
            },
            fault => fault,
        }
    }
}

/// What a parsed header section comes to.
pub open spec fn section_outcome(
    parsed: Result<Option<(nat, Seq<(Seq<char>, Seq<u8>)>)>, SectionError>,
) -> Outcome {
    match parsed {
        Ok(Some((_, raw))) => collected(raw),
        Ok(None) => Outcome::Overflow,
        Err(SectionError::TooMany) => Outcome::Overflow,
        Err(SectionError::Http(error)) => Outcome::Http(error),
    }
}

/// A header section that was parsed is never incomplete.
pub proof fn lemma_section_decided(
    parsed: Result<Option<(nat, Seq<(Seq<char>, Seq<u8>)>)>, SectionError>,
)
    ensures
        !(section_outcome(parsed) is Incomplete),
{
    if let Ok(Some((_, raw))) = parsed {
        lemma_collected_decided(raw);
    }
}

proof fn lemma_collected_decided(raw: Seq<(Seq<char>, Seq<u8>)>)
    ensures
        !(collected(raw) is Incomplete),
    decreases raw.len(),
{
    if raw.len() > 0 {
        lemma_collected_decided(raw.drop_last());
    }
}

/// Once a field is at fault, what follows it does not matter.
pub(crate) proof fn lemma_fault_stays(raw: Seq<(Seq<char>, Seq<u8>)>, upto: int)
    requires
        0 <= upto <= raw.len(),
        !(collected(raw.take(upto)) is Fields),
    ensures
        collected(raw) == collected(raw.take(upto)),
    decreases raw.len() - upto,
{
    if upto == raw.len() {
        assert(raw.take(upto) =~= raw);
    } else {
        assert(raw.take(upto + 1).drop_last() =~= raw.take(upto));
        lemma_fault_stays(raw, upto + 1);
    }
}

/// Collects the fields of a parsed header section into a map, or returns why it cannot.
pub fn collect_headers<E>(
    parsed: Result<Option<(usize, Vec<RawHeader>)>, SectionError>,
) -> (result: Result<Option<HeaderMap>, MultipartError<E>>)
    requires
        parsed matches Ok(Some((_, raw))) ==> raw@.len() <= MAX_HEADERS,
    ensures
        section_outcome(section_view(parsed)).returned_as(result),
        result matches Ok(Some(map)) ==> {
            &&& parsed matches Ok(Some((_, raw)))
            &&& forall|name: Seq<char>|
                {
                    &&& #[trigger] fields(map).dom().contains(name) <==> laws::sent_under(
                        raw@,
                        name,
                    ).len() > 0
                    &&& fields(map).dom().contains(name) ==> fields(map)[name] == laws::sent_under(
                        raw@,
                        name,
                    )
                }
        },
{
    let ghost outcome = section_outcome(section_view(parsed));
    match parsed {
        Ok(Some((_, raw))) => {
            let mut map = header_map(raw.len());
            let ghost all = raw_fields(raw@);
            for i in 0..raw.len()
                invariant
                    raw@.len() <= MAX_HEADERS,
                    all == raw_fields(raw@),
                    outcome == section_outcome(section_view(parsed)),
                    outcome == collected(all),
                    collected(all.take(i as int)) == Outcome::Fields(fields(map)),
                    fields(map).dom().finite(),
                    fields(map).dom().len() <= i,
            {
                proof {
                    assert(all.take(i + 1).drop_last() =~= all.take(i as int));
                    assert(all.take(i + 1).last() == (raw@[i as int].name@, raw@[i as int].value@));
                }
                match header_name(raw[i].name.as_str()) {
                    Ok(name) => match header_value(raw[i].value.as_slice()) {
                        Ok(value) => {
                            append(&mut map, name, value);
                        },
                        Err(error) => {
                            proof {
                                lemma_fault_stays(all, i + 1);
                            }
                            return Err(MultipartError::from(error));
                        },
                    },
                    Err(error) => {
                        proof {
                            lemma_fault_stays(all, i + 1);
                        }
                        return Err(MultipartError::from(error));
                    },
                }
            }
            assert(all.take(raw@.len() as int) =~= all);
            proof {
                laws::law_collected(all);
                laws::lemma_sent_under(raw@);
            }
            Ok(Some(map))
        },
        Ok(None) => Err(MultipartError::ParseHeaders(ParseHeadersError::HeaderOverflow)),
        Err(SectionError::TooMany) => {
            Err(MultipartError::ParseHeaders(ParseHeadersError::HeaderOverflow))
        },
        Err(SectionError::Http(error)) => Err(MultipartError::from(error)),
    }
}

} // verus!
