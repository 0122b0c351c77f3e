//! The header fields of a download: those it sends with its requests, and
//! what it reads from the reply to its metadata request.

use crate::decimal::{append_decimal, decimal_text, decimal_u64, lemma_decimal_text_digits, parse_decimal};
use crate::error::Error;
use reqwest::header::{HeaderMap, HeaderValue};
use vstd::prelude::*;
use vstd::utf8::{encode_utf8, is_ascii_chars, is_ascii_chars_encode_utf8};

verus! {

/// The identification sent with every request, so that servers which turn
/// unidentified clients away answer.
pub const USER_AGENT_VALUE: &'static str =
    "Mozilla/5.0 (Windows NT 10.0; Win64; x64) AppleWebKit/537.36 (KHTML, like Gecko) Chrome/112.0.0.0 Safari/537.36 Edg/112.0.1722.48";

/// The identification of the client is made of printable ASCII characters.
pub proof fn lemma_user_agent_value()
    ensures
        is_ascii_chars(USER_AGENT_VALUE@),
        is_field_text(encode_utf8(USER_AGENT_VALUE@)),
{
    reveal_strlit(
        "Mozilla/5.0 (Windows NT 10.0; Win64; x64) AppleWebKit/537.36 (KHTML, like Gecko) Chrome/112.0.0.0 Safari/537.36 Edg/112.0.1722.48",
    );
    let text = USER_AGENT_VALUE@;
    assert forall|i: int| 0 <= i < text.len() implies ' ' <= #[trigger] text[i] <= '~' by {}
    assert(is_ascii_chars(text));
    is_ascii_chars_encode_utf8(text);
    assert forall|i: int| 0 <= i < encode_utf8(text).len() implies is_field_byte(
        #[trigger] encode_utf8(text)[i],
    ) by {
        assert(text[i] as u8 == encode_utf8(text)[i]);
        assert(' ' <= text[i] <= '~');
    }
}

/// The name of the header field that carries the size of the resource.
pub const CONTENT_LENGTH: &'static str = "content-length";

/// The name of the header field by which a client identifies itself.
pub const USER_AGENT: &'static str = "user-agent";

/// The name of the header field that asks for a part of the resource.
pub const RANGE: &'static str = "range";

/// `reqwest::header::HeaderMap`, the header fields of a request or a reply.
/// Nothing of its layout is known here.
#[verifier::external_type_specification]
#[verifier::external_body]
#[verifier::reject_recursive_types(T)]
pub struct ExHeaderMap<T>(HeaderMap<T>);

/// `reqwest::header::HeaderValue`, the value of one header field.  Nothing of
/// its layout is known here.
#[verifier::external_type_specification]
#[verifier::external_body]
pub struct ExHeaderValue(HeaderValue);

/// What a header map holds, as far as a download reads it: for each field
/// name that occurs, spelled in lower case, the bytes of the first value
/// stored under it.
pub uninterp spec fn header_fields(headers: HeaderMap<HeaderValue>) -> Map<Seq<char>, Seq<u8>>;

/// How many values a header map holds, all fields taken together.
pub uninterp spec fn header_count(headers: HeaderMap<HeaderValue>) -> nat;

/// The bytes that a header value holds.
pub uninterp spec fn value_bytes(value: HeaderValue) -> Seq<u8>;

/// `name` can name a header field: up to 64 characters, at least one, each
/// of them a lower-case letter, a digit or a hyphen.
pub open spec fn is_field_name(name: Seq<char>) -> bool {
    &&& 0 < name.len() <= 64
    &&& forall|i: int|
        0 <= i < name.len() ==> {
            let c = #[trigger] name[i];
            'a' <= c <= 'z' || '0' <= c <= '9' || c == '-'
        }
}

/// `b` may stand in the value of a header field: a tab, or any byte from the
/// space upwards but for the delete character.
pub open spec fn is_field_byte(b: u8) -> bool {
    b >= 32 && b != 127 || b == 9
}

/// Every byte of `text` may stand in the value of a header field.
pub open spec fn is_field_text(text: Seq<u8>) -> bool {
    forall|i: int| 0 <= i < text.len() ==> is_field_byte(#[trigger] text[i])
}

/// The contents of a header map without fields.
pub open spec fn no_fields() -> Map<Seq<char>, Seq<u8>> {
    Map::empty()
}

/// Calls `HeaderMap::new`.  Not proved: that the new map holds no field and
/// no value.
#[verifier::external_body]
fn new_headers() -> (headers: HeaderMap<HeaderValue>)
    ensures
        header_fields(headers) == no_fields(),
        header_count(headers) == 0,
{
    HeaderMap::new()
}

/// Calls `HeaderValue::from_str`.  Not proved: that a value is made exactly
/// of texts whose every byte may stand in a header value, and that it then
/// holds the bytes of the text.
#[verifier::external_body]
fn field_value(text: &str) -> (value: Option<HeaderValue>)
    ensures
        match value {
            Some(v) => is_field_text(encode_utf8(text@)) && value_bytes(v) == encode_utf8(text@),
            None => !is_field_text(encode_utf8(text@)),
        },
{
    HeaderValue::from_str(text).ok()
}

/// Calls `HeaderMap::insert` with the field name given as text.  Not proved:
/// that afterwards `value` is the one value stored under `name`, that the
/// other fields are as before, and that the map has grown by one value at
/// most.  `insert` panics on a text that cannot name a field and on a map
/// that is full, which it is at 32768 values; both are kept out.
#[verifier::external_body]
fn set_field(headers: &mut HeaderMap<HeaderValue>, name: &'static str, value: HeaderValue)
    requires
        is_field_name(name@),
        header_count(*old(headers)) < 16,
    ensures
        header_fields(*final(headers)) == header_fields(*old(headers)).insert(
            name@,
            value_bytes(value),
        ),
        header_count(*final(headers)) <= header_count(*old(headers)) + 1,
{
    headers.insert(name, value);
}

/// No character of `name` is an upper-case ASCII letter.
pub open spec fn is_lower_case(name: Seq<char>) -> bool {
    forall|i: int| 0 <= i < name.len() ==> !('A' <= #[trigger] name[i] <= 'Z')
}

/// The value stored under `name`, if there is one.
pub open spec fn field_of(fields: Map<Seq<char>, Seq<u8>>, name: Seq<char>) -> Option<Seq<u8>> {
    if fields.contains_key(name) {
        Some(fields[name])
    } else {
        None
    }
}

/// Calls `HeaderMap::get` with a field name given as text, and copies the
/// bytes of the value found (`HeaderValue::as_bytes`).  Not proved: that the
/// answer is the first value stored under that name, and `None` exactly when
/// the map has no field of that name.  The map finds names whatever their
/// case, so the claim is made for names without upper-case letters only.
#[verifier::external_body]
fn first_value(headers: &HeaderMap<HeaderValue>, name: &str) -> (value: Option<Vec<u8>>)
    requires
        is_lower_case(name@),
    ensures
        match value {
            Some(bytes) => field_of(header_fields(*headers), name@) == Some(bytes@),
            None => field_of(header_fields(*headers), name@).is_none(),
        },
{
    headers.get(name).map(|value| value.as_bytes().to_vec())
}

/// The value of the `Range` header that asks for the bytes `start` to `end`,
/// both included: `bytes=<start>-<end>`, the numbers in decimal.
pub open spec fn range_header_text(start: u64, end: u64) -> Seq<char> {
    "bytes="@ + decimal_text(start as nat) + "-"@ + decimal_text(end as nat)
}

/// The value of a `Range` header is made of printable ASCII characters.
pub proof fn lemma_range_header_text(start: u64, end: u64)
    ensures
        is_ascii_chars(range_header_text(start, end)),
        is_field_text(encode_utf8(range_header_text(start, end))),
{
    let text = range_header_text(start, end);
    reveal_strlit("bytes=");
    reveal_strlit("-");
    lemma_decimal_text_digits(start as nat);
    lemma_decimal_text_digits(end as nat);
    let a = "bytes="@;
    let b = decimal_text(start as nat);
    let c = "-"@;
    let d = decimal_text(end as nat);
    assert forall|i: int| 0 <= i < text.len() implies ' ' <= #[trigger] text[i] <= '~' by {
        if i < a.len() {
            assert(text[i] == a[i]);
        } else if i < a.len() + b.len() {
            assert(text[i] == b[i - a.len()]);
        } else if i < a.len() + b.len() + c.len() {
            assert(text[i] == c[i - a.len() - b.len()]);
        } else {
            assert(text[i] == d[i - a.len() - b.len() - c.len()]);
        }
    }
    assert(is_ascii_chars(text));
    is_ascii_chars_encode_utf8(text);
    assert forall|i: int| 0 <= i < encode_utf8(text).len() implies is_field_byte(
        #[trigger] encode_utf8(text)[i],
    ) by {
        assert(text[i] as u8 == encode_utf8(text)[i]);
        assert(' ' <= text[i] <= '~');
    }
}

/// Spells the value of the `Range` header for the bytes `start` to `end`.
pub fn range_header_value(start: u64, end: u64) -> (value: String)
    ensures
        value@ == range_header_text(start, end),
{
    let mut value = String::from_str("bytes=");
    append_decimal(&mut value, start);
    value.append("-");
    append_decimal(&mut value, end);
    value
}

/// The header fields of a request: the identification of the client, and
/// the range asked for where the request is for a part of the resource.
pub open spec fn request_fields(range: Option<(u64, u64)>) -> Map<Seq<char>, Seq<u8>> {
    let fields = no_fields().insert(USER_AGENT@, encode_utf8(USER_AGENT_VALUE@));
    match range {
        Some((start, end)) => fields.insert(RANGE@, encode_utf8(range_header_text(start, end))),
        None => fields,
    }
}

/// Makes the header fields of a request.  Without a range it is the request
/// for the metadata of the resource; with the range `(start, end)` it is the
/// request for those bytes of it.
pub fn request_headers(range: Option<(u64, u64)>) -> (headers: HeaderMap<HeaderValue>)
    ensures
        header_fields(headers) == request_fields(range),
{
    let mut headers = new_headers();
    proof {
        reveal_strlit("user-agent");
        reveal_strlit("range");
        lemma_user_agent_value();
    }
    match field_value(USER_AGENT_VALUE) {
        Some(agent) => {
            set_field(&mut headers, USER_AGENT, agent);
        },
        None => {
            assert(false);
        },
    }
    match range {
        Some((start, end)) => {
            let text = range_header_value(start, end);
            proof {
                lemma_range_header_text(start, end);
            }
            match field_value(text.as_str()) {
                Some(value) => {
                    set_field(&mut headers, RANGE, value);
                },
                None => {
                    assert(false);
                },
            }
        },
        None => {},
    }
    headers
}

/// What a download needs to know from the reply to its metadata request.
pub struct ResponseHeaderInfo {
    /// The size of the resource in bytes, where the reply states one.
    pub content_length: Option<u64>,
}

/// The size that a `content-length` field states: the field must be there
/// and hold an unsigned decimal number that fits 64 bits.
pub open spec fn content_length_of(field: Option<Seq<u8>>) -> Option<u64> {
    match field {
        Some(text) => decimal_u64(text),
        None => None,
    }
}

impl ResponseHeaderInfo {
    /// Reads the size from the raw `content-length` field of a reply, `None`
    /// standing for a reply without that field.  A field that is no number
    /// gives no size.
    pub fn from_content_length(field: Option<&[u8]>) -> (info: ResponseHeaderInfo)
        ensures
            info.content_length == content_length_of(
                match field {
                    Some(text) => Some(text@),
                    None => None,
                },
            ),
    {
        match field {
            Some(text) => ResponseHeaderInfo { content_length: parse_decimal(text) },
            None => ResponseHeaderInfo { content_length: None },
        }
    }

    /// The size of the resource.  A reply that states no usable size is a
    /// failure of its own: a guessed size would put every range in the wrong
    /// place.
    pub fn total_size(&self) -> (size: Result<u64, Error>)
        ensures
            size == match self.content_length {
                Some(n) => Ok::<u64, Error>(n),
                None => Err::<u64, Error>(Error::ProtocolError),
            },
    {
        match self.content_length {
            Some(n) => Ok(n),
            None => Err(Error::ProtocolError),
        }
    }
}

/// Extracts from the header fields of a reply what a download needs: the size
/// that its `content-length` field states, if it states one.
pub fn get_header_info(headers: &HeaderMap<HeaderValue>) -> (info: ResponseHeaderInfo)
    ensures
        info.content_length == content_length_of(
            field_of(header_fields(*headers), CONTENT_LENGTH@),
        ),
{
    proof {
        reveal_strlit("content-length");
    }
    let field: Option<Vec<u8>> = first_value(headers, CONTENT_LENGTH);
    match field {
        Some(bytes) => ResponseHeaderInfo::from_content_length(Some(bytes.as_slice())),
        None => ResponseHeaderInfo::from_content_length(None),
    }
}

/// A status code is successful when it is one of `200` to `299`.
pub open spec fn is_success(status: u16) -> bool {
    200 <= status < 300
}

/// Judges the answer to a request by its status code, `None` standing for a
/// request that could not be sent or was never answered.  Only an answer
/// with a successful status lets the download go on.
pub fn check_status(status: Option<u16>) -> (verdict: Result<(), Error>)
    ensures
        verdict == match status {
            Some(code) if is_success(code) => Ok::<(), Error>(()),
            _ => Err::<(), Error>(Error::RemoteError),
        },
{
    match status {
        Some(code) => {
            if 200 <= code && code < 300 {
                Ok(())
            } else {
                Err(Error::RemoteError)
            }
        },
        None => Err(Error::RemoteError),
    }
}

/// What the metadata request tells about the size of the resource.  No
/// reply, or a reply with a status that is not successful, is a failure of
/// the remote side; a reply that is successful but states no usable size
/// breaks the protocol.
pub open spec fn probed_size(reply: Option<(u16, Map<Seq<char>, Seq<u8>>)>) -> Result<u64, Error> {
    match reply {
        Some((status, fields)) if is_success(status) => match content_length_of(
            field_of(fields, CONTENT_LENGTH@),
        ) {
            Some(size) => Ok(size),
            None => Err(Error::ProtocolError),
        },
        _ => Err(Error::RemoteError),
    }
}

/// Judges the outcome of the metadata request: `reply` holds the status
/// code and the header fields of the reply, or is `None` where the request
/// could not be sent or was never answered.
pub fn probe_result(reply: Option<(u16, &HeaderMap<HeaderValue>)>) -> (size: Result<u64, Error>)
    ensures
        size == probed_size(
            match reply {
                Some((status, headers)) => Some((status, header_fields(*headers))),
                None => None,
            },
        ),
{
    match reply {
        Some((status, headers)) => match check_status(Some(status)) {
            Ok(_) => get_header_info(headers).total_size(),
            Err(e) => Err(e),
        },
        None => Err(Error::RemoteError),
    }
}

} // verus!
