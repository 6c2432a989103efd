//! What the crate takes from other crates, and what it relies on there.
//!
//! Nothing in this module is proved. Each function hands plain values to the function of another
//! crate that its comment names and hands back plain values, and its contract says what the crate
//! believes of the call.

use vstd::prelude::*;

use crate::util::path::{PathValue, PathValueView};

verus! {

/// A char of a request method: `!`, `*`, `+`, `-`, `.`, `^`, `_`, `` ` ``, `|`, `~`, a digit or a
/// letter.
pub open spec fn is_method_char(b: u8) -> bool {
    ||| b == 33 || b == 42 || b == 43 || b == 45 || b == 46
    ||| b == 94 || b == 95 || b == 96 || b == 124 || b == 126
    ||| 48 <= b <= 57 || 65 <= b <= 90 || 97 <= b <= 122
}

/// A request method.
pub open spec fn valid_method(s: Seq<u8>) -> bool {
    s.len() > 0 && forall|i: int| 0 <= i < s.len() ==> is_method_char(#[trigger] s[i])
}

/// Tells with `http::Method::from_bytes` whether a byte string is a request method. The claim is
/// that exactly the non-empty strings of method chars are accepted.
#[verifier::external_body]
pub(crate) fn is_valid_method(bytes: &[u8]) -> (ret: bool)
    ensures
        ret == valid_method(bytes@),
{
    http::Method::from_bytes(bytes).is_ok()
}

/// The path of the request target `bytes`, or `None` where `bytes` is no target.
pub uninterp spec fn path_of_uri(bytes: Seq<u8>) -> Option<Seq<char>>;

/// Parses a request target with `http::Uri::try_from` and returns its path. Which targets are
/// accepted and what their path is depends on the bytes alone.
#[verifier::external_body]
pub(crate) fn uri_path(bytes: &[u8]) -> (path: Option<String>)
    ensures
        path_of_uri(bytes@) == match path {
            Some(path) => Some(path@),
            None => None,
        },
{
    http::Uri::try_from(bytes).ok().map(|uri| uri.path().to_owned())
}

/// A char of a header name: one of ``! " # $ % & ' * + - . ^ _ ` | ~``, a digit or a letter.
pub open spec fn is_header_name_char(b: u8) -> bool {
    ||| 33 <= b <= 39 || b == 42 || b == 43 || b == 45 || b == 46
    ||| b == 94 || b == 95 || b == 96 || b == 124 || b == 126
    ||| 48 <= b <= 57 || 65 <= b <= 90 || 97 <= b <= 122
}

/// A header name.
pub open spec fn valid_header_name(s: Seq<u8>) -> bool {
    &&& 0 < s.len() <= 65535
    &&& forall|i: int| 0 <= i < s.len() ==> is_header_name_char(#[trigger] s[i])
}

/// A byte string with all its letters in lower case.
pub open spec fn lower_case(s: Seq<u8>) -> Seq<u8> {
    Seq::new(
        s.len(),
        |i: int|
            if 65 <= s[i] <= 90 {
                (s[i] + 32) as u8
            } else {
                s[i]
            },
    )
}

/// Parses a header name with `http::header::HeaderName::from_bytes`. The claim is that exactly the
/// strings of 1 to 65535 header name chars are accepted, and that the name is the string in lower
/// case.
#[verifier::external_body]
pub(crate) fn header_name(bytes: &[u8]) -> (name: Option<Vec<u8>>)
    ensures
        name is Some <==> valid_header_name(bytes@),
        name matches Some(name) ==> name@ == lower_case(bytes@),
{
    let name = http::header::HeaderName::from_bytes(bytes).ok()?;
    Some(name.as_str().as_bytes().to_vec())
}

/// A header value: no control characters but the tab.
pub open spec fn valid_header_value(s: Seq<u8>) -> bool {
    forall|i: int|
        0 <= i < s.len() ==> {
            let b = #[trigger] s[i];
            b >= 32 && b != 127 || b == 9
        }
}

/// Parses a header value with `http::HeaderValue::from_bytes`. The claim is that exactly the
/// strings without control characters, but for the tab, are accepted and kept as they are.
#[verifier::external_body]
pub(crate) fn header_value(bytes: &[u8]) -> (value: Option<Vec<u8>>)
    ensures
        value is Some <==> valid_header_value(bytes@),
        value matches Some(value) ==> value@ == bytes@,
{
    let value = http::HeaderValue::from_bytes(bytes).ok()?;
    Some(value.as_bytes().to_vec())
}

/// The chars which a string of ASCII bytes stands for.
pub open spec fn ascii_chars(s: Seq<u8>) -> Seq<char> {
    Seq::new(s.len(), |i: int| s[i] as char)
}

/// Whether all bytes are visible ASCII chars, spaces or tabs.
pub open spec fn is_visible(s: Seq<u8>) -> bool {
    forall|i: int|
        0 <= i < s.len() ==> {
            let b = #[trigger] s[i];
            32 <= b < 127 || b == 9
        }
}

/// Reads a header value as text with `http::HeaderValue::to_str`. The claim is that exactly the
/// values of visible ASCII chars, spaces and tabs are accepted.
#[verifier::external_body]
pub(crate) fn value_text(value: &[u8]) -> (text: Option<String>)
    requires
        valid_header_value(value@),
    ensures
        text is Some <==> is_visible(value@),
        text matches Some(text) ==> text@ == ascii_chars(value@),
{
    let value = http::HeaderValue::from_bytes(value).ok()?;
    value.to_str().ok().map(|text| text.to_owned())
}

/// Declares `http::HeaderValue`. Nothing is claimed of it.
#[verifier::external_type_specification]
#[verifier::external_body]
pub struct ExHeaderValue(http::HeaderValue);

/// Declares `http::HeaderMap`. What one holds is named by [`fields`].
#[verifier::external_type_specification]
#[verifier::external_body]
#[verifier::reject_recursive_types(T)]
pub struct ExHeaderMap<T>(http::HeaderMap<T>);

/// The header fields of a message.
pub type Headers = http::HeaderMap<http::HeaderValue>;

/// A header name with all its values.
pub type Field = (Seq<u8>, Seq<Seq<u8>>);

/// What a [`Headers`] holds: the fields in the order in which their names came first, each with
/// its values in the order in which they came.
pub uninterp spec fn fields(headers: http::HeaderMap<http::HeaderValue>) -> Seq<Field>;

/// Whether there is a field with the given name.
pub open spec fn has_field(fields: Seq<Field>, name: Seq<u8>) -> bool {
    exists|i: int| 0 <= i < fields.len() && (#[trigger] fields[i]).0 == name
}

/// All values of the field with the given name.
pub open spec fn field_values(fields: Seq<Field>, name: Seq<u8>) -> Seq<Seq<u8>>
    decreases fields.len(),
{
    if fields.len() == 0 {
        Seq::empty()
    } else if fields.last().0 == name {
        fields.last().1
    } else {
        field_values(fields.drop_last(), name)
    }
}

/// The fields with one more value for a name.
pub open spec fn with_appended(fields: Seq<Field>, name: Seq<u8>, value: Seq<u8>) -> Seq<Field> {
    if has_field(fields, name) {
        Seq::new(
            fields.len(),
            |i: int|
                if fields[i].0 == name {
                    (name, fields[i].1.push(value))
                } else {
                    fields[i]
                },
        )
    } else {
        fields.push((name, seq![value]))
    }
}

/// The fields with a value in place of all the values of a name.
pub open spec fn with_inserted(fields: Seq<Field>, name: Seq<u8>, value: Seq<u8>) -> Seq<Field> {
    if has_field(fields, name) {
        Seq::new(
            fields.len(),
            |i: int|
                if fields[i].0 == name {
                    (name, seq![value])
                } else {
                    fields[i]
                },
        )
    } else {
        fields.push((name, seq![value]))
    }
}

/// All pairs of a name and a value, field by field.
pub open spec fn field_lines(fields: Seq<Field>) -> Seq<(Seq<u8>, Seq<u8>)>
    decreases fields.len(),
{
    if fields.len() == 0 {
        Seq::empty()
    } else {
        let last = fields.last();
        field_lines(fields.drop_last()) + Seq::new(last.1.len(), |i: int| (last.0, last.1[i]))
    }
}

/// The number of distinct names up to which a [`Headers`] is sure to take in one more field. A
/// bigger one may refuse, depending on how its names are hashed.
pub const FIELDS_GUARANTEED: usize = 6553;

/// Creates headers without a field with `http::HeaderMap::new`.
#[verifier::external_body]
pub(crate) fn new_headers() -> (headers: Headers)
    ensures
        fields(headers) == Seq::<Field>::empty(),
{
    http::HeaderMap::new()
}

/// Adds a value to the field with the given name with `http::HeaderMap::try_append`. The claims
/// are that the value becomes the last one of the field, that the name is compared in lower case,
/// that nothing changes where the map refuses to grow, and that it does not refuse as long as it
/// holds at most [`FIELDS_GUARANTEED`] names.
#[verifier::external_body]
pub(crate) fn try_append(headers: &mut Headers, name: &[u8], value: &[u8]) -> (ret: bool)
    requires
        valid_header_name(name@),
        valid_header_value(value@),
    ensures
        fields(*final(headers)) == if ret {
            with_appended(fields(*old(headers)), lower_case(name@), value@)
        } else {
            fields(*old(headers))
        },
        fields(*old(headers)).len() <= FIELDS_GUARANTEED ==> ret,
{
    let name = http::header::HeaderName::from_bytes(name).unwrap();
    let value = http::HeaderValue::from_bytes(value).unwrap();
    headers.try_append(name, value).is_ok()
}

/// Replaces all values of the field with the given name with `http::HeaderMap::try_insert`. The
/// claims are that the value becomes the only one of the field, that a field which exists keeps
/// its place, that the name is compared in lower case, that nothing changes where the map refuses
/// to grow, and that it does not refuse as long as it holds at most [`FIELDS_GUARANTEED`] names.
#[verifier::external_body]
pub(crate) fn try_insert(headers: &mut Headers, name: &[u8], value: &[u8]) -> (ret: bool)
    requires
        valid_header_name(name@),
        valid_header_value(value@),
    ensures
        fields(*final(headers)) == if ret {
            with_inserted(fields(*old(headers)), lower_case(name@), value@)
        } else {
            fields(*old(headers))
        },
        fields(*old(headers)).len() <= FIELDS_GUARANTEED ==> ret,
{
    let name = http::header::HeaderName::from_bytes(name).unwrap();
    let value = http::HeaderValue::from_bytes(value).unwrap();
    headers.try_insert(name, value).is_ok()
}

/// Looks up all values of the field with the given name with `http::HeaderMap::get_all`. The
/// claims are that the values come in the order in which they were added, that the name is
/// compared in lower case, and that each of them is a valid header value.
#[verifier::external_body]
pub(crate) fn get_all(headers: &Headers, name: &[u8]) -> (values: Vec<Vec<u8>>)
    requires
        valid_header_name(name@),
    ensures
        crate::parse::views(values@) == field_values(fields(*headers), lower_case(name@)),
        forall|i: int| 0 <= i < values@.len() ==> valid_header_value((#[trigger] values@[i])@),
{
    let name = http::header::HeaderName::from_bytes(name).unwrap();
    headers.get_all(name).iter().map(|value| value.as_bytes().to_vec()).collect()
}

/// Looks up the first value of the field with the given name with `http::HeaderMap::get`. The
/// claims are that it is the one which was added first, that the name is compared in lower case,
/// and that it is a valid header value.
#[verifier::external_body]
pub(crate) fn get_first(headers: &Headers, name: &[u8]) -> (value: Option<Vec<u8>>)
    requires
        valid_header_name(name@),
    ensures
        value == None::<Vec<u8>> <==> field_values(fields(*headers), lower_case(name@)).len() == 0,
        value matches Some(value) ==> value@ == field_values(
            fields(*headers),
            lower_case(name@),
        )[0] && valid_header_value(value@),
{
    let name = http::header::HeaderName::from_bytes(name).unwrap();
    headers.get(name).map(|value| value.as_bytes().to_vec())
}

/// What a list of pairs of byte strings holds.
pub open spec fn pair_views(list: Seq<(Vec<u8>, Vec<u8>)>) -> Seq<(Seq<u8>, Seq<u8>)> {
    Seq::new(list.len(), |i: int| (list[i].0@, list[i].1@))
}

/// Lists all names and values with `http::HeaderMap::iter`. The claim is that the fields come in
/// the order in which their names came first, each with its values in their order.
#[verifier::external_body]
pub(crate) fn header_lines(headers: &Headers) -> (lines: Vec<(Vec<u8>, Vec<u8>)>)
    ensures
        pair_views(lines@) == field_lines(fields(*headers)),
{
    headers.iter().map(|(name, value)| (name.as_str().into(), value.as_bytes().to_vec())).collect()
}

/// The reason phrase of a status code.
pub uninterp spec fn reason_phrase(status: u16) -> Option<Seq<char>>;

/// Looks up the reason phrase of a status code with `http::StatusCode::canonical_reason`. Which one
/// it is depends on the code alone. The claims beside are that a phrase consists of ASCII chars, and
/// that the phrase of the code 100 is `Continue`.
#[verifier::external_body]
pub(crate) fn canonical_reason(status: u16) -> (reason: Option<String>)
    requires
        100 <= status <= 999,
    ensures
        reason_phrase(status) == match reason {
            Some(reason) => Some(reason@),
            None => None,
        },
        reason matches Some(reason) ==> vstd::utf8::is_ascii_chars(reason@),
        status == 100 ==> (reason matches Some(reason) && reason@ == "Continue"@),
{
    let status = http::StatusCode::from_u16(status).unwrap();
    status.canonical_reason().map(|reason| reason.to_owned())
}

/// The date and time `secs` seconds after the begin of the year 1970 in UTC, as text.
pub uninterp spec fn rfc2822_text(secs: i64) -> Seq<char>;

/// The seconds for which the year has four digits.
pub open spec fn in_calendar(secs: i64) -> bool {
    -62_167_219_200 <= secs <= 253_402_300_799
}

/// Writes a date and time with `chrono::DateTime::to_rfc2822`. The text depends on the seconds
/// alone. The claims beside are that it consists of visible ASCII chars and spaces and ends with
/// the five chars of the time zone. The outside function panics for years which do not have four
/// digits, hence those are left out.
#[verifier::external_body]
pub(crate) fn to_rfc2822(secs: i64) -> (text: String)
    requires
        in_calendar(secs),
    ensures
        text@ == rfc2822_text(secs),
        text@.len() >= 5,
        forall|i: int| 0 <= i < text@.len() ==> ' ' <= #[trigger] text@[i] <= '~',
{
    chrono::DateTime::<chrono::Utc>::from_timestamp(secs, 0).unwrap().to_rfc2822()
}

/// The date and time which a text stands for: the seconds since the begin of the year 1970, the
/// nanoseconds within the second and the offset of the time zone in seconds.
pub uninterp spec fn parsed_rfc2822(text: Seq<char>) -> Option<(i64, u32, i32)>;

/// Parses a date and time with `chrono::DateTime::parse_from_rfc2822`. The outcome depends on the
/// text alone.
#[verifier::external_body]
pub(crate) fn parse_rfc2822(text: &str) -> (date: Option<(i64, u32, i32)>)
    ensures
        date == parsed_rfc2822(text@),
{
    let date = chrono::DateTime::parse_from_rfc2822(text).ok()?;
    let offset = date.offset().local_minus_utc();
    Some((date.timestamp(), date.timestamp_subsec_nanos(), offset))
}

/// The MIME type of a file with the given path.
pub uninterp spec fn mime_type(path: Seq<char>) -> Option<Seq<char>>;

/// Guesses the MIME type of a file with `mime_guess::from_path`. The outcome depends on the path
/// alone. The claim beside is that a type consists of ASCII chars.
#[verifier::external_body]
pub(crate) fn guess_mime_type(path: &str) -> (mime: Option<String>)
    ensures
        mime_type(path@) == match mime {
            Some(mime) => Some(mime@),
            None => None,
        },
        mime matches Some(mime) ==> vstd::utf8::is_ascii_chars(mime@),
{
    mime_guess::from_path(path).first_raw().map(|mime| mime.to_owned())
}

/// Declares `std::path::PathBuf`. Nothing is claimed of it.
#[verifier::external_type_specification]
#[verifier::external_body]
pub struct ExPathBuf(std::path::PathBuf);

/// Declares `serde_json::Value`. Nothing is claimed of it.
#[verifier::external_type_specification]
#[verifier::external_body]
pub struct ExJsonValue(serde_json::Value);

/// Declares `serde_json::Map`. What one holds is named by [`json_entries`].
#[verifier::external_type_specification]
#[verifier::external_body]
#[verifier::reject_recursive_types(K)]
#[verifier::reject_recursive_types(V)]
pub struct ExJsonMap<K, V>(serde_json::Map<K, V>);

/// A JSON object.
pub type JsonMap = serde_json::Map<String, serde_json::Value>;

/// The names of a JSON object with their values. A number is in the form in which `serde_json` writes
/// it.
pub uninterp spec fn json_entries(map: serde_json::Map<String, serde_json::Value>) -> Map<
    Seq<char>,
    PathValueView,
>;

/// The number which a text stands for, in the form in which `serde_json` writes it, or `None` where
/// the text is no number.
pub uninterp spec fn json_number(text: Seq<char>) -> Option<Seq<char>>;

/// Parses a number with `serde_json::Number::from_str` and writes it again. Which texts are numbers
/// and which number they stand for depends on the text alone.
#[verifier::external_body]
pub(crate) fn parse_json_number(text: &str) -> (number: Option<String>)
    ensures
        json_number(text@) == match number {
            Some(number) => Some(number@),
            None => None,
        },
{
    text.parse::<serde_json::Number>().ok().map(|number| number.to_string())
}

/// Creates a JSON object without an entry with `serde_json::Map::new`.
#[verifier::external_body]
pub(crate) fn new_json_map() -> (map: JsonMap)
    ensures
        json_entries(map).is_empty(),
{
    serde_json::Map::new()
}

/// Sets an entry of a JSON object with `serde_json::Map::insert`. The claim is that the value takes
/// the place of another value with the same name, and that the other entries stay as they are. The
/// text of a number has to be one, and the entry holds the number which it stands for.
#[verifier::external_body]
pub(crate) fn json_insert(map: &mut JsonMap, name: &String, value: PathValue)
    requires
        value@ matches PathValueView::Number(text) ==> json_number(text) is Some,
    ensures
        json_entries(*final(map)) == json_entries(*old(map)).insert(name@, value@.entry()),
{
    let value = match value {
        PathValue::Null => serde_json::Value::Null,
        PathValue::Bool(value) => serde_json::Value::Bool(value),
        PathValue::Number(text) => serde_json::Value::Number(text.parse().unwrap()),
        PathValue::Text(text) => serde_json::Value::String(text),
    };
    map.insert(name.clone(), value);
}

/// Declares `hpack::Decoder`. What one took in is named by [`decoder_blocks`].
#[verifier::external_type_specification]
#[verifier::external_body]
pub struct ExDecoder<'a>(hpack::Decoder<'a>);

/// Declares `hpack::Encoder`. What one took in is named by [`encoder_lists`].
#[verifier::external_type_specification]
#[verifier::external_body]
pub struct ExEncoder<'a>(hpack::Encoder<'a>);

/// A list of headers.
pub type HeaderList = Seq<(Seq<u8>, Seq<u8>)>;

/// The blocks which a decoder took in so far. They determine its dynamic table.
pub uninterp spec fn decoder_blocks(decoder: hpack::Decoder<'static>) -> Seq<Seq<u8>>;

/// The header lists which an encoder took in so far. They determine its dynamic table.
pub uninterp spec fn encoder_lists(encoder: hpack::Encoder<'static>) -> Seq<HeaderList>;

/// What the last one of the given blocks decodes to, behind the ones in front of it.
pub uninterp spec fn decoded_headers(blocks: Seq<Seq<u8>>) -> Option<HeaderList>;

/// The block into which the last one of the given header lists is encoded, behind the ones in
/// front of it.
pub uninterp spec fn encoded_block(lists: Seq<HeaderList>) -> Seq<u8>;

/// Creates a decoder with an empty dynamic table with `hpack::Decoder::new`.
#[verifier::external_body]
pub(crate) fn new_decoder() -> (decoder: hpack::Decoder<'static>)
    ensures
        decoder_blocks(decoder) == Seq::<Seq<u8>>::empty(),
{
    hpack::Decoder::new()
}

/// Decodes a header block with `hpack::Decoder::decode`. The claim is that the outcome depends on
/// the block and on the blocks which the decoder took in before. A table size update whose number
/// is incomplete or too long makes the outside function panic where it reaches the update, hence
/// there must be none.
#[verifier::external_body]
pub(crate) fn decode_block(decoder: &mut hpack::Decoder<'static>, block: &[u8]) -> (list: Option<
    Vec<(Vec<u8>, Vec<u8>)>,
>)
    requires
        crate::http2::hpack::bad_update(block@, 0) is None,
    ensures
        decoder_blocks(*final(decoder)) == decoder_blocks(*old(decoder)).push(block@),
        decoded_headers(decoder_blocks(*final(decoder))) == match list {
            Some(list) => Some(pair_views(list@)),
            None => None,
        },
{
    decoder.decode(block).ok()
}

/// Creates an encoder with an empty dynamic table with `hpack::Encoder::new`.
#[verifier::external_body]
pub(crate) fn new_encoder() -> (encoder: hpack::Encoder<'static>)
    ensures
        encoder_lists(encoder) == Seq::<HeaderList>::empty(),
{
    hpack::Encoder::new()
}

/// Encodes a list of headers with `hpack::Encoder::encode`. The claim is that the block depends on
/// the list and on the lists which the encoder took in before.
#[verifier::external_body]
pub(crate) fn encode_block(
    encoder: &mut hpack::Encoder<'static>,
    list: &Vec<(Vec<u8>, Vec<u8>)>,
) -> (block: Vec<u8>)
    ensures
        encoder_lists(*final(encoder)) == encoder_lists(*old(encoder)).push(pair_views(list@)),
        block@ == encoded_block(encoder_lists(*final(encoder))),
{
    encoder.encode(list.iter().map(|line| (&line.0[..], &line.1[..])))
}

} // verus!
