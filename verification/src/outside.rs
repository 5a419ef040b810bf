//! The calls into other crates, and what is taken on trust of each.
use crate::text::{opt_text, pair_texts};
use vstd::prelude::*;
use vstd::string::*;
use vstd::utf8::{encode_utf8, valid_utf8};

verus! {

/// The upper case hexadecimal digit of value `d`.
pub open spec fn upper_hex_digit(d: int) -> char {
    if d < 10 {
        ('0' as u32 + d) as char
    } else {
        ('A' as u32 + (d - 10)) as char
    }
}

/// The lower case hexadecimal digit of value `d`.
pub open spec fn lower_hex_digit(d: int) -> char {
    if d < 10 {
        ('0' as u32 + d) as char
    } else {
        ('a' as u32 + (d - 10)) as char
    }
}

/// The byte `b` as a percent sign and two upper case hexadecimal digits.
pub open spec fn percent(b: u8) -> Seq<char> {
    seq!['%', upper_hex_digit(b as int / 16), upper_hex_digit(b as int % 16)]
}

/// The bytes that form encoding leaves as they are.
pub open spec fn form_unchanged(b: u8) -> bool {
    ||| b == '*' as u8 || b == '-' as u8 || b == '.' as u8 || b == '_' as u8
    ||| '0' as u8 <= b <= '9' as u8
    ||| 'A' as u8 <= b <= 'Z' as u8
    ||| 'a' as u8 <= b <= 'z' as u8
}

/// The form encoding of one byte.
pub open spec fn form_byte(b: u8) -> Seq<char> {
    if form_unchanged(b) {
        seq![b as char]
    } else if b == ' ' as u8 {
        seq!['+']
    } else {
        percent(b)
    }
}

/// The form encoding of some bytes: that of each, one after the other.
pub open spec fn form_bytes(bytes: Seq<u8>) -> Seq<char>
    decreases bytes.len(),
{
    if bytes.len() == 0 {
        Seq::empty()
    } else {
        form_byte(bytes[0]) + form_bytes(bytes.drop_first())
    }
}

/// The form encoding of a text.
pub open spec fn form_text(s: Seq<char>) -> Seq<char> {
    form_bytes(encode_utf8(s))
}

/// `url::form_urlencoded::byte_serialize`, its slices collected into one string.
///
/// Trusted: letters, digits and `*-._` are kept, a space becomes `+`, and every other byte
/// becomes a percent sign and two upper case hexadecimal digits.
#[verifier::external_body]
pub(crate) fn byte_serialize(bytes: &[u8]) -> (r: String)
    ensures
        r@ == form_bytes(bytes@),
{
    url::form_urlencoded::byte_serialize(bytes).collect()
}

/// `target` with one more form-encoded pair.
pub open spec fn with_form_pair(target: Seq<char>, name: Seq<char>, value: Seq<char>) -> Seq<char> {
    (if target.len() == 0 {
        target
    } else {
        target.push('&')
    }) + form_text(name) + seq!['='] + form_text(value)
}

/// `url::form_urlencoded::Serializer::append_pair` on a serializer for `target`.
///
/// Trusted: the encoded name, an equals sign and the encoded value go behind `target`, after an
/// ampersand where `target` is not empty.
#[verifier::external_body]
pub(crate) fn append_pair(target: String, name: &str, value: &str) -> (r: String)
    ensures
        r@ == with_form_pair(target@, name@, value@),
{
    let mut serializer = url::form_urlencoded::Serializer::new(target);
    serializer.append_pair(name, value);
    serializer.finish()
}

/// The pairs that form-encoded bytes hold: what `url::form_urlencoded::parse` yields of them.
pub uninterp spec fn form_pairs(raw: Seq<u8>) -> Seq<(Seq<char>, Seq<char>)>;

/// `url::form_urlencoded::parse`, its pairs collected into a list.
///
/// Trusted: the pairs depend on the bytes alone.
#[verifier::external_body]
pub(crate) fn parse_form(raw: &[u8]) -> (r: Vec<(String, String)>)
    ensures
        pair_texts(r@) == form_pairs(raw@),
{
    url::form_urlencoded::parse(raw).into_owned().collect()
}

/// The parts of a URL that a signature covers.
pub struct UrlParts {
    pub host: Option<String>,
    pub path: String,
    pub query: Option<String>,
}

/// The texts of [`UrlParts`].
pub struct UrlPartsView {
    pub host: Option<Seq<char>>,
    pub path: Seq<char>,
    pub query: Option<Seq<char>>,
}

impl View for UrlParts {
    type V = UrlPartsView;

    open spec fn view(&self) -> UrlPartsView {
        UrlPartsView {
            host: opt_text(self.host),
            path: self.path@,
            query: opt_text(self.query),
        }
    }
}

/// The parts that `url::Url::parse` finds in a text, or nothing where the text is no URL.
pub uninterp spec fn url_parts(url: Seq<char>) -> Option<UrlPartsView>;

/// `url::Url::parse`, with the host, path and query of the URL.
///
/// Trusted: whether a text is a URL, and its parts, depend on the text alone.
#[verifier::external_body]
pub(crate) fn parse_url(url: &str) -> (r: Option<UrlParts>)
    ensures
        match r {
            Some(parts) => url_parts(url@) == Some(parts@),
            None => url_parts(url@) is None,
        },
{
    match url::Url::parse(url) {
        Ok(u) => Some(
            UrlParts {
                host: u.host_str().map(|h| h.to_string()),
                path: u.path().to_string(),
                query: u.query().map(|q| q.to_string()),
            },
        ),
        Err(_) => None,
    }
}

/// The bytes as lower case hexadecimal digits, two for each.
pub open spec fn hex_text(bytes: Seq<u8>) -> Seq<char> {
    Seq::new(
        2 * bytes.len(),
        |i: int|
            if i % 2 == 0 {
                lower_hex_digit(bytes[i / 2] as int / 16)
            } else {
                lower_hex_digit(bytes[i / 2] as int % 16)
            },
    )
}

/// `hex::encode`.
///
/// Trusted: two lower case hexadecimal digits for each byte, the high half first.
#[verifier::external_body]
pub(crate) fn hex_encode(bytes: &[u8]) -> (r: String)
    ensures
        r@ == hex_text(bytes@),
{
    hex::encode(bytes)
}

/// The SHA-256 digest of some bytes.
pub uninterp spec fn sha256_digest(data: Seq<u8>) -> Seq<u8>;

/// `sha2::Sha256::digest`.
///
/// Trusted: the digest depends on the bytes alone, and is 32 bytes long.
#[verifier::external_body]
pub(crate) fn sha256(data: &[u8]) -> (r: Vec<u8>)
    ensures
        r@ == sha256_digest(data@),
        r@.len() == 32,
{
    <sha2::Sha256 as sha2::Digest>::digest(data).to_vec()
}

/// The HMAC with SHA-256 of some bytes under a key.
pub uninterp spec fn hmac_sha256_code(key: Seq<u8>, data: Seq<u8>) -> Seq<u8>;

/// `hmac::Hmac` over `sha2::Sha256`, which takes a key of any length.
///
/// Trusted: the code depends on the key and the bytes alone, and is 32 bytes long.
#[verifier::external_body]
pub(crate) fn hmac_sha256(key: &[u8], data: &[u8]) -> (r: Vec<u8>)
    ensures
        r@ == hmac_sha256_code(key@, data@),
        r@.len() == 32,
{
    let mut mac = <hmac::Hmac<sha2::Sha256> as hmac::Mac>::new_from_slice(key).expect(
        "a key of any length will do",
    );
    hmac::Mac::update(&mut mac, data);
    hmac::Mac::finalize(mac).into_bytes().to_vec()
}

/// The last second, counted from 1970, of the calendar that `chrono` knows.
pub const LAST_SECOND: i64 = 8_210_266_876_799;

/// The full seconds since 1970: `chrono::Utc::now`.
///
/// Trusted: the clock shows a time from 1970 to the end of the calendar, outside of which
/// `chrono` stops the program. Nothing else is known of the time.
#[verifier::external_body]
pub(crate) fn utc_now() -> (secs: i64)
    ensures
        0 <= secs <= LAST_SECOND,
{
    chrono::Utc::now().timestamp()
}

/// The UTC time `secs` seconds after the beginning of 1970, written as `format` says.
pub uninterp spec fn utc_text(secs: int, format: Seq<char>) -> Seq<char>;

/// `chrono::DateTime::format` on the time that is `secs` seconds after the beginning of 1970.
///
/// Trusted: the text depends on the time and the format alone, and the full time of day goes
/// behind the text of the date.
#[verifier::external_body]
pub(crate) fn format_utc(secs: i64, format: &str) -> (r: String)
    requires
        0 <= secs <= LAST_SECOND,
        format@ == "%Y%m%dT%H%M%SZ"@ || format@ == "%Y%m%d"@,
    ensures
        r@ == utc_text(secs as int, format@),
        format@ == "%Y%m%dT%H%M%SZ"@ ==> utc_text(secs as int, "%Y%m%d"@).is_prefix_of(r@),
{
    let time = chrono::DateTime::from_timestamp(secs, 0).expect("a time within the calendar");
    time.format(format).to_string()
}

/// A text is a JSON document: `serde_json::from_str` reads it.
pub uninterp spec fn is_json(text: Seq<char>) -> bool;

/// The string that the member `key` of a JSON object holds: `serde_json::Value::get` and
/// `serde_json::Value::as_str`.
pub uninterp spec fn json_string(text: Seq<char>, key: Seq<char>) -> Option<Seq<char>>;

/// The error of `serde_json`.
#[verifier::external_type_specification]
#[verifier::external_body]
pub struct ExJsonError(serde_json::Error);

/// `serde_json::from_str`, then `serde_json::Value::get` and `serde_json::Value::as_str`.
///
/// Trusted: whether a text is JSON depends on the text alone, and what its member `key` holds
/// on the text and the key alone.
#[verifier::external_body]
pub(crate) fn json_member(text: &str, key: &str) -> (r: Result<Option<String>, serde_json::Error>)
    ensures
        r is Ok <==> is_json(text@),
        r matches Ok(s) ==> opt_text(s) == json_string(text@, key@),
{
    let value: serde_json::Value = serde_json::from_str(text)?;
    Ok(value.get(key).and_then(|v| v.as_str()).map(|s| s.to_string()))
}

/// The text that some bytes hold, with replacement characters for what is not UTF-8.
pub uninterp spec fn lossy_text(bytes: Seq<u8>) -> Seq<char>;

/// `String::from_utf8_lossy`.
///
/// Trusted: the text depends on the bytes alone; of bytes that are UTF-8 it is the text they
/// encode.
#[verifier::external_body]
pub(crate) fn text_of_bytes(bytes: &[u8]) -> (r: String)
    ensures
        r@ == lossy_text(bytes@),
        valid_utf8(bytes@) ==> encode_utf8(r@) == bytes@,
{
    String::from_utf8_lossy(bytes).into_owned()
}

/// A text in quotes, as `Debug` shows it.
pub uninterp spec fn debug_text(s: Seq<char>) -> Seq<char>;

/// `Debug` of `str`, through `format!`.
///
/// Trusted: the text shown depends on the text alone.
#[verifier::external_body]
pub(crate) fn quoted(s: &str) -> (r: String)
    ensures
        r@ == debug_text(s@),
{
    format!("{:?}", s)
}

}
