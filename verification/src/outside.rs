//! The calls into other crates and into parts of the standard library that
//! have no specification of their own. Each contract here is taken on trust.
use base64::{engine::general_purpose::STANDARD, Engine};
use crate::number::hex_char;
use crate::text::begins_with;
use crate::text_map::ascending;
use crate::words::joined;
use sha2::{Digest, Sha256};
use vstd::prelude::*;
use vstd::utf8::*;

verus! {

/// The text that `String::from_utf8_lossy` makes of bytes.
pub uninterp spec fn utf8_lossy(bytes: Seq<u8>) -> Seq<char>;

/// `String::from_utf8_lossy` reads the bytes as UTF-8. Bytes that are UTF-8
/// become the text that they encode; of other bytes the contract says only that
/// the text is determined by them (it has U+FFFD where they are not UTF-8).
#[verifier::external_body]
pub(crate) fn text_from_utf8_lossy(bytes: &[u8]) -> (text: String)
    ensures
        text@ == utf8_lossy(bytes@),
        valid_utf8(bytes@) ==> text@ == decode_utf8(bytes@),
{
    String::from_utf8_lossy(bytes).to_string()
}

/// `String::from_utf8` gives the text that the bytes encode in UTF-8, or an
/// error if they are not UTF-8.
#[verifier::external_body]
pub(crate) fn text_from_utf8(bytes: Vec<u8>) -> (text: Option<String>)
    ensures
        match text {
            Some(t) => valid_utf8(bytes@) && t@ == decode_utf8(bytes@),
            None => !valid_utf8(bytes@),
        },
{
    String::from_utf8(bytes).ok()
}

/// `char::from_u32` gives the character with that number, for the numbers that
/// are Unicode scalar values, and nothing for any other.
pub assume_specification[ char::from_u32 ](number: u32) -> (c: Option<char>)
    ensures
        match c {
            Some(c) => is_scalar(number) && c as u32 == number,
            None => !is_scalar(number),
        },
;

#[verifier::external_type_specification]
#[verifier::external_body]
pub struct ExBase64Error(base64::DecodeError);

/// The bytes that the standard base64 engine decodes a text to, if it does.
pub uninterp spec fn base64_bytes(text: Seq<char>) -> Option<Seq<u8>>;

/// `base64::Engine::decode` of the engine `STANDARD` (the standard alphabet,
/// padding required): whether it accepts a text, and the bytes it then gives,
/// depend on the text alone.
#[verifier::external_body]
pub(crate) fn base64_decode(text: &str) -> (bytes: Result<Vec<u8>, base64::DecodeError>)
    ensures
        match bytes {
            Ok(b) => base64_bytes(text@) == Some(b@),
            Err(_) => base64_bytes(text@) is None,
        },
{
    STANDARD.decode(text)
}

#[verifier::external_type_specification]
#[verifier::external_body]
pub struct ExRegex(regex::Regex);

#[verifier::external_type_specification]
#[verifier::external_body]
pub struct ExRegexError(regex::Error);

/// The texts in which a compiled expression finds a match.
pub uninterp spec fn matched_texts(regex: regex::Regex) -> Set<Seq<char>>;

/// The texts in which the expression with this pattern finds a match, if the
/// pattern compiles.
pub uninterp spec fn pattern_texts(pattern: Seq<char>) -> Option<Set<Seq<char>>>;

/// `Regex::new` compiles a pattern with the default options. Whether it does,
/// and what the compiled expression then matches, depend on the pattern alone.
pub assume_specification[ regex::Regex::new ](pattern: &str) -> (regex: Result<
    regex::Regex,
    regex::Error,
>)
    ensures
        match regex {
            Ok(r) => pattern_texts(pattern@) == Some(matched_texts(r)),
            Err(_) => pattern_texts(pattern@) is None,
        },
;

/// `Regex::is_match` says whether the expression finds a match in the text.
pub assume_specification[ regex::Regex::is_match ](regex: &regex::Regex, text: &str) -> (found: bool)
    ensures
        found == matched_texts(*regex).contains(text@),
;

/// A clone of a compiled expression finds a match in the same texts.
pub assume_specification[ <regex::Regex as Clone>::clone ](regex: &regex::Regex) -> (copy: regex::Regex)
    ensures
        matched_texts(copy) == matched_texts(*regex),
;

#[verifier::external_type_specification]
#[verifier::external_body]
pub struct ExUrl(url::Url);

#[verifier::external_type_specification]
#[verifier::external_body]
pub struct ExUrlError(url::ParseError);

/// The serialization of a URL, which is what URLs are compared by.
pub uninterp spec fn url_text(url: url::Url) -> Seq<char>;

/// The serialization of the URL that a text parses to, if it does.
pub uninterp spec fn url_parsed(text: Seq<char>) -> Option<Seq<char>>;

/// `Url::parse` parses an absolute URL. Whether it does, and to which URL,
/// depends on the text alone.
pub assume_specification[ url::Url::parse ](input: &str) -> (url: Result<url::Url, url::ParseError>)
    ensures
        match url {
            Ok(u) => url_parsed(input@) == Some(url_text(u)),
            Err(_) => url_parsed(input@) is None,
        },
;

/// The serialization of the URL that a reference leads to from the URL with a
/// given serialization, if it leads to one.
pub uninterp spec fn url_joined(base: Seq<char>, reference: Seq<char>) -> Option<Seq<char>>;

/// `Url::join` resolves a reference against a base URL. Whether it does, and to
/// which URL, depends on the two alone. A reference that begins with a dot and a
/// slash has no scheme and no host of its own: what it leads to from a base with
/// a host has the base's scheme, host and port.
pub assume_specification[ url::Url::join ](base: &url::Url, input: &str) -> (url: Result<url::Url, url::ParseError>)
    ensures
        match url {
            Ok(u) => url_joined(url_text(*base), input@) == Some(url_text(u)),
            Err(_) => url_joined(url_text(*base), input@) is None,
        },
        url is Ok && url_host(url_text(*base)) is Some && begins_with(input@, "./"@) ==> url_place(url_text(url->Ok_0))
            == url_place(url_text(*base)),
;

/// The scheme of the URL with a given serialization: what stands before the
/// first colon.
pub open spec fn url_scheme(url: Seq<char>) -> Seq<char>
    decreases url.len(),
{
    if url.len() == 0 || url[0] == ':' {
        Seq::empty()
    } else {
        seq![url[0]] + url_scheme(url.drop_first())
    }
}

/// `Url::scheme` gives the scheme of a URL, which its serialization begins
/// with, and behind which a colon stands.
pub assume_specification[ url::Url::scheme ](url: &url::Url) -> (scheme: &str)
    ensures
        scheme@ == url_scheme(url_text(*url)),
;

/// The host of the URL with a given serialization, if it has one.
pub uninterp spec fn url_host(url: Seq<char>) -> Option<Seq<char>>;

/// `Url::host_str` gives the host of a URL as it stands in its serialization,
/// and nothing where there is none.
pub assume_specification[ url::Url::host_str ](url: &url::Url) -> (host: Option<&str>)
    ensures
        match host {
            Some(h) => url_host(url_text(*url)) == Some(h@),
            None => url_host(url_text(*url)) is None,
        },
;

/// The port of the URL with a given serialization, if it has one.
pub uninterp spec fn url_port(url: Seq<char>) -> Option<u16>;

/// `Url::port_or_known_default` gives the port that stands in the serialization
/// of a URL, else the one that its scheme is known to have.
pub assume_specification[ url::Url::port_or_known_default ](url: &url::Url) -> (port: Option<u16>)
    ensures
        port == url_port(url_text(*url)),
;

/// Where the URL with a given serialization leads: its scheme, host and port.
pub open spec fn url_place(url: Seq<char>) -> (Seq<char>, Option<Seq<char>>, Option<u16>) {
    (url_scheme(url), url_host(url), url_port(url))
}

#[verifier::external_type_specification]
#[verifier::external_body]
pub struct ExJsonValue(serde_json::Value);

#[verifier::external_type_specification]
#[verifier::external_body]
pub struct ExJsonError(serde_json::Error);

/// The JSON text of a value, without white space.
pub uninterp spec fn json_text(value: serde_json::Value) -> Seq<char>;

/// How a character stands in a JSON string.
pub open spec fn json_char(c: char) -> Seq<char> {
    if c == '"' {
        seq!['\\', '"']
    } else if c == '\\' {
        seq!['\\', '\\']
    } else if c == '\u{8}' {
        seq!['\\', 'b']
    } else if c == '\t' {
        seq!['\\', 't']
    } else if c == '\n' {
        seq!['\\', 'n']
    } else if c == '\u{c}' {
        seq!['\\', 'f']
    } else if c == '\r' {
        seq!['\\', 'r']
    } else if (c as int) <= 31 {
        seq!['\\', 'u', '0', '0', hex_char(c as int / 16), hex_char(c as int % 16)]
    } else {
        seq![c]
    }
}

/// The inside of a JSON string.
pub open spec fn json_escaped(text: Seq<char>) -> Seq<char>
    decreases text.len(),
{
    if text.len() == 0 {
        Seq::empty()
    } else {
        json_escaped(text.drop_last()) + json_char(text.last())
    }
}

/// The JSON text of a string.
pub open spec fn json_string(text: Seq<char>) -> Seq<char> {
    seq!['"'] + json_escaped(text) + seq!['"']
}

/// The JSON text of a string or of nothing.
pub open spec fn json_opt_string(text: Option<Seq<char>>) -> Seq<char> {
    match text {
        Some(t) => json_string(t),
        None => "null"@,
    }
}

/// The JSON text of an array, given those of its items.
pub open spec fn json_array(items: Seq<Seq<char>>) -> Seq<char> {
    seq!['['] + joined(items, seq![',']) + seq![']']
}

/// The JSON text of an object, given its keys and the texts of their values.
pub open spec fn json_object(fields: Seq<(Seq<char>, Seq<char>)>) -> Seq<char> {
    seq!['{'] + joined(
        fields.map_values(|f: (Seq<char>, Seq<char>)| json_string(f.0) + seq![':'] + f.1),
        seq![','],
    ) + seq!['}']
}

/// The JSON texts of values.
pub open spec fn json_texts(values: Seq<serde_json::Value>) -> Seq<Seq<char>> {
    values.map_values(|v: serde_json::Value| json_text(v))
}

/// The keys of fields, with the JSON texts of their values.
pub open spec fn json_fields(fields: Seq<(String, serde_json::Value)>) -> Seq<(Seq<char>, Seq<char>)> {
    fields.map_values(|f: (String, serde_json::Value)| (f.0@, json_text(f.1)))
}

/// `Value::from` makes a JSON string of a text, and null of nothing.
#[verifier::external_body]
pub(crate) fn json_from_text(text: Option<String>) -> (value: serde_json::Value)
    ensures
        json_text(value) == json_opt_string(match text {
            Some(t) => Some(t@),
            None => None,
        }),
{
    serde_json::Value::from(text)
}

/// `Value::from` makes a JSON array of values.
#[verifier::external_body]
pub(crate) fn json_from_values(values: Vec<serde_json::Value>) -> (value: serde_json::Value)
    ensures
        json_text(value) == json_array(json_texts(values@)),
{
    serde_json::Value::from(values)
}

/// A JSON object is collected from its fields. The contract admits fields whose
/// keys ascend: their order is then kept, be the object sorted or not.
#[verifier::external_body]
pub(crate) fn json_from_fields(fields: Vec<(String, serde_json::Value)>) -> (value: serde_json::Value)
    requires
        ascending(json_fields(fields@)),
    ensures
        json_text(value) == json_object(json_fields(fields@)),
{
    serde_json::Value::Object(fields.into_iter().collect())
}

/// `serde_json::to_string` gives the JSON text of a value. It fails on types
/// whose serialization can fail, and `Value` is none of them.
#[verifier::external_body]
pub(crate) fn json_to_text(value: &serde_json::Value) -> (text: Result<String, serde_json::Error>)
    ensures
        match text {
            Ok(t) => t@ == json_text(*value),
            Err(_) => false,
        },
{
    serde_json::to_string(value)
}

/// The SHA-256 digest of bytes.
pub uninterp spec fn sha256(bytes: Seq<u8>) -> Seq<u8>;

/// `Sha256::digest` gives the SHA-256 digest of bytes, which has 32 bytes.
#[verifier::external_body]
pub(crate) fn sha256_digest(bytes: &[u8]) -> (digest: Vec<u8>)
    ensures
        digest@ == sha256(bytes@),
        digest@.len() == 32,
{
    Sha256::digest(bytes).to_vec()
}

} // verus!
