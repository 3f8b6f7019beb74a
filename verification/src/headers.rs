//! HTTP headers. The collection that holds them is `http`'s own; the contracts
//! of its methods are taken on trust.
use axum::http::header::{HeaderName, InvalidHeaderValue, MaxSizeReached, ToStrError};
use axum::http::{HeaderMap, HeaderValue};
use vstd::prelude::*;
use vstd::utf8::*;

verus! {

#[verifier::external_type_specification]
#[verifier::external_body]
pub struct ExHeaderName(HeaderName);

#[verifier::external_type_specification]
#[verifier::external_body]
pub struct ExHeaderValue(HeaderValue);

#[verifier::external_type_specification]
#[verifier::external_body]
pub struct ExInvalidHeaderValue(InvalidHeaderValue);

#[verifier::external_type_specification]
#[verifier::external_body]
pub struct ExToStrError(ToStrError);

#[verifier::external_type_specification]
#[verifier::external_body]
pub struct ExMaxSizeReached(MaxSizeReached);

#[verifier::external_type_specification]
#[verifier::external_body]
#[verifier::reject_recursive_types(T)]
pub struct ExHeaderMap<T>(HeaderMap<T>);

/// The text of a header name.
pub uninterp spec fn name_text(name: HeaderName) -> Seq<char>;

/// The bytes of a header value.
pub uninterp spec fn value_bytes(value: HeaderValue) -> Seq<u8>;

/// The values that each name in a header map has, in order.
pub uninterp spec fn header_lists(headers: HeaderMap) -> Map<Seq<char>, Seq<Seq<u8>>>;

/// The values that a name has: none, if it is not there.
pub open spec fn values_under(lists: Map<Seq<char>, Seq<Seq<u8>>>, name: Seq<char>) -> Seq<Seq<u8>> {
    if lists.dom().contains(name) {
        lists[name]
    } else {
        Seq::empty()
    }
}

/// What a map without headers holds.
pub open spec fn no_headers() -> Map<Seq<char>, Seq<Seq<u8>>> {
    Map::empty()
}

/// Whether so many more names are sure to fit into a header map that has no more
/// than these. `HeaderMap` holds tens of thousands of names, but when its table
/// is disturbed by collisions it may refuse to grow from 6554 names on.
pub open spec fn has_room(lists: Map<Seq<char>, Seq<Seq<u8>>>, more: int) -> bool {
    &&& lists.dom().finite()
    &&& lists.dom().len() + more <= 6554
}

/// Whether headers are on the way from one state to another: a name has the
/// values that it had, or those that it gets, perhaps not all of them yet.
pub open spec fn on_the_way(
    from: Map<Seq<char>, Seq<Seq<u8>>>,
    to: Map<Seq<char>, Seq<Seq<u8>>>,
    now: Map<Seq<char>, Seq<Seq<u8>>>,
) -> bool {
    forall|name: Seq<char>| #[trigger]
        values_under(now, name) == values_under(from, name) || values_under(now, name).is_prefix_of(
            values_under(to, name),
        )
}

/// Whether a text can be a header name as it stands: lower-case letters, digits
/// and hyphens.
pub open spec fn is_plain_name(text: Seq<char>) -> bool {
    &&& 0 < text.len() <= 1000
    &&& forall|i: int| 0 <= i < text.len() ==> is_name_char(#[trigger] text[i])
}

/// Whether a character is visible ASCII, a space or a tab.
pub open spec fn is_visible(c: char) -> bool {
    (' ' <= c && c <= '~') || c == '\t'
}

/// Whether all characters of a text are visible ASCII, spaces or tabs.
pub open spec fn is_visible_text(text: Seq<char>) -> bool {
    forall|i: int| 0 <= i < text.len() ==> is_visible(#[trigger] text[i])
}

/// Whether all bytes are those of visible ASCII, spaces or tabs.
pub open spec fn is_visible_ascii(bytes: Seq<u8>) -> bool {
    forall|i: int| 0 <= i < bytes.len() ==> 32 <= #[trigger] bytes[i] < 127 || bytes[i] == 9
}

/// Whether a text can be a header value: it has no control characters but tabs.
pub open spec fn is_value_text(text: Seq<char>) -> bool {
    forall|i: int| 0 <= i < text.len() ==> (' ' <= #[trigger] text[i] && text[i] != '\u{7f}') || text[i] == '\t'
}

/// `HeaderName::from_static` makes a header name of a text that is one. It
/// panics on other texts; the contract admits the plain ones.
pub assume_specification[ HeaderName::from_static ](src: &'static str) -> (name: HeaderName)
    requires
        is_plain_name(src@),
    ensures
        name_text(name) == src@,
;

/// `HeaderName::as_str` gives the text of the name.
pub assume_specification[ HeaderName::as_str ](name: &HeaderName) -> (text: &str)
    ensures
        text@ == name_text(*name),
;

/// `HeaderValue::from_static` makes a header value of a text that is visible
/// ASCII. It panics on other texts.
pub assume_specification[ HeaderValue::from_static ](src: &'static str) -> (value: HeaderValue)
    requires
        is_visible_text(src@),
    ensures
        value_bytes(value) == encode_utf8(src@),
;

/// `HeaderValue::from_str` makes a header value of a text, if it has no control
/// characters but tabs.
pub assume_specification[ HeaderValue::from_str ](src: &str) -> (value: Result<HeaderValue, InvalidHeaderValue>)
    ensures
        match value {
            Ok(v) => is_value_text(src@) && value_bytes(v) == encode_utf8(src@),
            Err(_) => !is_value_text(src@),
        },
;

/// `HeaderValue::to_str` gives the text of a value whose bytes are visible
/// ASCII.
pub assume_specification[ HeaderValue::to_str ](value: &HeaderValue) -> (text: Result<&str, ToStrError>)
    ensures
        match text {
            Ok(t) => is_visible_ascii(value_bytes(*value)) && is_visible_text(t@) && encode_utf8(t@) == value_bytes(
                *value,
            ),
            Err(_) => !is_visible_ascii(value_bytes(*value)),
        },
;

/// A clone of a header name has its text.
pub assume_specification[ <HeaderName as Clone>::clone ](name: &HeaderName) -> (copy: HeaderName)
    ensures
        name_text(copy) == name_text(*name),
;

/// A clone of a header value has its bytes.
pub assume_specification[ <HeaderValue as Clone>::clone ](value: &HeaderValue) -> (copy: HeaderValue)
    ensures
        value_bytes(copy) == value_bytes(*value),
;

/// `HeaderMap::new` makes a map without headers.
#[verifier::external_body]
pub(crate) fn new_headers() -> (headers: HeaderMap)
    ensures
        header_lists(headers) == no_headers(),
{
    HeaderMap::new()
}

/// `HeaderMap::try_insert` gives a name one value, in place of those it had. It
/// may fail, and then leaves the headers as they were, only where one more name
/// is not sure to fit; whether it does there depends on how the names are
/// hashed and is left open.
#[verifier::external_body]
pub(crate) fn insert_header(headers: &mut HeaderMap, name: HeaderName, value: HeaderValue) -> (outcome: Result<
    (),
    MaxSizeReached,
>)
    ensures
        match outcome {
            Ok(_) => header_lists(*final(headers)) == header_lists(*old(headers)).insert(
                name_text(name),
                seq![value_bytes(value)],
            ),
            Err(_) => !has_room(header_lists(*old(headers)), 1) && header_lists(*final(headers)) == header_lists(
                *old(headers),
            ),
        },
{
    match headers.try_insert(name, value) {
        Ok(_) => Ok(()),
        Err(e) => Err(e),
    }
}

/// `HeaderMap::try_append` gives a name one more value, behind those it has. It
/// may fail, and then leaves the headers as they were, only where one more name
/// is not sure to fit; whether it does there depends on how the names are
/// hashed and is left open.
#[verifier::external_body]
pub(crate) fn append_header(headers: &mut HeaderMap, name: HeaderName, value: HeaderValue) -> (outcome: Result<
    (),
    MaxSizeReached,
>)
    ensures
        match outcome {
            Ok(_) => header_lists(*final(headers)) == header_lists(*old(headers)).insert(
                name_text(name),
                values_under(header_lists(*old(headers)), name_text(name)).push(value_bytes(value)),
            ),
            Err(_) => !has_room(header_lists(*old(headers)), 1) && header_lists(*final(headers)) == header_lists(
                *old(headers),
            ),
        },
{
    match headers.try_append(name, value) {
        Ok(_) => Ok(()),
        Err(e) => Err(e),
    }
}

/// `HeaderMap::remove` takes a name out, with all its values.
#[verifier::external_body]
pub(crate) fn remove_header(headers: &mut HeaderMap, name: &HeaderName)
    ensures
        header_lists(*final(headers)) == header_lists(*old(headers)).remove(name_text(*name)),
{
    headers.remove(name);
}

/// `HeaderMap::get` gives the first value of a name.
#[verifier::external_body]
pub(crate) fn first_value<'a>(headers: &'a HeaderMap, name: &HeaderName) -> (value: Option<&'a HeaderValue>)
    ensures
        match value {
            Some(v) => values_under(header_lists(*headers), name_text(*name)).len() > 0 && value_bytes(*v)
                == values_under(header_lists(*headers), name_text(*name))[0],
            None => values_under(header_lists(*headers), name_text(*name)).len() == 0,
        },
{
    headers.get(name)
}

/// The bytes of several header values.
pub open spec fn all_bytes(values: Seq<HeaderValue>) -> Seq<Seq<u8>> {
    values.map_values(|v: HeaderValue| value_bytes(v))
}

/// `HeaderMap::get_all` gives all values of a name, in order.
#[verifier::external_body]
pub(crate) fn all_values(headers: &HeaderMap, name: &HeaderName) -> (values: Vec<HeaderValue>)
    ensures
        all_bytes(values@) == values_under(header_lists(*headers), name_text(*name)),
{
    headers.get_all(name).iter().cloned().collect()
}

/// The texts and bytes of headers.
pub open spec fn header_pairs(pairs: Seq<(HeaderName, HeaderValue)>) -> Seq<(Seq<char>, Seq<u8>)> {
    pairs.map_values(|p: (HeaderName, HeaderValue)| (name_text(p.0), value_bytes(p.1)))
}

/// The values that a name has among pairs, in order.
pub open spec fn values_among(pairs: Seq<(Seq<char>, Seq<u8>)>, name: Seq<char>) -> Seq<Seq<u8>>
    decreases pairs.len(),
{
    if pairs.len() == 0 {
        Seq::empty()
    } else if pairs.last().0 == name {
        values_among(pairs.drop_last(), name).push(pairs.last().1)
    } else {
        values_among(pairs.drop_last(), name)
    }
}

/// `HeaderMap::iter` visits each name once for each of its values, these in
/// order. In which order the names come is left open.
#[verifier::external_body]
pub(crate) fn header_entries(headers: &HeaderMap) -> (pairs: Vec<(HeaderName, HeaderValue)>)
    ensures
        forall|name: Seq<char>| #[trigger]
            values_among(header_pairs(pairs@), name) == values_under(header_lists(*headers), name),
{
    headers.iter().map(|(name, value)| (name.clone(), value.clone())).collect()
}

/// Whether the characters of a text from one position to another are all of a
/// kind, looked at half by half.
pub open spec fn holds_between(text: Seq<char>, from: int, to: int, kind: spec_fn(char) -> bool) -> bool
    decreases to - from,
{
    if to <= from {
        true
    } else if to == from + 1 {
        kind(text[from])
    } else {
        holds_between(text, from, (from + to) / 2, kind) && holds_between(text, (from + to) / 2, to, kind)
    }
}

/// What holds half by half holds everywhere.
pub proof fn holds_everywhere(text: Seq<char>, from: int, to: int, kind: spec_fn(char) -> bool)
    requires
        0 <= from <= to <= text.len(),
        holds_between(text, from, to, kind),
    ensures
        forall|i: int| from <= i < to ==> kind(#[trigger] text[i]),
    decreases to - from,
{
    if to > from + 1 {
        holds_everywhere(text, from, (from + to) / 2, kind);
        holds_everywhere(text, (from + to) / 2, to, kind);
    }
}

/// Whether a character can stand in a plain header name.
pub open spec fn is_name_char(c: char) -> bool {
    ('a' <= c && c <= 'z') || ('0' <= c && c <= '9') || c == '-'
}

} // verus!
