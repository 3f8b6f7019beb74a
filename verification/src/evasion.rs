//! What an encoding cannot hide: the ways to write a text that normalization
//! sees through.
use crate::decode::{
    base64_text, begins_with_escape, entity_char, first_position, first_position_is_first, hex_digit,
    html_decoded, leading_entity, url_decoded, url_pass, url_passes, url_passes_settle,
};
use crate::models::RequestView;
use crate::normalize::{
    body_forms, body_text_form, distinct_texts, method_form, name_form, path_form, request_form, text_form,
};
use crate::number::{decimal, decimal_reads_back};
use crate::text::{
    ascii_lower, ascii_lower_char, ascii_upper, ascii_upper_char, begins_with, is_blank, is_white_space, trim,
    trim_end, trim_start,
};
use crate::words::{collapsing_is_idempotent, joined, words, words_are_words};
use vstd::prelude::*;
use vstd::utf8::*;

verus! {

/// The upper-case hexadecimal digit for a number below sixteen.
pub open spec fn upper_hex_char(n: int) -> char {
    if n < 10 {
        ('0' as u32 + n) as char
    } else {
        ('A' as u32 + n - 10) as char
    }
}

/// Bytes with every one of them written as a percent escape.
pub open spec fn percent_escapes(bytes: Seq<u8>) -> Seq<char>
    decreases bytes.len(),
{
    if bytes.len() == 0 {
        Seq::empty()
    } else {
        seq!['%', upper_hex_char(bytes[0] as int / 16), upper_hex_char(bytes[0] as int % 16)] + percent_escapes(
            bytes.skip(1),
        )
    }
}

/// A text with everything in it percent-encoded.
pub open spec fn percent_encoded(text: Seq<char>) -> Seq<char> {
    percent_escapes(encode_utf8(text))
}

/// A text that was percent-encoded so many times.
pub open spec fn percent_layers(text: Seq<char>, layers: nat) -> Seq<char>
    decreases layers,
{
    if layers == 0 {
        text
    } else {
        percent_encoded(percent_layers(text, (layers - 1) as nat))
    }
}

/// The encoding of a text that begins with an ASCII character.
proof fn ascii_first(c: char, rest: Seq<char>)
    requires
        (c as u32) < 128,
    ensures
        encode_utf8(seq![c] + rest) == seq![c as u8] + encode_utf8(rest),
{
    let n = c as u32;
    assert((seq![c] + rest).drop_first() =~= rest);
    assert(n < 128 ==> n & 0x7F == n) by (bit_vector);
    assert(encode_scalar(n) =~= seq![c as u8]);
}

/// Percent escapes stand for the bytes that were escaped.
proof fn percent_escapes_decode(bytes: Seq<u8>)
    ensures
        url_decoded(encode_utf8(percent_escapes(bytes))) == bytes,
    decreases bytes.len(),
{
    if bytes.len() == 0 {
        assert(encode_utf8(percent_escapes(bytes)) =~= Seq::<u8>::empty());
        assert(url_decoded(encode_utf8(percent_escapes(bytes))) =~= bytes);
    } else {
        let high = upper_hex_char(bytes[0] as int / 16);
        let low = upper_hex_char(bytes[0] as int % 16);
        let rest = percent_escapes(bytes.skip(1));
        percent_escapes_decode(bytes.skip(1));
        assert(percent_escapes(bytes) =~= seq!['%'] + (seq![high] + (seq![low] + rest)));
        ascii_first('%', seq![high] + (seq![low] + rest));
        ascii_first(high, seq![low] + rest);
        ascii_first(low, rest);
        let encoded = encode_utf8(percent_escapes(bytes));
        assert(encoded =~= seq![37u8, high as u8, low as u8] + encode_utf8(rest));
        assert(hex_digit(encoded[1]) == Some(bytes[0] as int / 16));
        assert(hex_digit(encoded[2]) == Some(bytes[0] as int % 16));
        assert(begins_with_escape(encoded));
        assert(encoded.skip(3) =~= encode_utf8(rest));
        assert(url_decoded(encoded) =~= seq![bytes[0]] + bytes.skip(1));
        assert(seq![bytes[0]] + bytes.skip(1) =~= bytes);
    }
}

/// One pass of percent decoding gives back any text that was percent-encoded.
pub proof fn percent_encoding_is_undone(text: Seq<char>)
    ensures
        url_pass(percent_encoded(text)) == text,
{
    percent_escapes_decode(encode_utf8(text));
    encode_utf8_valid_utf8(text);
    encode_utf8_decode_utf8(text);
}

/// As many passes as there are layers give back the text under them, and more
/// passes do too if that text has nothing left to decode.
pub proof fn percent_layers_are_undone(text: Seq<char>, layers: nat, passes: nat)
    requires
        layers <= passes,
        layers == passes || url_pass(text) == text,
    ensures
        url_passes(percent_layers(text, layers), passes) == text,
    decreases layers,
{
    if layers == 0 {
        if passes > 0 {
            url_passes_settle(text, passes);
        }
    } else {
        percent_encoding_is_undone(percent_layers(text, (layers - 1) as nat));
        percent_layers_are_undone(text, (layers - 1) as nat, (passes - 1) as nat);
    }
}

/// No byte of a character that is not ASCII is an ASCII byte.
proof fn encoding_of_char(c: char)
    ensures
        forall|i: int|
            0 <= i < encode_scalar(c as u32).len() ==> (#[trigger] encode_scalar(c as u32)[i] < 128 ==> encode_scalar(
                c as u32,
            )[i] == c as u32),
{
    let n = c as u32;
    char_is_scalar(c);
    assert(n <= 0x7F ==> n & 0x7F == n) by (bit_vector);
    assert(forall|b: u8| #[trigger] (0x80u8 | b) >= 128) by (bit_vector);
    assert(forall|b: u8| #[trigger] (0xC0u8 | b) >= 128) by (bit_vector);
    assert(forall|b: u8| #[trigger] (0xE0u8 | b) >= 128) by (bit_vector);
    assert(forall|b: u8| #[trigger] (0xF0u8 | b) >= 128) by (bit_vector);
}

/// An ASCII byte in the encoding of a text is a character of the text.
proof fn ascii_bytes_are_chars(text: Seq<char>, at: int)
    requires
        0 <= at < encode_utf8(text).len(),
        encode_utf8(text)[at] < 128,
    ensures
        exists|i: int| 0 <= i < text.len() && (#[trigger] text[i]) as u32 == encode_utf8(text)[at],
    decreases text.len(),
{
    if text.len() > 0 {
        let first = encode_scalar(text[0] as u32);
        let rest = text.drop_first();
        encoding_of_char(text[0]);
        if at < first.len() {
            assert(encode_utf8(text)[at] == first[at]);
            assert(text[0] as u32 == encode_utf8(text)[at]);
        } else {
            assert(encode_utf8(text)[at] == encode_utf8(rest)[at - first.len()]);
            ascii_bytes_are_chars(rest, at - first.len());
            let i = choose|i: int|
                0 <= i < rest.len() && (#[trigger] rest[i]) as u32 == encode_utf8(rest)[at - first.len()];
            assert(text[i + 1] == rest[i]);
        }
    }
}

/// Bytes without percent and plus signs are not changed by percent decoding.
proof fn plain_bytes_stay(bytes: Seq<u8>)
    requires
        forall|i: int| 0 <= i < bytes.len() ==> #[trigger] bytes[i] != 37 && bytes[i] != 43,
    ensures
        url_decoded(bytes) == bytes,
    decreases bytes.len(),
{
    if bytes.len() > 0 {
        let rest = bytes.skip(1);
        assert forall|i: int| 0 <= i < rest.len() implies #[trigger] rest[i] != 37 && rest[i] != 43 by {
            assert(rest[i] == bytes[i + 1]);
        }
        plain_bytes_stay(rest);
        assert(bytes[0] != 37 && bytes[0] != 43);
        assert(url_decoded(bytes) =~= bytes);
    } else {
        assert(url_decoded(bytes) =~= bytes);
    }
}

/// A text without percent and plus signs is not changed by percent decoding.
pub proof fn plain_text_stays(text: Seq<char>)
    requires
        forall|i: int| 0 <= i < text.len() ==> #[trigger] text[i] != '%' && text[i] != '+',
    ensures
        url_pass(text) == text,
{
    let bytes = encode_utf8(text);
    assert forall|i: int| 0 <= i < bytes.len() implies #[trigger] bytes[i] != 37 && bytes[i] != 43 by {
        if bytes[i] < 128 {
            ascii_bytes_are_chars(text, i);
            let k = choose|k: int| 0 <= k < text.len() && (#[trigger] text[k]) as u32 == bytes[i];
            let c: char = text[k];
            char_is_scalar(c);
            char_u32_cast(c, bytes[i] as u32);
            assert(c != '%' && c != '+');
        }
    }
    plain_bytes_stay(bytes);
    encode_utf8_valid_utf8(text);
    encode_utf8_decode_utf8(text);
}

/// Up to three layers of percent encoding hide nothing from a match against a
/// path or query: the form that is matched is the same as without them.
pub proof fn percent_layers_hide_nothing(text: Seq<char>, layers: nat)
    requires
        layers <= 3,
        url_pass(text) == text,
    ensures
        path_form(percent_layers(text, layers)) == path_form(text),
{
    percent_layers_are_undone(text, layers, 3);
    percent_layers_are_undone(text, 0, 3);
}

/// A character as a decimal HTML character reference.
pub open spec fn numeric_reference(c: char) -> Seq<char> {
    seq!['&', '#'] + decimal(c as nat) + seq![';']
}

/// A text with every character written as a decimal HTML character reference.
pub open spec fn numeric_references(text: Seq<char>) -> Seq<char>
    decreases text.len(),
{
    if text.len() == 0 {
        Seq::empty()
    } else {
        numeric_reference(text[0]) + numeric_references(text.drop_first())
    }
}

/// A text that begins with a decimal character reference begins with the
/// character once it is decoded.
pub proof fn numeric_reference_decodes(c: char, rest: Seq<char>)
    ensures
        html_decoded(numeric_reference(c) + rest) == seq![c] + html_decoded(rest),
{
    let digits = decimal(c as nat);
    let s = numeric_reference(c) + rest;
    let inner = s.drop_first();
    let n = digits.len() as int + 1;
    decimal_reads_back(c as nat);
    assert(inner[n] == ';');
    assert forall|i: int| 0 <= i < n implies inner[i] != ';' by {
        if i > 0 {
            assert(inner[i] == digits[i - 1]);
        }
    }
    first_position_is_first(inner, ';');
    assert(first_position(inner, ';') == Some(n));
    let entity = s.subrange(1, n + 1);
    assert(entity =~= seq!['#'] + digits);
    reveal_strlit("amp");
    reveal_strlit("lt");
    reveal_strlit("gt");
    reveal_strlit("quot");
    reveal_strlit("apos");
    reveal_strlit("nbsp");
    reveal_strlit("#x");
    reveal_strlit("#X");
    reveal_strlit("#");
    assert(entity[0] == '#');
    assert("amp"@[0] == 'a' && "lt"@[0] == 'l' && "gt"@[0] == 'g' && "quot"@[0] == 'q' && "apos"@[0] == 'a'
        && "nbsp"@[0] == 'n');
    assert(entity[1] == digits[0]);
    assert(!begins_with(entity, "#x"@)) by {
        if begins_with(entity, "#x"@) {
            assert(entity.subrange(0, 2)[1] == "#x"@[1]);
        }
    }
    assert(!begins_with(entity, "#X"@)) by {
        if begins_with(entity, "#X"@) {
            assert(entity.subrange(0, 2)[1] == "#X"@[1]);
        }
    }
    assert(begins_with(entity, "#"@)) by {
        assert(entity.subrange(0, 1) =~= "#"@);
    }
    assert(entity.skip(1) =~= digits);
    char_is_scalar(c);
    char_u32_cast(c, c as u32);
    assert(entity_char(entity) == Some(c));
    assert(leading_entity(s) == Some((n + 2, c)));
    assert(s.skip(n + 2) =~= rest);
}

/// HTML decoding gives back any text that was written in character references.
pub proof fn numeric_references_are_undone(text: Seq<char>)
    ensures
        html_decoded(numeric_references(text)) == text,
    decreases text.len(),
{
    if text.len() == 0 {
        assert(html_decoded(numeric_references(text)) =~= text);
    } else {
        numeric_reference_decodes(text[0], numeric_references(text.drop_first()));
        numeric_references_are_undone(text.drop_first());
        assert(seq![text[0]] + text.drop_first() =~= text);
    }
}

/// Writing a text in character references hides nothing from a match against a
/// body.
pub proof fn references_hide_nothing(text: Seq<char>)
    ensures
        body_text_form(numeric_references(text)) == text_form(text),
{
    numeric_references_are_undone(text);
}

/// A text without ampersands is not changed by HTML decoding.
pub proof fn text_without_references_stays(text: Seq<char>)
    requires
        forall|i: int| 0 <= i < text.len() ==> #[trigger] text[i] != '&',
    ensures
        html_decoded(text) == text,
    decreases text.len(),
{
    if text.len() == 0 {
        assert(html_decoded(text) =~= text);
    } else {
        let rest = text.skip(1);
        assert forall|i: int| 0 <= i < rest.len() implies #[trigger] rest[i] != '&' by {
            assert(rest[i] == text[i + 1]);
        }
        text_without_references_stays(rest);
        assert(text[0] != '&');
        assert(seq![text[0]] + rest =~= text);
    }
}

/// Lower case is not changed by lowering it, and does not depend on the case
/// that a text was in.
pub proof fn case_hides_nothing(text: Seq<char>)
    ensures
        ascii_lower(ascii_lower(text)) == ascii_lower(text),
        ascii_lower(ascii_upper(text)) == ascii_lower(text),
        ascii_upper(ascii_upper(text)) == ascii_upper(text),
        text_form(ascii_upper(text)) == text_form(text),
{
    assert(ascii_lower(ascii_lower(text)) =~= ascii_lower(text));
    assert(ascii_lower(ascii_upper(text)) =~= ascii_lower(text));
    assert(ascii_upper(ascii_upper(text)) =~= ascii_upper(text));
}

/// The characters of joined texts are those of the texts and of the separator.
proof fn joined_chars(parts: Seq<Seq<char>>, separator: Seq<char>, kind: spec_fn(char) -> bool)
    requires
        forall|i: int, k: int| 0 <= i < parts.len() && 0 <= k < parts[i].len() ==> kind(#[trigger] parts[i][k]),
        forall|k: int| 0 <= k < separator.len() ==> kind(#[trigger] separator[k]),
    ensures
        forall|k: int| 0 <= k < joined(parts, separator).len() ==> kind(#[trigger] joined(parts, separator)[k]),
    decreases parts.len(),
{
    if parts.len() > 1 {
        let rest = parts.drop_last();
        assert forall|i: int, k: int| 0 <= i < rest.len() && 0 <= k < rest[i].len() implies kind(
            #[trigger] rest[i][k],
        ) by {
            assert(rest[i] == parts[i]);
            assert(kind(parts[i][k]));
        }
        joined_chars(rest, separator, kind);
        let whole = joined(parts, separator);
        let front = joined(rest, separator);
        let last = parts[parts.len() - 1];
        assert forall|k: int| 0 <= k < whole.len() implies kind(#[trigger] whole[k]) by {
            if k < front.len() {
                assert(whole[k] == front[k]);
            } else if k < front.len() + separator.len() {
                assert(whole[k] == separator[k - front.len()]);
            } else {
                assert(whole[k] == last[k - front.len() - separator.len()]);
            }
        }
    } else if parts.len() == 1 {
        assert forall|k: int| 0 <= k < parts[0].len() implies kind(#[trigger] parts[0][k]) by {}
    }
}

/// The characters of the words of a text are those of the text.
proof fn word_chars(text: Seq<char>, kind: spec_fn(char) -> bool)
    requires
        forall|k: int| 0 <= k < text.len() ==> kind(#[trigger] text[k]),
    ensures
        forall|i: int, k: int|
            0 <= i < words(text).len() && 0 <= k < words(text)[i].len() ==> kind(#[trigger] words(text)[i][k]),
    decreases text.len(),
{
    if text.len() > 0 {
        let rest = text.drop_last();
        assert forall|k: int| 0 <= k < rest.len() implies kind(#[trigger] rest[k]) by {
            assert(rest[k] == text[k]);
        }
        word_chars(rest, kind);
        words_are_words(rest);
        let before = words(rest);
        let list = words(text);
        assert(kind(text[text.len() - 1]));
        assert forall|i: int, k: int| 0 <= i < list.len() && 0 <= k < list[i].len() implies kind(
            #[trigger] list[i][k],
        ) by {
            if i < before.len() && k < before[i].len() {
                assert(kind(before[i][k]));
                assert(list[i][k] == before[i][k]);
            } else {
                assert(list[i][k] == text[text.len() - 1]);
            }
        }
    }
}

/// The form of a text is a form already: taking it twice changes nothing.
pub proof fn text_form_is_settled(text: Seq<char>)
    ensures
        text_form(text_form(text)) == text_form(text),
{
    let lowered = ascii_lower(text);
    let kind = |c: char| ascii_lower_char(c) == c;
    assert forall|k: int| 0 <= k < lowered.len() implies kind(#[trigger] lowered[k]) by {}
    word_chars(lowered, kind);
    joined_chars(words(lowered), seq![' '], kind);
    let form = text_form(text);
    assert(ascii_lower(form) =~= form) by {
        assert forall|k: int| 0 <= k < form.len() implies ascii_lower_char(#[trigger] form[k]) == form[k] by {
            assert(kind(form[k]));
        }
    }
    collapsing_is_idempotent(lowered);
}

/// What is left when white space is taken off the front of a text.
proof fn trim_start_settled(text: Seq<char>)
    ensures
        trim_start(text).len() == 0 || !is_white_space(trim_start(text)[0]),
        trim_start(trim_start(text)) == trim_start(text),
    decreases text.len(),
{
    if text.len() > 0 && is_white_space(text.first()) {
        trim_start_settled(text.drop_first());
    }
}

/// Taking white space off the end of a text leaves its front as it is.
proof fn trim_end_settled(text: Seq<char>)
    ensures
        trim_end(text).len() == 0 || !is_white_space(trim_end(text).last()),
        trim_end(text).len() <= text.len(),
        trim_end(text) == text.take(trim_end(text).len() as int),
        trim_end(trim_end(text)) == trim_end(text),
    decreases text.len(),
{
    if text.len() > 0 && is_white_space(text.last()) {
        trim_end_settled(text.drop_last());
        let kept = trim_end(text);
        assert(text.drop_last().take(kept.len() as int) =~= text.take(kept.len() as int));
    } else {
        assert(text.take(text.len() as int) =~= text);
    }
}

/// Trimming twice changes nothing.
pub proof fn trimming_is_settled(text: Seq<char>)
    ensures
        trim(trim(text)) == trim(text),
{
    let front = trim_start(text);
    trim_start_settled(text);
    trim_end_settled(front);
    let kept = trim_end(front);
    if kept.len() > 0 {
        assert(kept[0] == front[0]);
    }
    assert(trim_start(kept) == kept);
}

/// Trimming and case do not depend on each other.
proof fn trim_of_mapped(text: Seq<char>, f: spec_fn(char) -> char)
    requires
        forall|c: char| is_white_space(#[trigger] f(c)) == is_white_space(c),
    ensures
        trim_start(text.map_values(f)) == trim_start(text).map_values(f),
        trim_end(text.map_values(f)) == trim_end(text).map_values(f),
    decreases text.len(),
{
    let mapped = text.map_values(f);
    if text.len() > 0 {
        assert(mapped.drop_first() =~= text.drop_first().map_values(f));
        assert(mapped.drop_last() =~= text.drop_last().map_values(f));
        trim_of_mapped(text.drop_first(), f);
        trim_of_mapped(text.drop_last(), f);
        assert(mapped.first() == f(text.first()));
        assert(mapped.last() == f(text.last()));
    }
}

/// The forms in which methods and header names are compared are forms already:
/// taking them twice changes nothing.
pub proof fn compared_forms_are_settled(text: Seq<char>)
    ensures
        method_form(method_form(text)) == method_form(text),
        name_form(name_form(text)) == name_form(text),
{
    let trimmed = trim(text);
    trimming_is_settled(text);
    case_hides_nothing(trimmed);
    let upper = |c: char| ascii_upper_char(c);
    let lower = |c: char| ascii_lower_char(c);
    trim_of_mapped(trimmed, upper);
    trim_of_mapped(trim_start(trimmed), upper);
    trim_of_mapped(trimmed, lower);
    trim_of_mapped(trim_start(trimmed), lower);
    assert(trimmed.map_values(upper) =~= ascii_upper(trimmed));
    assert(trimmed.map_values(lower) =~= ascii_lower(trimmed));
    assert(trim_end(trim_start(trimmed)).map_values(upper) =~= ascii_upper(trim(trimmed)));
    assert(trim_end(trim_start(trimmed)).map_values(lower) =~= ascii_lower(trim(trimmed)));
}

/// A list of distinct texts has no text twice and no blank one. It has every
/// text of the list that it was made of that is not blank, and no other.
pub proof fn distinct_texts_are_distinct(list: Seq<Seq<char>>)
    ensures
        distinct_texts(list).no_duplicates(),
        forall|t: Seq<char>| #[trigger] distinct_texts(list).contains(t) <==> list.contains(t) && !is_blank(t),
    decreases list.len(),
{
    if list.len() > 0 {
        let rest = list.drop_last();
        let last = list.last();
        distinct_texts_are_distinct(rest);
        let before = distinct_texts(rest);
        let result = distinct_texts(list);
        assert forall|t: Seq<char>| #[trigger] result.contains(t) <==> list.contains(t) && !is_blank(t) by {
            if list.contains(t) && t != last {
                let i = choose|i: int| 0 <= i < list.len() && list[i] == t;
                assert(rest[i] == t);
            }
            if rest.contains(t) {
                let i = choose|i: int| 0 <= i < rest.len() && rest[i] == t;
                assert(list[i] == t);
            }
            assert(list[list.len() - 1] == last);
            assert(before.contains(t) <==> rest.contains(t) && !is_blank(t));
            if result != before {
                assert(result[result.len() - 1] == last);
                if before.contains(t) {
                    let i = choose|i: int| 0 <= i < before.len() && before[i] == t;
                    assert(result[i] == t);
                }
            }
        }
    }
}

/// Distinct texts stay as they are when they are made distinct again.
pub proof fn distinct_texts_are_settled(list: Seq<Seq<char>>)
    requires
        list.no_duplicates(),
        forall|i: int| 0 <= i < list.len() ==> !is_blank(#[trigger] list[i]),
    ensures
        distinct_texts(list) == list,
    decreases list.len(),
{
    if list.len() > 0 {
        let rest = list.drop_last();
        assert forall|i: int| 0 <= i < rest.len() implies !is_blank(#[trigger] rest[i]) by {
            assert(rest[i] == list[i]);
        }
        assert forall|i: int, j: int| 0 <= i < rest.len() && 0 <= j < rest.len() && i != j implies rest[i]
            != rest[j] by {
            assert(rest[i] == list[i] && rest[j] == list[j]);
        }
        distinct_texts_are_settled(rest);
        if rest.contains(list.last()) {
            let i = choose|i: int| 0 <= i < rest.len() && rest[i] == list.last();
            assert(list[i] == list[list.len() - 1]);
        }
        assert(!is_blank(list[list.len() - 1]));
        assert(rest.push(list.last()) =~= list);
    }
}

/// Up to three layers of percent encoding around the path, the query or the
/// body of a request hide nothing from the rules: the request takes the form
/// that it would take without them.
pub proof fn percent_layers_hide_nothing_in_requests(
    request: RequestView,
    path: Seq<char>,
    query: Seq<char>,
    body: Seq<char>,
    layers: nat,
)
    requires
        layers <= 3,
        url_pass(path) == path,
        url_pass(query) == query,
        url_pass(body) == body,
    ensures
        request_form(
            RequestView {
                path: percent_layers(path, layers),
                query: Some(percent_layers(query, layers)),
                body: Some(percent_layers(body, layers)),
                ..request
            },
        ) == request_form(RequestView { path, query: Some(query), body: Some(body), ..request }),
{
    percent_layers_hide_nothing(path, layers);
    percent_layers_hide_nothing(query, layers);
    percent_layers_are_undone(body, layers, 3);
    percent_layers_are_undone(body, 0, 3);
}

/// There are no percent and plus signs in character references.
proof fn references_are_plain(text: Seq<char>)
    ensures
        forall|i: int|
            0 <= i < numeric_references(text).len() ==> #[trigger] numeric_references(text)[i] != '%'
                && numeric_references(text)[i] != '+',
    decreases text.len(),
{
    if text.len() > 0 {
        let first = numeric_reference(text[0]);
        let rest = numeric_references(text.drop_first());
        let digits = decimal(text[0] as nat);
        references_are_plain(text.drop_first());
        decimal_reads_back(text[0] as nat);
        let whole = numeric_references(text);
        assert forall|i: int| 0 <= i < whole.len() implies #[trigger] whole[i] != '%' && whole[i] != '+' by {
            if i >= first.len() {
                assert(whole[i] == rest[i - first.len()]);
            } else if 2 <= i < first.len() - 1 {
                assert(whole[i] == digits[i - 2]);
            }
        }
    }
}

/// A body that is written in character references is matched in the form that
/// the text itself has.
pub proof fn references_hide_nothing_in_bodies(text: Seq<char>)
    requires
        !is_blank(text_form(text)),
    ensures
        body_forms(numeric_references(text)).contains(text_form(text)),
{
    let body = numeric_references(text);
    references_are_plain(text);
    plain_text_stays(body);
    url_passes_settle(body, 3);
    references_hide_nothing(text);
    let more = match base64_text(trim(body)) {
        Some(t) => seq![body_text_form(t)],
        None => Seq::empty(),
    };
    let list = seq![text_form(text)] + more;
    assert(list[0] == text_form(text));
    assert(list.contains(text_form(text)));
    distinct_texts_are_distinct(list);
    assert(distinct_texts(list).contains(text_form(text)));
}

} // verus!
