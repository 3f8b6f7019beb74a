//! In which forms the parts of a request are matched and compared: each part on
//! its own, whatever the others are.
use crate::decode::{
    base64_shaped, base64_text, html_decoded, is_base64_char, lossy_text, readable_text, url_passes,
};
use crate::evasion::distinct_texts_are_distinct;
use crate::models::RequestView;
use crate::normalize::{
    base64_candidates, base64_header, body_forms, count_not_blank, decoded_forms, distinct_texts, headers_form,
    inspected_header, last_token, method_form, name_form, param_count, path_form, request_form,
    signature_headers_form, text_form, value_forms,
};
use crate::outside::{base64_bytes, utf8_lossy};
use crate::text::{ascii_lower, ascii_upper, begins_with, has_part, is_blank, is_white_space, trim};
use crate::text_laws::{
    collapsing_keeps_the_words, parts_stand_where_they_are_put, segments_of_unbroken_text,
    segments_part_at_separators, trimming_takes_off_the_ends,
};
use crate::text_map::{lookup, lookup_in_collected};
use crate::words::{joined, segments, words};
use vstd::prelude::*;
use vstd::utf8::*;

verus! {

/// Bytes that encode a text are taken for that text, and other bytes for what
/// the lossy conversion makes of them.
pub proof fn bytes_are_taken_for_their_text(text: Seq<char>, bytes: Seq<u8>)
    ensures
        lossy_text(encode_utf8(text)) == text,
        !valid_utf8(bytes) ==> lossy_text(bytes) == utf8_lossy(bytes),
        readable_text(encode_utf8(text)) == (if is_blank(text) {
            None
        } else {
            Some(text)
        }),
        !valid_utf8(bytes) ==> readable_text(bytes) is None,
{
    encode_utf8_valid_utf8(text);
    encode_utf8_decode_utf8(text);
}

/// A text is tried as base64 if, white space around it aside, it has eight
/// characters or more, in fours, and each is a letter, a digit, `+`, `/` or `=`.
pub proof fn base64_has_this_shape(text: Seq<char>)
    ensures
        base64_shaped(text) <==> {
            let kept = trim(text);
            &&& kept.len() >= 8
            &&& kept.len() % 4 == 0
            &&& forall|i: int|
                0 <= i < kept.len() ==> {
                    let n = (#[trigger] kept[i]) as int;
                    97 <= n <= 122 || 65 <= n <= 90 || 48 <= n <= 57 || n == 43 || n == 47 || n == 61
                }
        },
{
    let kept = trim(text);
    if forall|i: int|
        0 <= i < kept.len() ==> {
            let n = (#[trigger] kept[i]) as int;
            97 <= n <= 122 || 65 <= n <= 90 || 48 <= n <= 57 || n == 43 || n == 47 || n == 61
        } {
        assert forall|i: int| 0 <= i < kept.len() implies is_base64_char(#[trigger] kept[i]) by {}
    }
}

/// Behind a text that has the shape of base64 is what the decoder makes of it,
/// if that is the encoding of a text that is not blank.
pub proof fn base64_hides_no_text(text: Seq<char>, hidden: Seq<char>)
    ensures
        base64_text(text) == Some(hidden) <==> {
            &&& base64_shaped(text)
            &&& base64_bytes(trim(text)) == Some(encode_utf8(hidden))
            &&& !is_blank(hidden)
        },
{
    encode_utf8_valid_utf8(hidden);
    encode_utf8_decode_utf8(hidden);
    if let Some(bytes) = base64_bytes(trim(text)) {
        if valid_utf8(bytes) {
            decode_utf8_encode_utf8(bytes);
        }
    }
}

/// Names are compared in lower case and methods in upper case, both without
/// white space around them; texts are matched in lower case with their words one
/// space apart; paths and queries in lower case with three passes of percent
/// decoding done.
pub proof fn forms_are_these(text: Seq<char>)
    ensures
        name_form(text) == ascii_lower(trim(text)),
        method_form(text) == ascii_upper(trim(text)),
        text_form(text) == joined(words(ascii_lower(text)), seq![' ']),
        path_form(text) == ascii_lower(url_passes(text, 3)),
{
    collapsing_keeps_the_words(ascii_lower(text));
}

/// White space around a name or method, and between or around the words of a
/// text, does not change its form.
pub proof fn white_space_hides_nothing(front: Seq<char>, text: Seq<char>, back: Seq<char>)
    requires
        is_blank(front),
        is_blank(back),
        text.len() > 0 ==> !is_white_space(text[0]) && !is_white_space(text[text.len() - 1]),
    ensures
        name_form(front + text + back) == ascii_lower(text),
        method_form(front + text + back) == ascii_upper(text),
{
    trimming_takes_off_the_ends(front, text, back);
}

/// Making texts distinct does not depend on what follows: the distinct texts of
/// a list are the first of those of a longer one.
pub proof fn distinct_texts_keep_their_order(a: Seq<Seq<char>>, b: Seq<Seq<char>>)
    ensures
        distinct_texts(a).is_prefix_of(distinct_texts(a + b)),
    decreases b.len(),
{
    if b.len() == 0 {
        assert(a + b =~= a);
    } else {
        distinct_texts_keep_their_order(a, b.drop_last());
        assert((a + b).drop_last() =~= a + b.drop_last());
        let before = distinct_texts(a + b.drop_last());
        let front = distinct_texts(a);
        assert(before.push(b.last()).subrange(0, front.len() as int) =~= before.subrange(0, front.len() as int));
    }
}

/// The values of these headers are tried as base64: `authorization`, and those
/// that have `token`, `auth` or `secret` in their names.
pub proof fn base64_headers_are_these(front: Seq<char>, back: Seq<char>, name: Seq<char>)
    ensures
        base64_header("authorization"@),
        base64_header(front + "token"@ + back),
        base64_header(front + "auth"@ + back),
        base64_header(front + "secret"@ + back),
        base64_header(name) ==> name == "authorization"@ || has_part(name, "token"@) || has_part(name, "auth"@)
            || has_part(name, "secret"@),
{
    parts_stand_where_they_are_put(front, "token"@, back);
    parts_stand_where_they_are_put(front, "auth"@, back);
    parts_stand_where_they_are_put(front, "secret"@, back);
}

/// Rules are matched against these headers: `authorization`, `origin`,
/// `referer`, and those whose names begin with `x-`.
pub proof fn inspected_headers_are_these(name: Seq<char>, rest: Seq<char>)
    ensures
        inspected_header("authorization"@),
        inspected_header("origin"@),
        inspected_header("referer"@),
        inspected_header("x-"@ + rest),
        inspected_header(name) ==> name == "authorization"@ || name == "origin"@ || name == "referer"@ || begins_with(
            name,
            "x-"@,
        ),
{
    parts_stand_where_they_are_put(seq![], "x-"@, rest);
    reveal_strlit("x-requested-with");
    reveal_strlit("x-");
    assert("x-requested-with"@.subrange(0, 2) =~= "x-"@);
}

/// What is tried as base64 in a header's value is the value without white space
/// around it and its last word, and nothing that is blank.
pub proof fn base64_candidates_are_these(value: Seq<char>, candidate: Seq<char>)
    ensures
        base64_candidates(value).contains(candidate) <==> {
            &&& !is_blank(candidate)
            &&& candidate == trim(value) || (words(trim(value)).len() > 0 && candidate == words(trim(value))[words(
                trim(value),
            ).len() - 1])
        },
{
    let kept = trim(value);
    let list = seq![kept] + last_token(kept);
    distinct_texts_are_distinct(list);
    assert(list[0] == kept);
    if words(kept).len() > 0 && words(kept).last() != kept {
        assert(list[1] == words(kept).last());
    }
    assert(base64_candidates(value).contains(candidate) <==> list.contains(candidate) && !is_blank(candidate));
}

/// The forms of hidden texts are those of the texts behind some candidate.
pub proof fn decoded_forms_are_those_of_candidates(candidates: Seq<Seq<char>>, form: Seq<char>)
    ensures
        decoded_forms(candidates).contains(form) <==> exists|i: int|
            0 <= i < candidates.len() && base64_text(#[trigger] candidates[i]) is Some && form == text_form(
                base64_text(candidates[i])->0,
            ),
    decreases candidates.len(),
{
    if candidates.len() > 0 {
        let rest = candidates.drop_last();
        let last = candidates.last();
        decoded_forms_are_those_of_candidates(rest, form);
        let before = decoded_forms(rest);
        let all = decoded_forms(candidates);
        if before.contains(form) {
            let k = choose|k: int| 0 <= k < before.len() && before[k] == form;
            assert(all[k] == form);
            let i = choose|i: int|
                0 <= i < rest.len() && base64_text(#[trigger] rest[i]) is Some && form == text_form(
                    base64_text(rest[i])->0,
                );
            assert(candidates[i] == rest[i]);
        }
        if base64_text(last) is Some {
            assert(all[all.len() - 1] == text_form(base64_text(last)->0));
            assert(candidates[candidates.len() - 1] == last);
        }
        if exists|i: int|
            0 <= i < candidates.len() && base64_text(#[trigger] candidates[i]) is Some && form == text_form(
                base64_text(candidates[i])->0,
            ) {
            let i = choose|i: int|
                0 <= i < candidates.len() && base64_text(#[trigger] candidates[i]) is Some && form == text_form(
                    base64_text(candidates[i])->0,
                );
            if i < rest.len() {
                assert(rest[i] == candidates[i]);
            }
        }
    }
}

/// A header's value is matched in its own form, and if it is tried as base64,
/// in the forms of the texts behind it and behind its last word; in no other.
pub proof fn value_forms_are_these(name: Seq<char>, value: Seq<char>, form: Seq<char>)
    ensures
        value_forms(name, value).contains(form) <==> {
            &&& !is_blank(form)
            &&& form == text_form(value) || (base64_header(name) && exists|hidden: Seq<char>, candidate: Seq<char>|
                #![trigger base64_candidates(value).contains(candidate), text_form(hidden)]
                {
                    &&& base64_candidates(value).contains(candidate)
                    &&& base64_text(candidate) == Some(hidden)
                    &&& form == text_form(hidden)
                })
        },
{
    let candidates = base64_candidates(value);
    let more = if base64_header(name) {
        decoded_forms(candidates)
    } else {
        Seq::empty()
    };
    let list = seq![text_form(value)] + more;
    distinct_texts_are_distinct(list);
    decoded_forms_are_those_of_candidates(candidates, form);
    assert(value_forms(name, value).contains(form) <==> list.contains(form) && !is_blank(form));
    assert(list[0] == text_form(value));
    if list.contains(form) && form != text_form(value) {
        let k = choose|k: int| 0 <= k < list.len() && list[k] == form;
        assert(more[k - 1] == form);
        assert(decoded_forms(candidates).contains(form));
        let i = choose|i: int|
            0 <= i < candidates.len() && base64_text(#[trigger] candidates[i]) is Some && form == text_form(
                base64_text(candidates[i])->0,
            );
        assert(base64_candidates(value).contains(candidates[i]));
        assert(form == text_form(base64_text(candidates[i])->0));
    }
    if base64_header(name) && exists|hidden: Seq<char>, candidate: Seq<char>|
        #![trigger base64_candidates(value).contains(candidate), text_form(hidden)]
        {
            &&& base64_candidates(value).contains(candidate)
            &&& base64_text(candidate) == Some(hidden)
            &&& form == text_form(hidden)
        } {
        let (hidden, candidate) = choose|hidden: Seq<char>, candidate: Seq<char>|
            #![trigger base64_candidates(value).contains(candidate), text_form(hidden)]
            {
                &&& base64_candidates(value).contains(candidate)
                &&& base64_text(candidate) == Some(hidden)
                &&& form == text_form(hidden)
            };
        let i = choose|i: int| 0 <= i < candidates.len() && candidates[i] == candidate;
        assert(base64_text(candidates[i]) is Some);
        assert(decoded_forms(candidates).contains(form));
        let k = choose|k: int| 0 <= k < more.len() && more[k] == form;
        assert(list[k + 1] == form);
    }
}

/// A body is matched with its percent encoding undone three times and its
/// character references undone, in the form of text. If what the percent
/// decoding leaves is base64, the text behind it is matched too, with its
/// character references undone. It is matched in no other form.
pub proof fn body_forms_are_these(body: Seq<char>, form: Seq<char>)
    ensures
        body_forms(body).contains(form) <==> {
            let decoded = url_passes(body, 3);
            &&& !is_blank(form)
            &&& form == text_form(html_decoded(decoded)) || (base64_text(trim(decoded)) is Some && form == text_form(
                html_decoded(base64_text(trim(decoded))->0),
            ))
        },
{
    let decoded = url_passes(body, 3);
    let more = match base64_text(trim(decoded)) {
        Some(hidden) => seq![text_form(html_decoded(hidden))],
        None => Seq::empty(),
    };
    let list = seq![text_form(html_decoded(decoded))] + more;
    distinct_texts_are_distinct(list);
    assert(list[0] == text_form(html_decoded(decoded)));
    if base64_text(trim(decoded)) is Some {
        assert(list[1] == text_form(html_decoded(base64_text(trim(decoded))->0)));
    }
    assert(body_forms(body) == distinct_texts(list));
    assert(body_forms(body).contains(form) <==> list.contains(form) && !is_blank(form));
}

/// The last of some headers with the name that is asked for, if there is one.
pub open spec fn is_last_named(headers: Seq<(Seq<char>, Seq<char>)>, name: Seq<char>, at: int) -> bool {
    &&& 0 <= at < headers.len()
    &&& ascii_lower(trim(headers[at].0)) == name
    &&& forall|i: int| at < i < headers.len() ==> ascii_lower(trim((#[trigger] headers[i]).0)) != name
}

/// What is found under a name among pairs that are made of headers, each of one.
proof fn lookup_of_made_pairs<V>(
    headers: Seq<(Seq<char>, Seq<char>)>,
    pairs: Seq<(Seq<char>, V)>,
    name: Seq<char>,
    at: int,
)
    requires
        pairs.len() == headers.len(),
        forall|i: int| 0 <= i < headers.len() ==> (#[trigger] pairs[i]).0 == ascii_lower(trim(headers[i].0)),
    ensures
        is_last_named(headers, name, at) ==> lookup(pairs, name) == Some(pairs[at].1),
        (forall|i: int| 0 <= i < headers.len() ==> ascii_lower(trim((#[trigger] headers[i]).0)) != name)
            ==> lookup(pairs, name) is None,
    decreases headers.len(),
{
    if headers.len() > 0 {
        let last = headers.len() - 1;
        assert(pairs[last].0 == ascii_lower(trim(headers[last].0)));
        if is_last_named(headers, name, at) && at < last {
            assert(ascii_lower(trim(headers[last].0)) != name);
            assert(is_last_named(headers.drop_last(), name, at));
        }
        lookup_of_made_pairs(headers.drop_last(), pairs.drop_last(), name, at);
    }
}

/// Every header is there for the policies under its name in lower case without
/// white space around it, with its value without white space around it; of
/// headers with one name the last counts. There are no others.
pub proof fn every_header_is_compared(headers: Seq<(Seq<char>, Seq<char>)>, name: Seq<char>, at: int)
    ensures
        is_last_named(headers, name, at) ==> lookup(headers_form(headers), name) == Some(trim(headers[at].1)),
        (forall|i: int| 0 <= i < headers.len() ==> ascii_lower(trim((#[trigger] headers[i]).0)) != name) ==> lookup(
            headers_form(headers),
            name,
        ) is None,
{
    let pairs = headers.map_values(|h: (Seq<char>, Seq<char>)| (name_form(h.0), trim(h.1)));
    lookup_in_collected(pairs, name);
    lookup_of_made_pairs(headers, pairs, name, at);
}

/// Every header is there for the rules under its name in lower case without
/// white space around it, with the forms of its value; of headers with one name
/// the last counts. There are no others.
pub proof fn every_header_is_matched(headers: Seq<(Seq<char>, Seq<char>)>, name: Seq<char>, at: int)
    ensures
        is_last_named(headers, name, at) ==> lookup(signature_headers_form(headers), name) == Some(
            value_forms(name, headers[at].1),
        ),
        (forall|i: int| 0 <= i < headers.len() ==> ascii_lower(trim((#[trigger] headers[i]).0)) != name) ==> lookup(
            signature_headers_form(headers),
            name,
        ) is None,
{
    let pairs = headers.map_values(
        |h: (Seq<char>, Seq<char>)| (name_form(h.0), value_forms(name_form(h.0), h.1)),
    );
    lookup_in_collected(pairs, name);
    lookup_of_made_pairs(headers, pairs, name, at);
}

/// Each part of a request takes its form on its own: the path and the query that
/// of paths, the headers that of headers, the body those of bodies.
pub proof fn every_part_takes_its_form(request: RequestView)
    ensures
        request_form(request).path == path_form(request.path),
        request.query is None ==> request_form(request).query is None,
        request.query is Some ==> request_form(request).query == Some(path_form(request.query->0)),
        request_form(request).headers == signature_headers_form(request.headers),
        request.body is None ==> request_form(request).body.len() == 0,
        request.body is Some ==> request_form(request).body == body_forms(request.body->0),
{
}

/// The count of two lists in a row.
proof fn count_of_two(a: Seq<Seq<char>>, b: Seq<Seq<char>>)
    ensures
        count_not_blank(a + b) == count_not_blank(a) + count_not_blank(b),
    decreases b.len(),
{
    if b.len() == 0 {
        assert(a + b =~= a);
    } else {
        count_of_two(a, b.drop_last());
        assert((a + b).drop_last() =~= a + b.drop_last());
    }
}

/// An ampersand parts the parameters of a query: those before it and those
/// behind it are counted on their own.
pub proof fn parameters_are_counted_piecewise(a: Seq<char>, b: Seq<char>)
    ensures
        param_count(Some(a + seq!['&'] + b)) == param_count(Some(a)) + param_count(Some(b)),
        param_count(None) == 0,
{
    segments_part_at_separators(a, b, '&');
    count_of_two(segments(a, '&'), segments(b, '&'));
}

/// A query without ampersands has one parameter, or none if it is blank.
pub proof fn query_without_ampersands_has_one_parameter(query: Seq<char>)
    requires
        forall|i: int| 0 <= i < query.len() ==> #[trigger] query[i] != '&',
    ensures
        param_count(Some(query)) == (if is_blank(query) {
            0nat
        } else {
            1nat
        }),
{
    segments_of_unbroken_text(query, '&');
    reveal_with_fuel(count_not_blank, 2);
    assert(seq![query].drop_last() =~= Seq::<Seq<char>>::empty());
}

} // verus!
