//! Bringing the parts of a request into the form in which they are matched.
use crate::decode::{
    base64_text, decode_base64_text, decode_html_entities, html_decoded, recursive_url_decode, url_passes,
};
use crate::models::{header_texts, AnalysisRequest, NormalizedRequest, NormalizedView, RequestView};
use crate::text::{
    ascii_lower, ascii_upper, begins_with, blank_text, contains_text, has_part, is_blank, lower_text, same_text,
    starts_with_text, trim, trim_text, upper_text,
};
use crate::text_map::{collected, put_commutes, with_values, TextMap};
use crate::words::{collapse_whitespace, collapsed, segments, segments_of, texts, words, words_of};
use vstd::prelude::*;

verus! {

/// A header name in the form in which names are compared.
pub open spec fn name_form(name: Seq<char>) -> Seq<char> {
    ascii_lower(trim(name))
}

/// A method in the form in which methods are compared.
pub open spec fn method_form(method: Seq<char>) -> Seq<char> {
    ascii_upper(trim(method))
}

/// The header name in lower case, without white space around it.
pub fn normalize_header_name(name: &str) -> (form: String)
    ensures
        form@ == name_form(name@),
{
    let trimmed = trim_text(name);
    lower_text(trimmed.as_str())
}

/// The method in upper case, without white space around it.
pub fn normalize_method(method: &str) -> (form: String)
    ensures
        form@ == method_form(method@),
{
    let trimmed = trim_text(method);
    upper_text(trimmed.as_str())
}

/// Text in lower case, each run of white space made one space.
pub open spec fn text_form(s: Seq<char>) -> Seq<char> {
    collapsed(ascii_lower(s))
}

/// Text in lower case, each run of white space made one space.
pub fn normalize_text(input: &str) -> (form: String)
    ensures
        form@ == text_form(input@),
{
    let lowered = lower_text(input);
    collapse_whitespace(lowered.as_str())
}

/// The form of a header value.
pub fn normalize_header_text(input: &str) -> (form: String)
    ensures
        form@ == text_form(input@),
{
    normalize_text(input)
}

/// The form of a body: its character references undone, then the form of text.
pub open spec fn body_text_form(s: Seq<char>) -> Seq<char> {
    text_form(html_decoded(s))
}

/// The form of a body.
pub fn normalize_body_text(input: &str) -> (form: String)
    ensures
        form@ == body_text_form(input@),
{
    let decoded = decode_html_entities(input);
    normalize_text(decoded.as_str())
}

/// A path or query with up to three layers of percent encoding undone, in lower
/// case.
pub open spec fn path_form(s: Seq<char>) -> Seq<char> {
    ascii_lower(url_passes(s, 3))
}

/// A path or query with up to three layers of percent encoding undone, in lower
/// case.
pub fn normalize_path_or_query(input: &str) -> (form: String)
    ensures
        form@ == path_form(input@),
{
    let decoded = recursive_url_decode(input, 3);
    lower_text(decoded.as_str())
}

/// The texts that are not blank, each at its first occurrence only.
pub open spec fn distinct_texts(list: Seq<Seq<char>>) -> Seq<Seq<char>>
    decreases list.len(),
{
    if list.len() == 0 {
        Seq::empty()
    } else {
        let before = distinct_texts(list.drop_last());
        if is_blank(list.last()) || before.contains(list.last()) {
            before
        } else {
            before.push(list.last())
        }
    }
}

/// Whether a list of strings holds a text.
pub fn holds_text(list: &Vec<String>, text: &str) -> (b: bool)
    ensures
        b == texts(list@).contains(text@),
{
    let mut i: usize = 0;
    while i < list.len()
        invariant
            i <= list@.len(),
            forall|j: int| 0 <= j < i ==> texts(list@)[j] != text@,
        decreases list@.len() - i,
    {
        if same_text(list[i].as_str(), text) {
            proof {
                assert(texts(list@)[i as int] == text@);
            }
            return true;
        }
        i += 1;
    }
    false
}

/// The strings that are not blank, each at its first occurrence only.
pub fn dedup_non_empty(items: Vec<String>) -> (unique: Vec<String>)
    ensures
        texts(unique@) == distinct_texts(texts(items@)),
{
    let mut unique: Vec<String> = Vec::new();
    let ghost all = texts(items@);
    let mut i: usize = 0;
    proof {
        assert(texts(unique@) =~= distinct_texts(all.take(0)));
    }
    while i < items.len()
        invariant
            i <= items@.len(),
            all == texts(items@),
            texts(unique@) == distinct_texts(all.take(i as int)),
        decreases items@.len() - i,
    {
        let ghost before = texts(unique@);
        proof {
            assert(all.take(i + 1).drop_last() =~= all.take(i as int));
        }
        if !blank_text(items[i].as_str()) && !holds_text(&unique, items[i].as_str()) {
            unique.push(items[i].clone());
            proof {
                assert(texts(unique@) =~= before.push(all[i as int]));
            }
        }
        i += 1;
    }
    proof {
        assert(all.take(all.len() as int) =~= all);
    }
    unique
}

/// Whether values of the header are tried as base64.
pub open spec fn base64_header(name: Seq<char>) -> bool {
    ||| name == "authorization"@
    ||| has_part(name, "token"@)
    ||| has_part(name, "auth"@)
    ||| has_part(name, "secret"@)
}

/// Whether values of the header are tried as base64.
pub fn should_attempt_base64_decode(header_name: &str) -> (b: bool)
    ensures
        b == base64_header(header_name@),
{
    same_text(header_name, "authorization") || contains_text(header_name, "token") || contains_text(
        header_name,
        "auth",
    ) || contains_text(header_name, "secret")
}

/// Whether signatures are matched against the header.
pub open spec fn inspected_header(name: Seq<char>) -> bool {
    ||| name == "authorization"@
    ||| name == "origin"@
    ||| name == "referer"@
    ||| name == "x-requested-with"@
    ||| begins_with(name, "x-"@)
}

/// Whether signatures are matched against the header.
pub fn should_inspect_header_for_signatures(header_name: &str) -> (b: bool)
    ensures
        b == inspected_header(header_name@),
{
    same_text(header_name, "authorization") || same_text(header_name, "origin") || same_text(
        header_name,
        "referer",
    ) || same_text(header_name, "x-requested-with") || starts_with_text(header_name, "x-")
}

/// The last word of a text, if it is not the whole text.
pub open spec fn last_token(s: Seq<char>) -> Seq<Seq<char>> {
    if words(s).len() > 0 && words(s).last() != s {
        seq![words(s).last()]
    } else {
        Seq::empty()
    }
}

/// The parts of a header value that could be base64: the value without white
/// space around it, and its last word.
pub open spec fn base64_candidates(s: Seq<char>) -> Seq<Seq<char>> {
    distinct_texts(seq![trim(s)] + last_token(trim(s)))
}

/// The parts of a header value that could be base64.
pub fn extract_base64_candidates(input: &str) -> (candidates: Vec<String>)
    ensures
        texts(candidates@) == base64_candidates(input@),
{
    let trimmed = trim_text(input);
    let mut candidates: Vec<String> = Vec::new();
    candidates.push(trimmed.clone());
    let tokens = words_of(trimmed.as_str());
    proof {
        assert(texts(candidates@) =~= seq![trim(input@)] + Seq::<Seq<char>>::empty());
    }
    if tokens.len() > 0 {
        proof {
            assert(texts(tokens@).last() == tokens@[tokens@.len() - 1]@);
        }
        if !same_text(tokens[tokens.len() - 1].as_str(), trimmed.as_str()) {
            candidates.push(tokens[tokens.len() - 1].clone());
            proof {
                assert(texts(candidates@) =~= seq![trim(input@)] + last_token(trim(input@)));
            }
        }
    }
    dedup_non_empty(candidates)
}

/// The forms of the texts behind those candidates that are base64.
pub open spec fn decoded_forms(candidates: Seq<Seq<char>>) -> Seq<Seq<char>>
    decreases candidates.len(),
{
    if candidates.len() == 0 {
        Seq::empty()
    } else {
        let before = decoded_forms(candidates.drop_last());
        match base64_text(candidates.last()) {
            Some(text) => before.push(text_form(text)),
            None => before,
        }
    }
}

/// The forms of a header's value: its own, and those of the texts that it holds
/// as base64.
pub open spec fn value_forms(name: Seq<char>, value: Seq<char>) -> Seq<Seq<char>> {
    distinct_texts(
        seq![text_form(value)] + (if base64_header(name) {
            decoded_forms(base64_candidates(value))
        } else {
            Seq::empty()
        }),
    )
}

/// The forms of a header's value.
pub fn normalize_header_value(name: &str, value: &str) -> (forms: Vec<String>)
    ensures
        texts(forms@) == value_forms(name@, value@),
{
    let mut variants: Vec<String> = Vec::new();
    let own = normalize_header_text(value);
    variants.push(own);
    let ghost first = seq![text_form(value@)];
    proof {
        assert(texts(variants@) =~= first + Seq::<Seq<char>>::empty());
    }
    if should_attempt_base64_decode(name) {
        let candidates = extract_base64_candidates(value);
        let ghost all = texts(candidates@);
        let mut i: usize = 0;
        proof {
            assert(decoded_forms(all.take(0)) =~= Seq::<Seq<char>>::empty());
        }
        while i < candidates.len()
            invariant
                i <= candidates@.len(),
                all == texts(candidates@),
                texts(variants@) == first + decoded_forms(all.take(i as int)),
            decreases candidates@.len() - i,
        {
            let ghost before = texts(variants@);
            proof {
                assert(all.take(i + 1).drop_last() =~= all.take(i as int));
                assert(all.take(i + 1).last() == candidates@[i as int]@);
            }
            if let Some(decoded) = decode_base64_text(candidates[i].as_str()) {
                let form = normalize_header_text(decoded.as_str());
                let ghost added = form@;
                variants.push(form);
                proof {
                    assert(texts(variants@) =~= before.push(added));
                    assert(texts(variants@) =~= first + decoded_forms(all.take(i + 1)));
                }
            }
            i += 1;
        }
        proof {
            assert(all.take(all.len() as int) =~= all);
        }
    }
    dedup_non_empty(variants)
}

/// The forms of a body: with its percent encoding undone, and what that holds
/// as base64.
pub open spec fn body_forms(body: Seq<char>) -> Seq<Seq<char>> {
    let decoded = url_passes(body, 3);
    distinct_texts(
        seq![body_text_form(decoded)] + (match base64_text(trim(decoded)) {
            Some(text) => seq![body_text_form(text)],
            None => Seq::empty(),
        }),
    )
}

/// The forms of a body.
pub fn normalize_body(input: &str) -> (forms: Vec<String>)
    ensures
        texts(forms@) == body_forms(input@),
{
    let url_decoded = recursive_url_decode(input, 3);
    let mut variants: Vec<String> = Vec::new();
    let own = normalize_body_text(url_decoded.as_str());
    let ghost first = own@;
    variants.push(own);
    proof {
        assert(texts(variants@) =~= seq![first] + Seq::<Seq<char>>::empty());
    }
    let trimmed = trim_text(url_decoded.as_str());
    if let Some(decoded) = decode_base64_text(trimmed.as_str()) {
        let form = normalize_body_text(decoded.as_str());
        let ghost second = form@;
        variants.push(form);
        proof {
            assert(texts(variants@) =~= seq![first] + seq![second]);
        }
    }
    dedup_non_empty(variants)
}

/// The headers with their names in the form in which they are compared and
/// without white space around their values.
pub open spec fn headers_form(headers: Seq<(Seq<char>, Seq<char>)>) -> Seq<(Seq<char>, Seq<char>)> {
    collected(headers.map_values(|h: (Seq<char>, Seq<char>)| (name_form(h.0), trim(h.1))))
}

/// The headers with their names in the form in which they are compared and
/// without white space around their values. Of headers whose names take one
/// form, the last counts.
pub fn normalize_headers(headers: &TextMap<String>) -> (normalized: TextMap<String>)
    ensures
        header_texts(normalized) == headers_form(header_texts(*headers)),
{
    let mut normalized: TextMap<String> = TextMap::new();
    let ghost view = |v: String| v@;
    let ghost pairs = header_texts(*headers).map_values(
        |h: (Seq<char>, Seq<char>)| (name_form(h.0), trim(h.1)),
    );
    let mut i: usize = 0;
    proof {
        assert(header_texts(normalized) =~= collected(pairs.take(0)));
    }
    while i < headers.len()
        invariant
            i <= headers@.len(),
            view == (|v: String| v@),
            pairs == header_texts(*headers).map_values(
                |h: (Seq<char>, Seq<char>)| (name_form(h.0), trim(h.1)),
            ),
            header_texts(normalized) == collected(pairs.take(i as int)),
        decreases headers@.len() - i,
    {
        let name = normalize_header_name(headers.key_at(i));
        let value = trim_text(headers.value_at(i).as_str());
        proof {
            put_commutes(normalized@, name@, value, view);
            assert(pairs.take(i + 1).drop_last() =~= pairs.take(i as int));
            assert(pairs.take(i + 1).last() == (name@, value@));
        }
        normalized.insert(name, value);
        i += 1;
    }
    proof {
        assert(pairs.take(pairs.len() as int) =~= pairs);
    }
    normalized
}

/// The headers with their names in the form in which they are compared and the
/// forms of their values.
pub open spec fn signature_headers_form(
    headers: Seq<(Seq<char>, Seq<char>)>,
) -> Seq<(Seq<char>, Seq<Seq<char>>)> {
    collected(headers.map_values(|h: (Seq<char>, Seq<char>)| (name_form(h.0), value_forms(name_form(h.0), h.1))))
}

/// The headers with their names in the form in which they are compared and the
/// forms of their values.
pub fn normalize_signature_headers(headers: &TextMap<String>) -> (normalized: TextMap<Vec<String>>)
    ensures
        with_values(normalized@, |v: Vec<String>| texts(v@)) == signature_headers_form(header_texts(*headers)),
{
    let mut normalized: TextMap<Vec<String>> = TextMap::new();
    let ghost view = |v: Vec<String>| texts(v@);
    let ghost pairs = header_texts(*headers).map_values(
        |h: (Seq<char>, Seq<char>)| (name_form(h.0), value_forms(name_form(h.0), h.1)),
    );
    let mut i: usize = 0;
    proof {
        assert(with_values(normalized@, view) =~= collected(pairs.take(0)));
    }
    while i < headers.len()
        invariant
            i <= headers@.len(),
            view == (|v: Vec<String>| texts(v@)),
            pairs == header_texts(*headers).map_values(
                |h: (Seq<char>, Seq<char>)| (name_form(h.0), value_forms(name_form(h.0), h.1)),
            ),
            with_values(normalized@, view) == collected(pairs.take(i as int)),
        decreases headers@.len() - i,
    {
        let name = normalize_header_name(headers.key_at(i));
        let values = normalize_header_value(name.as_str(), headers.value_at(i).as_str());
        proof {
            put_commutes(normalized@, name@, values, view);
            assert(pairs.take(i + 1).drop_last() =~= pairs.take(i as int));
            assert(pairs.take(i + 1).last() == (name@, texts(values@)));
        }
        normalized.insert(name, values);
        i += 1;
    }
    proof {
        assert(pairs.take(pairs.len() as int) =~= pairs);
    }
    normalized
}

/// A request with the encodings of its parts undone.
pub open spec fn request_form(request: RequestView) -> NormalizedView {
    NormalizedView {
        path: path_form(request.path),
        query: match request.query {
            Some(q) => Some(path_form(q)),
            None => None,
        },
        headers: signature_headers_form(request.headers),
        body: match request.body {
            Some(b) => body_forms(b),
            None => Seq::empty(),
        },
    }
}

/// A request with the encodings of its parts undone.
pub fn normalize_request(request: &AnalysisRequest) -> (normalized: NormalizedRequest)
    ensures
        normalized@ == request_form(request@),
{
    let query = match &request.query {
        Some(q) => Some(normalize_path_or_query(q.as_str())),
        None => None,
    };
    let body = match &request.body {
        Some(b) => normalize_body(b.as_str()),
        None => Vec::new(),
    };
    let normalized = NormalizedRequest {
        path: normalize_path_or_query(request.path.as_str()),
        query,
        headers: normalize_signature_headers(&request.headers),
        body,
    };
    proof {
        assert(request.body is None ==> normalized@.body =~= Seq::<Seq<char>>::empty());
    }
    normalized
}

/// How many of the texts are not blank.
pub open spec fn count_not_blank(list: Seq<Seq<char>>) -> nat
    decreases list.len(),
{
    if list.len() == 0 {
        0
    } else {
        count_not_blank(list.drop_last()) + (if is_blank(list.last()) {
            0nat
        } else {
            1nat
        })
    }
}

/// How many parameters a query has: its pieces between ampersands that are not
/// blank.
pub open spec fn param_count(query: Option<Seq<char>>) -> nat {
    match query {
        Some(q) => count_not_blank(segments(q, '&')),
        None => 0,
    }
}

/// How many parameters a query has.
pub fn count_query_params(query: Option<&str>) -> (count: usize)
    ensures
        count == param_count(match query {
            Some(q) => Some(q@),
            None => None,
        }),
{
    match query {
        Some(q) => {
            let pieces = segments_of(q, '&');
            let ghost all = texts(pieces@);
            let mut count: usize = 0;
            let mut i: usize = 0;
            while i < pieces.len()
                invariant
                    i <= pieces@.len(),
                    all == texts(pieces@),
                    count <= i,
                    count == count_not_blank(all.take(i as int)),
                decreases pieces@.len() - i,
            {
                proof {
                    assert(all.take(i + 1).drop_last() =~= all.take(i as int));
                }
                if !blank_text(pieces[i].as_str()) {
                    count += 1;
                }
                i += 1;
            }
            proof {
                assert(all.take(all.len() as int) =~= all);
            }
            count
        },
        None => 0,
    }
}

} // verus!
