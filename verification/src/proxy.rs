//! What the proxy does with the headers of requests and responses.
use crate::headers::{
    all_bytes, all_values, append_header, has_room, header_entries, header_lists, header_pairs, holds_between,
    holds_everywhere, insert_header, is_name_char, is_plain_name, is_value_text, is_visible, is_visible_ascii,
    is_visible_text, name_text, new_headers, on_the_way, remove_header, value_bytes, values_among, values_under,
};
use crate::config::quoting;
use crate::text::{
    ascii_lower, contains_text, ends_in, ends_with_text, has_part, lower_text, same_text, stands_at,
};
use axum::http::header::HeaderName;
use axum::http::{HeaderMap, HeaderValue};
use vstd::prelude::*;
use vstd::utf8::*;

verus! {

/// Why the proxy cannot go on with a request.
#[derive(Debug, Clone)]
pub enum ProxyError {
    InvalidTargetUrl(String),
    InvalidUpstreamUrl(String),
    InvalidForwardedHost,
    InvalidForwardedFor(String),
    InvalidCookie(String),
    UnserializedPayload,
    UnserializedPreview,
    TooManyHeaders,
}

/// What an error says.
pub enum ProxyProblem {
    InvalidTargetUrl(Seq<char>),
    InvalidUpstreamUrl(Seq<char>),
    InvalidForwardedHost,
    InvalidForwardedFor(Seq<char>),
    InvalidCookie(Seq<char>),
    UnserializedPayload,
    UnserializedPreview,
    TooManyHeaders,
}

impl View for ProxyError {
    type V = ProxyProblem;

    open spec fn view(&self) -> ProxyProblem {
        match self {
            ProxyError::InvalidTargetUrl(url) => ProxyProblem::InvalidTargetUrl(url@),
            ProxyError::InvalidUpstreamUrl(reference) => ProxyProblem::InvalidUpstreamUrl(reference@),
            ProxyError::InvalidForwardedHost => ProxyProblem::InvalidForwardedHost,
            ProxyError::InvalidForwardedFor(value) => ProxyProblem::InvalidForwardedFor(value@),
            ProxyError::InvalidCookie(cookie) => ProxyProblem::InvalidCookie(cookie@),
            ProxyError::UnserializedPayload => ProxyProblem::UnserializedPayload,
            ProxyError::UnserializedPreview => ProxyProblem::UnserializedPreview,
            ProxyError::TooManyHeaders => ProxyProblem::TooManyHeaders,
        }
    }
}

/// The words in which a problem is told.
pub open spec fn proxy_problem_text(problem: ProxyProblem) -> Seq<char> {
    match problem {
        ProxyProblem::InvalidTargetUrl(url) => "failed to parse target URL '"@ + url + "'"@,
        ProxyProblem::InvalidUpstreamUrl(reference) => "failed to build upstream URL for '"@ + reference + "'"@,
        ProxyProblem::InvalidForwardedHost => "failed to set x-forwarded-host header"@,
        ProxyProblem::InvalidForwardedFor(value) => "failed to build x-forwarded-for header '"@ + value + "'"@,
        ProxyProblem::InvalidCookie(cookie) => "failed to build hardened Set-Cookie header '"@ + cookie + "'"@,
        ProxyProblem::UnserializedPayload => "failed to serialize attack payload"@,
        ProxyProblem::UnserializedPreview => "failed to serialize blocked request preview"@,
        ProxyProblem::TooManyHeaders => "too many distinct header names"@,
    }
}

impl ProxyError {
    /// The words in which the error is told.
    pub fn message(&self) -> (text: String)
        ensures
            text@ == proxy_problem_text(self@),
    {
        match self {
            ProxyError::InvalidTargetUrl(url) => quoting("failed to parse target URL '", url.as_str(), "'"),
            ProxyError::InvalidUpstreamUrl(reference) => quoting(
                "failed to build upstream URL for '",
                reference.as_str(),
                "'",
            ),
            ProxyError::InvalidForwardedHost => "failed to set x-forwarded-host header".to_string(),
            ProxyError::InvalidForwardedFor(value) => quoting(
                "failed to build x-forwarded-for header '",
                value.as_str(),
                "'",
            ),
            ProxyError::InvalidCookie(cookie) => quoting(
                "failed to build hardened Set-Cookie header '",
                cookie.as_str(),
                "'",
            ),
            ProxyError::UnserializedPayload => "failed to serialize attack payload".to_string(),
            ProxyError::UnserializedPreview => "failed to serialize blocked request preview".to_string(),
            ProxyError::TooManyHeaders => "too many distinct header names".to_string(),
        }
    }
}

/// Whether a header concerns one connection only, and is not passed on.
pub open spec fn hop_by_hop(name: Seq<char>) -> bool {
    let lowered = ascii_lower(name);
    ||| lowered == "connection"@
    ||| lowered == "keep-alive"@
    ||| lowered == "proxy-authenticate"@
    ||| lowered == "proxy-authorization"@
    ||| lowered == "te"@
    ||| lowered == "trailer"@
    ||| lowered == "transfer-encoding"@
    ||| lowered == "upgrade"@
}

/// Whether a header concerns one connection only, and is not passed on.
pub fn is_hop_by_hop_header(name: &HeaderName) -> (b: bool)
    ensures
        b == hop_by_hop(name_text(*name)),
{
    let lowered = lower_text(name.as_str());
    let text = lowered.as_str();
    same_text(text, "connection") || same_text(text, "keep-alive") || same_text(text, "proxy-authenticate")
        || same_text(text, "proxy-authorization") || same_text(text, "te") || same_text(text, "trailer") || same_text(
        text,
        "transfer-encoding",
    ) || same_text(text, "upgrade")
}

/// A name among pairs has at least one value.
pub(crate) proof fn present_among(pairs: Seq<(Seq<char>, Seq<u8>)>, at: int)
    requires
        0 <= at < pairs.len(),
    ensures
        values_among(pairs, pairs[at].0).len() > 0,
    decreases pairs.len(),
{
    if at < pairs.len() - 1 {
        assert(pairs.drop_last()[at] == pairs[at]);
        present_among(pairs.drop_last(), at);
    }
}

/// Whether headers are others without those that concern one connection only.
pub open spec fn filters(filtered: Map<Seq<char>, Seq<Seq<u8>>>, lists: Map<Seq<char>, Seq<Seq<u8>>>) -> bool {
    &&& filtered.dom().subset_of(lists.dom())
    &&& forall|name: Seq<char>| #[trigger]
        values_under(filtered, name) == (if hop_by_hop(name) {
            Seq::empty()
        } else {
            values_under(lists, name)
        })
}

/// The headers without those that concern one connection only. This can fail
/// only where there are so many that they are not sure to fit.
pub fn keep_response_headers(headers: &HeaderMap) -> (outcome: Result<HeaderMap, ProxyError>)
    ensures
        match outcome {
            Ok(filtered) => filters(header_lists(filtered), header_lists(*headers)),
            Err(e) => e@ == ProxyProblem::TooManyHeaders && !has_room(header_lists(*headers), 1),
        },
{
    let pairs = header_entries(headers);
    let ghost all = header_pairs(pairs@);
    let ghost source = header_lists(*headers);
    let mut filtered = new_headers();
    let mut i: usize = 0;
    while i < pairs.len()
        invariant
            i <= pairs@.len(),
            all == header_pairs(pairs@),
            source == header_lists(*headers),
            forall|name: Seq<char>| #[trigger] values_among(all, name) == values_under(source, name),
            header_lists(filtered).dom().subset_of(source.dom()),
            forall|name: Seq<char>| #[trigger]
                values_under(header_lists(filtered), name) == (if hop_by_hop(name) {
                    Seq::empty()
                } else {
                    values_among(all.take(i as int), name)
                }),
        decreases pairs@.len() - i,
    {
        let ghost before = header_lists(filtered);
        let name = &pairs[i].0;
        let ghost text = name_text(*name);
        let ghost bytes = value_bytes(pairs@[i as int].1);
        proof {
            assert(all.take(i + 1).drop_last() =~= all.take(i as int));
            assert(all[i as int] == (text, bytes));
            present_among(all, i as int);
            if has_room(source, 1) {
                vstd::set_lib::lemma_len_subset(before.dom(), source.dom());
            }
        }
        if !is_hop_by_hop_header(name) {
            match append_header(&mut filtered, name.clone(), pairs[i].1.clone()) {
                Ok(_) => {},
                Err(_) => return Err(ProxyError::TooManyHeaders),
            }
            proof {
                assert(header_lists(filtered).dom() =~= before.dom().insert(text));
            }
        }
        proof {
            assert forall|n: Seq<char>| #[trigger]
                values_under(header_lists(filtered), n) == (if hop_by_hop(n) {
                    Seq::empty()
                } else {
                    values_among(all.take(i + 1), n)
                }) by {
                assert(values_under(before, n) == (if hop_by_hop(n) {
                    Seq::empty()
                } else {
                    values_among(all.take(i as int), n)
                }));
            }
        }
        i += 1;
    }
    proof {
        assert(all.take(all.len() as int) =~= all);
    }
    Ok(filtered)
}

/// The headers without those that concern one connection only, given that they
/// are sure to fit.
pub fn filter_response_headers(headers: &HeaderMap) -> (filtered: HeaderMap)
    requires
        has_room(header_lists(*headers), 1),
    ensures
        filters(header_lists(filtered), header_lists(*headers)),
{
    match keep_response_headers(headers) {
        Ok(filtered) => filtered,
        // They are sure to fit, so this is never reached.
        Err(_) => new_headers(),
    }
}

/// Gives a header one value, in place of those it had. This can fail only where
/// one more name is not sure to fit.
pub(crate) fn set_header(headers: &mut HeaderMap, name: &'static str, value: &'static str) -> (outcome: Result<
    (),
    ProxyError,
>)
    requires
        is_plain_name(name@),
        is_visible_text(value@),
    ensures
        match outcome {
            Ok(_) => header_lists(*final(headers)) == with_header(header_lists(*old(headers)), name@, value@),
            Err(e) => {
                &&& e@ == ProxyProblem::TooManyHeaders
                &&& !has_room(header_lists(*old(headers)), 1)
                &&& header_lists(*final(headers)) == header_lists(*old(headers))
            },
        },
{
    match insert_header(headers, HeaderName::from_static(name), HeaderValue::from_static(value)) {
        Ok(_) => Ok(()),
        Err(_) => Err(ProxyError::TooManyHeaders),
    }
}

/// Headers with one value for a name, in place of those it had.
pub open spec fn with_header(
    lists: Map<Seq<char>, Seq<Seq<u8>>>,
    name: Seq<char>,
    value: Seq<char>,
) -> Map<Seq<char>, Seq<Seq<u8>>> {
    lists.insert(name, seq![encode_utf8(value)])
}

/// The names of the headers that are put on responses can be header names.
proof fn response_header_names()
    ensures
        is_plain_name("strict-transport-security"@),
        is_plain_name("x-frame-options"@),
        is_plain_name("x-content-type-options"@),
        is_plain_name("access-control-allow-origin"@),
        is_plain_name("content-security-policy"@),
        is_plain_name("set-cookie"@),
{
    assert(is_plain_name("strict-transport-security"@)) by {
        reveal_strlit("strict-transport-security");
        reveal_with_fuel(holds_between, 7);
        assert(holds_between("strict-transport-security"@, 0, 25, |c: char| is_name_char(c)));
        holds_everywhere("strict-transport-security"@, 0, 25, |c: char| is_name_char(c));
    }
    assert(is_plain_name("x-frame-options"@)) by {
        reveal_strlit("x-frame-options");
        reveal_with_fuel(holds_between, 6);
        assert(holds_between("x-frame-options"@, 0, 15, |c: char| is_name_char(c)));
        holds_everywhere("x-frame-options"@, 0, 15, |c: char| is_name_char(c));
    }
    assert(is_plain_name("x-content-type-options"@)) by {
        reveal_strlit("x-content-type-options");
        reveal_with_fuel(holds_between, 7);
        assert(holds_between("x-content-type-options"@, 0, 22, |c: char| is_name_char(c)));
        holds_everywhere("x-content-type-options"@, 0, 22, |c: char| is_name_char(c));
    }
    assert(is_plain_name("access-control-allow-origin"@)) by {
        reveal_strlit("access-control-allow-origin");
        reveal_with_fuel(holds_between, 7);
        assert(holds_between("access-control-allow-origin"@, 0, 27, |c: char| is_name_char(c)));
        holds_everywhere("access-control-allow-origin"@, 0, 27, |c: char| is_name_char(c));
    }
    assert(is_plain_name("content-security-policy"@)) by {
        reveal_strlit("content-security-policy");
        reveal_with_fuel(holds_between, 7);
        assert(holds_between("content-security-policy"@, 0, 23, |c: char| is_name_char(c)));
        holds_everywhere("content-security-policy"@, 0, 23, |c: char| is_name_char(c));
    }
    assert(is_plain_name("set-cookie"@)) by {
        reveal_strlit("set-cookie");
        reveal_with_fuel(holds_between, 6);
        assert(holds_between("set-cookie"@, 0, 10, |c: char| is_name_char(c)));
        holds_everywhere("set-cookie"@, 0, 10, |c: char| is_name_char(c));
    }
}

/// The values of the headers that are put on responses can be header values.
proof fn response_header_values()
    ensures
        is_visible_text("max-age=31536000; includeSubDomains"@),
        is_visible_text("DENY"@),
        is_visible_text("nosniff"@),
        is_visible_text("https://waf.local"@),
        is_visible_text("default-src 'self'; frame-ancestors 'none'; form-action 'self'; script-src 'self' 'unsafe-inline'; style-src 'self' 'unsafe-inline';"@),
{
    assert(is_visible_text("max-age=31536000; includeSubDomains"@)) by {
        reveal_strlit("max-age=31536000; includeSubDomains");
        reveal_with_fuel(holds_between, 8);
        assert(holds_between("max-age=31536000; includeSubDomains"@, 0, 35, |c: char| is_visible(c)));
        holds_everywhere("max-age=31536000; includeSubDomains"@, 0, 35, |c: char| is_visible(c));
    }
    assert(is_visible_text("DENY"@)) by {
        reveal_strlit("DENY");
        reveal_with_fuel(holds_between, 4);
        assert(holds_between("DENY"@, 0, 4, |c: char| is_visible(c)));
        holds_everywhere("DENY"@, 0, 4, |c: char| is_visible(c));
    }
    assert(is_visible_text("nosniff"@)) by {
        reveal_strlit("nosniff");
        reveal_with_fuel(holds_between, 5);
        assert(holds_between("nosniff"@, 0, 7, |c: char| is_visible(c)));
        holds_everywhere("nosniff"@, 0, 7, |c: char| is_visible(c));
    }
    assert(is_visible_text("https://waf.local"@)) by {
        reveal_strlit("https://waf.local");
        reveal_with_fuel(holds_between, 7);
        assert(holds_between("https://waf.local"@, 0, 17, |c: char| is_visible(c)));
        holds_everywhere("https://waf.local"@, 0, 17, |c: char| is_visible(c));
    }
    assert(is_visible_text("default-src 'self'; frame-ancestors 'none'; form-action 'self'; script-src 'self' 'unsafe-inline'; style-src 'self' 'unsafe-inline';"@)) by {
        reveal_strlit("default-src 'self'; frame-ancestors 'none'; form-action 'self'; script-src 'self' 'unsafe-inline'; style-src 'self' 'unsafe-inline';");
        reveal_with_fuel(holds_between, 10);
        assert(holds_between("default-src 'self'; frame-ancestors 'none'; form-action 'self'; script-src 'self' 'unsafe-inline'; style-src 'self' 'unsafe-inline';"@, 0, 132, |c: char| is_visible(c)));
        holds_everywhere("default-src 'self'; frame-ancestors 'none'; form-action 'self'; script-src 'self' 'unsafe-inline'; style-src 'self' 'unsafe-inline';"@, 0, 132, |c: char| is_visible(c));
    }
}

/// A cookie with the attributes that it lacks: `Secure`, and `SameSite=Lax` if
/// it has no `SameSite` of its own.
pub open spec fn hardened_text(cookie: Seq<char>) -> Seq<char> {
    let lowered = ascii_lower(cookie);
    let secure = if has_part(lowered, "; secure"@) || ends_in(lowered, " secure"@) {
        cookie
    } else {
        cookie + "; Secure"@
    };
    if has_part(lowered, "; samesite="@) || ends_in(lowered, " samesite"@) {
        secure
    } else {
        secure + "; SameSite=Lax"@
    }
}

/// A cookie with the attributes that it lacks.
pub fn harden_cookie(cookie: &str) -> (hardened: String)
    ensures
        hardened@ == hardened_text(cookie@),
{
    let mut hardened = cookie.to_string();
    let lowered = lower_text(cookie);
    if !contains_text(lowered.as_str(), "; secure") && !ends_with_text(lowered.as_str(), " secure") {
        hardened.append("; Secure");
    }
    if !contains_text(lowered.as_str(), "; samesite=") && !ends_with_text(lowered.as_str(), " samesite") {
        hardened.append("; SameSite=Lax");
    }
    hardened
}

/// A visible cookie is still visible when it is hardened.
proof fn hardened_is_visible(cookie: Seq<char>)
    requires
        is_visible_text(cookie),
    ensures
        is_visible_text(hardened_text(cookie)),
        is_value_text(hardened_text(cookie)),
{
    assert(is_visible_text("; Secure"@)) by {
        reveal_strlit("; Secure");
        reveal_with_fuel(holds_between, 5);
        assert(holds_between("; Secure"@, 0, 8, |c: char| is_visible(c)));
        holds_everywhere("; Secure"@, 0, 8, |c: char| is_visible(c));
    }
    assert(is_visible_text("; SameSite=Lax"@)) by {
        reveal_strlit("; SameSite=Lax");
        reveal_with_fuel(holds_between, 6);
        assert(holds_between("; SameSite=Lax"@, 0, 14, |c: char| is_visible(c)));
        holds_everywhere("; SameSite=Lax"@, 0, 14, |c: char| is_visible(c));
    }
    let hardened = hardened_text(cookie);
    assert forall|i: int| 0 <= i < hardened.len() implies is_visible(#[trigger] hardened[i]) by {
        if i >= cookie.len() {
            let more = i - cookie.len();
            assert(hardened[i] == "; Secure"@[more] || hardened[i] == "; SameSite=Lax"@[more] || hardened[i]
                == "; SameSite=Lax"@[more - "; Secure"@.len()]);
        }
    }
}

/// The bytes of a hardened cookie. A value that is not visible ASCII is left as
/// it is.
pub open spec fn hardened_value(bytes: Seq<u8>) -> Seq<u8> {
    if is_visible_ascii(bytes) {
        encode_utf8(hardened_text(decode_utf8(bytes)))
    } else {
        bytes
    }
}

/// Headers with all cookies hardened.
pub open spec fn hardened_lists(lists: Map<Seq<char>, Seq<Seq<u8>>>) -> Map<Seq<char>, Seq<Seq<u8>>> {
    let cookies = values_under(lists, "set-cookie"@);
    if cookies.len() == 0 {
        lists
    } else {
        lists.insert("set-cookie"@, cookies.map_values(|b: Seq<u8>| hardened_value(b)))
    }
}

/// Hardens all cookies that a response sets. This can fail only where one more
/// name is not sure to fit, and may then have taken cookies out.
pub fn harden_set_cookie_headers(headers: &mut HeaderMap) -> (outcome: Result<(), ProxyError>)
    ensures
        match outcome {
            Ok(_) => header_lists(*final(headers)) == hardened_lists(header_lists(*old(headers))),
            Err(e) => {
                &&& e@ == ProxyProblem::TooManyHeaders
                &&& !has_room(header_lists(*old(headers)), 1)
                &&& on_the_way(
                    header_lists(*old(headers)),
                    hardened_lists(header_lists(*old(headers))),
                    header_lists(*final(headers)),
                )
            },
        },
{
    proof {
        response_header_names();
    }
    let name = HeaderName::from_static("set-cookie");
    let cookies = all_values(headers, &name);
    let ghost lists = header_lists(*headers);
    let ghost before = all_bytes(cookies@);
    let ghost after = before.map_values(|b: Seq<u8>| hardened_value(b));
    if cookies.len() == 0 {
        return Ok(());
    }
    let mut hardened: Vec<HeaderValue> = Vec::new();
    let mut i: usize = 0;
    while i < cookies.len()
        invariant
            i <= cookies@.len(),
            before == all_bytes(cookies@),
            after == before.map_values(|b: Seq<u8>| hardened_value(b)),
            all_bytes(hardened@) =~= after.take(i as int),
        decreases cookies@.len() - i,
    {
        let cookie = &cookies[i];
        let ghost done = all_bytes(hardened@);
        proof {
            assert(before[i as int] == value_bytes(*cookie));
        }
        match cookie.to_str() {
            Ok(text) => {
                let updated = harden_cookie(text);
                proof {
                    hardened_is_visible(text@);
                    encode_utf8_decode_utf8(text@);
                }
                match HeaderValue::from_str(updated.as_str()) {
                    Ok(value) => hardened.push(value),
                    Err(_) => return Err(ProxyError::InvalidCookie(updated)),
                }
            },
            Err(_) => hardened.push(cookie.clone()),
        }
        proof {
            assert(all_bytes(hardened@) =~= done.push(after[i as int]));
        }
        i += 1;
    }
    remove_header(headers, &name);
    let mut k: usize = 0;
    while k < hardened.len()
        invariant
            k <= hardened@.len(),
            name_text(name) == "set-cookie"@,
            hardened@.len() > 0,
            all_bytes(hardened@) == after,
            after.len() == hardened@.len(),
            after == values_under(lists, "set-cookie"@).map_values(|b: Seq<u8>| hardened_value(b)),
            lists == header_lists(*old(headers)),
            header_lists(*headers) == (if k == 0 {
                lists.remove("set-cookie"@)
            } else {
                lists.insert("set-cookie"@, after.take(k as int))
            }),
            lists.dom().contains("set-cookie"@),
        decreases hardened@.len() - k,
    {
        proof {
            assert(lists.insert("set-cookie"@, after.take(k as int)).dom() =~= lists.dom());
            assert(after.take(k + 1) =~= after.take(k as int).push(after[k as int]));
            assert(after.take(0) =~= Seq::<Seq<u8>>::empty());
        }
        match append_header(headers, name.clone(), hardened[k].clone()) {
            Ok(_) => {},
            Err(_) => {
                proof {
                    assert(values_under(header_lists(*headers), "set-cookie"@) =~= after.take(k as int));
                    assert(values_under(hardened_lists(lists), "set-cookie"@) == after);
                }
                return Err(ProxyError::TooManyHeaders);
            },
        }
        proof {
            assert(header_lists(*headers) =~= lists.insert("set-cookie"@, after.take(k + 1)));
        }
        k += 1;
    }
    proof {
        assert(after.take(after.len() as int) =~= after);
    }
    Ok(())
}

/// Headers with the first so many of those that make browsers careful.
pub open spec fn careful_lists(lists: Map<Seq<char>, Seq<Seq<u8>>>, count: int) -> Map<Seq<char>, Seq<Seq<u8>>> {
    let step1 = with_header(lists, "strict-transport-security"@, "max-age=31536000; includeSubDomains"@);
    let step2 = with_header(step1, "x-frame-options"@, "DENY"@);
    let step3 = with_header(step2, "x-content-type-options"@, "nosniff"@);
    let step4 = with_header(step3, "access-control-allow-origin"@, "https://waf.local"@);
    let step5 = with_header(step4, "content-security-policy"@, "default-src 'self'; frame-ancestors 'none'; form-action 'self'; script-src 'self' 'unsafe-inline'; style-src 'self' 'unsafe-inline';"@);
    if count <= 0 {
        lists
    } else if count == 1 {
        step1
    } else if count == 2 {
        step2
    } else if count == 3 {
        step3
    } else if count == 4 {
        step4
    } else {
        step5
    }
}

/// Headers with those that make browsers careful, and with all cookies
/// hardened.
pub open spec fn secured_lists(lists: Map<Seq<char>, Seq<Seq<u8>>>) -> Map<Seq<char>, Seq<Seq<u8>>> {
    hardened_lists(careful_lists(lists, 5))
}

/// Headers that have the first so many of those that make browsers careful are
/// on the way, and one more name fits if six more did at first.
proof fn careful_lists_are_on_the_way(lists: Map<Seq<char>, Seq<Seq<u8>>>, count: int)
    requires
        0 <= count <= 5,
    ensures
        on_the_way(lists, secured_lists(lists), careful_lists(lists, count)),
        has_room(lists, 6) ==> has_room(careful_lists(lists, count), 1),
{
    let now = careful_lists(lists, count);
    assert forall|name: Seq<char>| #[trigger]
        values_under(now, name) == values_under(lists, name) || values_under(now, name).is_prefix_of(
            values_under(secured_lists(lists), name),
        ) by {
        secured_values(lists, name);
        careful_names_differ();
    }
}

/// Puts the headers on a response that make browsers careful, and hardens its
/// cookies. This can fail only where six more names are not sure to fit, and may
/// then have changed some of these headers already.
pub fn inject_security_headers(headers: &mut HeaderMap) -> (outcome: Result<(), ProxyError>)
    ensures
        match outcome {
            Ok(_) => header_lists(*final(headers)) == secured_lists(header_lists(*old(headers))),
            Err(e) => {
                &&& e@ == ProxyProblem::TooManyHeaders
                &&& !has_room(header_lists(*old(headers)), 6)
                &&& on_the_way(
                    header_lists(*old(headers)),
                    secured_lists(header_lists(*old(headers))),
                    header_lists(*final(headers)),
                )
            },
        },
{
    let ghost lists = header_lists(*headers);
    proof {
        response_header_names();
        response_header_values();
        careful_lists_are_on_the_way(lists, 0);
    }
    match set_header(headers, "strict-transport-security", "max-age=31536000; includeSubDomains") {
        Ok(_) => {},
        Err(e) => return Err(e),
    }
    proof {
        careful_lists_are_on_the_way(lists, 1);
    }
    match set_header(headers, "x-frame-options", "DENY") {
        Ok(_) => {},
        Err(e) => return Err(e),
    }
    proof {
        careful_lists_are_on_the_way(lists, 2);
    }
    match set_header(headers, "x-content-type-options", "nosniff") {
        Ok(_) => {},
        Err(e) => return Err(e),
    }
    proof {
        careful_lists_are_on_the_way(lists, 3);
    }
    match set_header(headers, "access-control-allow-origin", "https://waf.local") {
        Ok(_) => {},
        Err(e) => return Err(e),
    }
    proof {
        careful_lists_are_on_the_way(lists, 4);
    }
    match set_header(headers, "content-security-policy", "default-src 'self'; frame-ancestors 'none'; form-action 'self'; script-src 'self' 'unsafe-inline'; style-src 'self' 'unsafe-inline';") {
        Ok(_) => {},
        Err(e) => return Err(e),
    }
    proof {
        careful_lists_are_on_the_way(lists, 5);
    }
    harden_set_cookie_headers(headers)
}

/// The value of a header that makes browsers careful.
pub open spec fn careful_value(name: Seq<char>) -> Option<Seq<char>> {
    if name == "strict-transport-security"@ {
        Some("max-age=31536000; includeSubDomains"@)
    } else if name == "x-frame-options"@ {
        Some("DENY"@)
    } else if name == "x-content-type-options"@ {
        Some("nosniff"@)
    } else if name == "access-control-allow-origin"@ {
        Some("https://waf.local"@)
    } else if name == "content-security-policy"@ {
        Some("default-src 'self'; frame-ancestors 'none'; form-action 'self'; script-src 'self' 'unsafe-inline'; style-src 'self' 'unsafe-inline';"@)
    } else {
        None
    }
}

/// The names of the headers that are put on responses differ, as their lengths
/// do.
proof fn careful_names_differ()
    ensures
        "strict-transport-security"@.len() == 25,
        "x-frame-options"@.len() == 15,
        "x-content-type-options"@.len() == 22,
        "access-control-allow-origin"@.len() == 27,
        "content-security-policy"@.len() == 23,
        "set-cookie"@.len() == 10,
{
    reveal_strlit("strict-transport-security");
    reveal_strlit("x-frame-options");
    reveal_strlit("x-content-type-options");
    reveal_strlit("access-control-allow-origin");
    reveal_strlit("content-security-policy");
    reveal_strlit("set-cookie");
}

/// What headers that have been secured hold under a name: the careful value, if
/// there is one; the cookies, hardened; and everything else as it was.
pub proof fn secured_values(lists: Map<Seq<char>, Seq<Seq<u8>>>, name: Seq<char>)
    ensures
        values_under(secured_lists(lists), name) == (match careful_value(name) {
            Some(value) => seq![encode_utf8(value)],
            None => if name == "set-cookie"@ {
                values_under(lists, name).map_values(|b: Seq<u8>| hardened_value(b))
            } else {
                values_under(lists, name)
            },
        }),
{
    careful_names_differ();
    let cookies = values_under(lists, "set-cookie"@);
    if cookies.len() == 0 {
        assert(cookies.map_values(|b: Seq<u8>| hardened_value(b)) =~= cookies);
    }
}

/// What stands in a text stands in it too when something follows.
proof fn part_stays(text: Seq<char>, more: Seq<char>, part: Seq<char>)
    requires
        has_part(text, part),
    ensures
        has_part(text + more, part),
{
    let at = choose|at: int| stands_at(text, part, at);
    assert((text + more).subrange(at, at + part.len()) =~= text.subrange(at, at + part.len()));
    assert(stands_at(text + more, part, at));
}

/// What is added to a text stands in it.
proof fn part_added(text: Seq<char>, part: Seq<char>, more: Seq<char>)
    ensures
        has_part(text + part + more, part),
        has_part(text + part, part),
{
    let whole = text + part + more;
    let at = text.len() as int;
    assert(whole.subrange(at, at + part.len()) =~= part);
    assert(stands_at(whole, part, at));
    assert((text + part).subrange(at, at + part.len()) =~= part);
    assert(stands_at(text + part, part, at));
}

/// The lower case of two texts in a row.
proof fn lower_of_two(a: Seq<char>, b: Seq<char>)
    ensures
        ascii_lower(a + b) == ascii_lower(a) + ascii_lower(b),
{
    assert(ascii_lower(a + b) =~= ascii_lower(a) + ascii_lower(b));
}

/// The lower case of the attributes that are added to cookies.
proof fn lower_of_attributes()
    ensures
        ascii_lower("; Secure"@) == "; secure"@,
        has_part(ascii_lower("; SameSite=Lax"@), "; samesite="@),
{
    reveal_strlit("; Secure");
    reveal_strlit("; secure");
    reveal_strlit("; SameSite=Lax");
    reveal_strlit("; samesite=");
    assert(ascii_lower("; Secure"@) =~= "; secure"@);
    let lowered = ascii_lower("; SameSite=Lax"@);
    assert(lowered.subrange(0, 11) =~= "; samesite="@);
    assert(stands_at(lowered, "; samesite="@, 0));
}

/// A hardened cookie begins with the cookie as it came. It says `Secure` and
/// `SameSite`, or the cookie as it came ended in one of these words.
pub proof fn hardened_cookie_has_attributes(cookie: Seq<char>)
    ensures
        cookie.len() <= hardened_text(cookie).len(),
        hardened_text(cookie).take(cookie.len() as int) == cookie,
        has_part(ascii_lower(hardened_text(cookie)), "; secure"@) || ends_in(ascii_lower(cookie), " secure"@),
        has_part(ascii_lower(hardened_text(cookie)), "; samesite="@) || ends_in(ascii_lower(cookie), " samesite"@),
{
    let lowered = ascii_lower(cookie);
    let hardened = hardened_text(cookie);
    let s = "; Secure"@;
    let x = "; SameSite=Lax"@;
    lower_of_attributes();
    lower_of_two(cookie, s);
    lower_of_two(cookie, x);
    lower_of_two(cookie + s, x);
    part_added(lowered, "; secure"@, ascii_lower(x));
    if has_part(lowered, "; secure"@) {
        part_stays(lowered, ascii_lower(x), "; secure"@);
    }
    if has_part(lowered, "; samesite="@) {
        part_stays(lowered, ascii_lower(s), "; samesite="@);
    }
    let inner = choose|at: int| stands_at(ascii_lower(x), "; samesite="@, at);
    assert forall|front: Seq<char>| has_part(#[trigger] (front + ascii_lower(x)), "; samesite="@) by {
        let whole = front + ascii_lower(x);
        let at = front.len() + inner;
        assert(whole.subrange(at, at + "; samesite="@.len()) =~= ascii_lower(x).subrange(
            inner,
            inner + "; samesite="@.len(),
        ));
        assert(stands_at(whole, "; samesite="@, at));
    }
    assert(hardened.take(cookie.len() as int) =~= cookie);
}

/// Hardening a cookie twice is hardening it once. This leaves out cookies that
/// end in the bare words `secure` or `samesite` without having the attribute:
/// what is added behind the word hides it.
pub proof fn hardening_is_settled(cookie: Seq<char>)
    requires
        ends_in(ascii_lower(cookie), " secure"@) ==> has_part(ascii_lower(cookie), "; secure"@),
        ends_in(ascii_lower(cookie), " samesite"@) ==> has_part(ascii_lower(cookie), "; samesite="@),
    ensures
        hardened_text(hardened_text(cookie)) == hardened_text(cookie),
{
    hardened_cookie_has_attributes(cookie);
    let lowered = ascii_lower(cookie);
    let hardened = hardened_text(cookie);
    let rest = hardened.skip(cookie.len() as int);
    assert(hardened =~= cookie + rest);
    lower_of_two(cookie, rest);
    if has_part(lowered, "; secure"@) {
        part_stays(lowered, ascii_lower(rest), "; secure"@);
    }
    if has_part(lowered, "; samesite="@) {
        part_stays(lowered, ascii_lower(rest), "; samesite="@);
    }
}

/// None of the headers that make browsers careful concerns one connection only.
pub proof fn careful_headers_are_passed_on(name: Seq<char>)
    requires
        careful_value(name) is Some,
    ensures
        !hop_by_hop(name),
{
    reveal_strlit("strict-transport-security");
    reveal_strlit("x-frame-options");
    reveal_strlit("x-content-type-options");
    reveal_strlit("access-control-allow-origin");
    reveal_strlit("content-security-policy");
    reveal_strlit("connection");
    reveal_strlit("keep-alive");
    reveal_strlit("proxy-authenticate");
    reveal_strlit("proxy-authorization");
    reveal_strlit("te");
    reveal_strlit("trailer");
    reveal_strlit("transfer-encoding");
    reveal_strlit("upgrade");
    assert("connection"@.len() == 10);
    assert("keep-alive"@.len() == 10);
    assert("proxy-authenticate"@.len() == 18);
    assert("proxy-authorization"@.len() == 19);
    assert("te"@.len() == 2);
    assert("trailer"@.len() == 7);
    assert("transfer-encoding"@.len() == 17);
    assert("upgrade"@.len() == 7);
    assert("strict-transport-security"@.len() == 25);
    assert("x-frame-options"@.len() == 15);
    assert("x-content-type-options"@.len() == 22);
    assert("access-control-allow-origin"@.len() == 27);
    assert("content-security-policy"@.len() == 23);
    assert(ascii_lower(name).len() == name.len());
}

} // verus!
