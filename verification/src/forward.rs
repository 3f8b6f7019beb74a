//! Passing a request on to the server behind the proxy.
use crate::headers::{
    first_value, has_room, header_entries, header_lists, header_pairs, holds_between,
    holds_everywhere, insert_header, is_name_char, is_plain_name, is_value_text, is_visible, is_visible_ascii,
    is_visible_text, name_text, new_headers, value_bytes, values_among, values_under,
};
use crate::outside::{url_host, url_joined, url_parsed, url_place, url_text};
use crate::proxy::{
    careful_headers_are_passed_on, careful_value, hardened_value, hop_by_hop, inject_security_headers,
    is_hop_by_hop_header, keep_response_headers, present_among, secured_values, set_header, with_header,
    ProxyError, ProxyProblem,
};
use crate::text::{ascii_lower, chars_of, same_text, text_between};
use axum::http::header::HeaderName;
use axum::http::{HeaderMap, HeaderValue};
use vstd::prelude::*;
use vstd::utf8::*;

verus! {

/// The names of the headers that are put on forwarded requests can be header
/// names.
proof fn forward_header_names()
    ensures
        is_plain_name("host"@),
        is_plain_name("x-forwarded-proto"@),
        is_plain_name("x-forwarded-host"@),
        is_plain_name("x-forwarded-for"@),
        is_visible_text("https"@),
{
    assert(is_plain_name("host"@)) by {
        reveal_strlit("host");
        reveal_with_fuel(holds_between, 4);
        assert(holds_between("host"@, 0, 4, |c: char| is_name_char(c)));
        holds_everywhere("host"@, 0, 4, |c: char| is_name_char(c));
    }
    assert(is_plain_name("x-forwarded-proto"@)) by {
        reveal_strlit("x-forwarded-proto");
        reveal_with_fuel(holds_between, 7);
        assert(holds_between("x-forwarded-proto"@, 0, 17, |c: char| is_name_char(c)));
        holds_everywhere("x-forwarded-proto"@, 0, 17, |c: char| is_name_char(c));
    }
    assert(is_plain_name("x-forwarded-host"@)) by {
        reveal_strlit("x-forwarded-host");
        reveal_with_fuel(holds_between, 6);
        assert(holds_between("x-forwarded-host"@, 0, 16, |c: char| is_name_char(c)));
        holds_everywhere("x-forwarded-host"@, 0, 16, |c: char| is_name_char(c));
    }
    assert(is_plain_name("x-forwarded-for"@)) by {
        reveal_strlit("x-forwarded-for");
        reveal_with_fuel(holds_between, 6);
        assert(holds_between("x-forwarded-for"@, 0, 15, |c: char| is_name_char(c)));
        holds_everywhere("x-forwarded-for"@, 0, 15, |c: char| is_name_char(c));
    }
    assert(is_visible_text("https"@)) by {
        reveal_strlit("https");
        reveal_with_fuel(holds_between, 5);
        assert(holds_between("https"@, 0, 5, |c: char| is_visible(c)));
        holds_everywhere("https"@, 0, 5, |c: char| is_visible(c));
    }
}

/// The names of the headers that are put on forwarded requests are different,
/// and none of them concerns one connection only.
proof fn forward_headers_differ()
    ensures
        "x-forwarded-proto"@ != "x-forwarded-host"@,
        "x-forwarded-proto"@ != "x-forwarded-for"@,
        "x-forwarded-host"@ != "x-forwarded-for"@,
        !hop_by_hop("x-forwarded-for"@),
        "x-forwarded-for"@ != "host"@,
{
    reveal_strlit("x-forwarded-proto");
    reveal_strlit("x-forwarded-host");
    reveal_strlit("x-forwarded-for");
    reveal_strlit("host");
    reveal_strlit("connection");
    reveal_strlit("keep-alive");
    reveal_strlit("proxy-authenticate");
    reveal_strlit("proxy-authorization");
    reveal_strlit("te");
    reveal_strlit("trailer");
    reveal_strlit("transfer-encoding");
    reveal_strlit("upgrade");
    assert("x-forwarded-proto"@.len() == 17);
    assert("x-forwarded-host"@.len() == 16);
    assert(ascii_lower("x-forwarded-for"@).len() == 15);
}

/// The last of some values, if there is one.
pub open spec fn last_only(values: Seq<Seq<u8>>) -> Seq<Seq<u8>> {
    if values.len() == 0 {
        values
    } else {
        seq![values.last()]
    }
}

/// The value of `X-Forwarded-For` behind one more address, given the value
/// before. A value that is not visible ASCII counts as an empty one.
pub open spec fn forwarded_chain(before: Option<Seq<u8>>, source_ip: Seq<char>) -> Seq<char> {
    match before {
        Some(bytes) => (if is_visible_ascii(bytes) {
            decode_utf8(bytes)
        } else {
            Seq::empty()
        }) + ", "@ + source_ip,
        None => source_ip,
    }
}

/// The first of some values, if there is one.
pub open spec fn first_of(values: Seq<Seq<u8>>) -> Option<Seq<u8>> {
    if values.len() == 0 {
        None
    } else {
        Some(values[0])
    }
}

/// Adds an address to `X-Forwarded-For`. This fails if the address, or what is
/// there already, has a control character in it. Else it can fail only where one
/// more name is not sure to fit.
pub fn append_forwarded_for(headers: &mut HeaderMap, source_ip: &str) -> (outcome: Result<(), ProxyError>)
    ensures
        ({
            let before = first_of(values_under(header_lists(*old(headers)), "x-forwarded-for"@));
            let chain = forwarded_chain(before, source_ip@);
            match outcome {
                Ok(_) => is_value_text(chain) && header_lists(*final(headers)) == with_header(
                    header_lists(*old(headers)),
                    "x-forwarded-for"@,
                    chain,
                ),
                Err(e) => {
                    &&& header_lists(*final(headers)) == header_lists(*old(headers))
                    &&& if is_value_text(chain) {
                        e@ == ProxyProblem::TooManyHeaders && !has_room(header_lists(*old(headers)), 1)
                    } else {
                        e@ == ProxyProblem::InvalidForwardedFor(chain)
                    }
                },
            }
        }),
{
    proof {
        forward_header_names();
    }
    let name = HeaderName::from_static("x-forwarded-for");
    let chain = match first_value(headers, &name) {
        Some(current) => {
            let mut chain = match current.to_str() {
                Ok(text) => {
                    proof {
                        encode_utf8_decode_utf8(text@);
                    }
                    text.to_string()
                },
                Err(_) => String::new(),
            };
            chain.append(", ");
            chain.append(source_ip);
            chain
        },
        None => source_ip.to_string(),
    };
    match HeaderValue::from_str(chain.as_str()) {
        Ok(value) => match insert_header(headers, name, value) {
            Ok(_) => Ok(()),
            Err(_) => Err(ProxyError::TooManyHeaders),
        },
        Err(_) => Err(ProxyError::InvalidForwardedFor(chain)),
    }
}

/// The authority of a request's URI, or the proxy's own where it has none.
pub open spec fn forwarded_host(authority: Option<Seq<char>>) -> Seq<char> {
    match authority {
        Some(a) => a,
        None => "waf.local"@,
    }
}

/// What is forwarded under a name: the last value that the request has under
/// it, unless the header concerns one connection only or is the host.
pub open spec fn passed_on(lists: Map<Seq<char>, Seq<Seq<u8>>>, name: Seq<char>) -> Seq<Seq<u8>> {
    if hop_by_hop(name) || name == "host"@ {
        Seq::empty()
    } else {
        last_only(values_under(lists, name))
    }
}

/// The addresses that a request has come from, its sender's the last.
pub open spec fn request_chain(lists: Map<Seq<char>, Seq<Seq<u8>>>, source_ip: Seq<char>) -> Seq<char> {
    forwarded_chain(first_of(passed_on(lists, "x-forwarded-for"@)), source_ip)
}

/// What a forwarded request has under a name.
pub open spec fn forwarded_values(
    lists: Map<Seq<char>, Seq<Seq<u8>>>,
    authority: Option<Seq<char>>,
    source_ip: Seq<char>,
    name: Seq<char>,
) -> Seq<Seq<u8>> {
    if name == "x-forwarded-proto"@ {
        seq![encode_utf8("https"@)]
    } else if name == "x-forwarded-host"@ {
        seq![encode_utf8(forwarded_host(authority))]
    } else if name == "x-forwarded-for"@ {
        seq![encode_utf8(request_chain(lists, source_ip))]
    } else {
        passed_on(lists, name)
    }
}

/// The first thing that keeps a request's headers from being forwarded.
pub open spec fn forward_problem(
    lists: Map<Seq<char>, Seq<Seq<u8>>>,
    authority: Option<Seq<char>>,
    source_ip: Seq<char>,
) -> Option<ProxyProblem> {
    if !is_value_text(forwarded_host(authority)) {
        Some(ProxyProblem::InvalidForwardedHost)
    } else if !is_value_text(request_chain(lists, source_ip)) {
        Some(ProxyProblem::InvalidForwardedFor(request_chain(lists, source_ip)))
    } else {
        None
    }
}

/// The text in an optional slice, if it is there.
pub open spec fn opt_str(text: Option<&str>) -> Option<Seq<char>> {
    match text {
        Some(t) => Some(t@),
        None => None,
    }
}

/// The headers that are passed on, each with its last value. This can fail only
/// where there are so many that they are not sure to fit.
fn copy_headers(headers: &HeaderMap) -> (outcome: Result<HeaderMap, ProxyError>)
    ensures
        match outcome {
            Ok(copied) => {
                &&& header_lists(copied).dom().subset_of(header_lists(*headers).dom())
                &&& forall|name: Seq<char>| #[trigger]
                    values_under(header_lists(copied), name) == passed_on(header_lists(*headers), name)
            },
            Err(e) => e@ == ProxyProblem::TooManyHeaders && !has_room(header_lists(*headers), 1),
        },
{
    let pairs = header_entries(headers);
    let ghost all = header_pairs(pairs@);
    let ghost source = header_lists(*headers);
    let mut copied = new_headers();
    let mut i: usize = 0;
    while i < pairs.len()
        invariant
            i <= pairs@.len(),
            all == header_pairs(pairs@),
            source == header_lists(*headers),
            forall|name: Seq<char>| #[trigger] values_among(all, name) == values_under(source, name),
            header_lists(copied).dom().subset_of(source.dom()),
            forall|name: Seq<char>| #[trigger]
                values_under(header_lists(copied), name) == (if hop_by_hop(name) || name == "host"@ {
                    Seq::empty()
                } else {
                    last_only(values_among(all.take(i as int), name))
                }),
        decreases pairs@.len() - i,
    {
        let ghost before = header_lists(copied);
        let name = &pairs[i].0;
        let ghost text = name_text(*name);
        let ghost bytes = value_bytes(pairs@[i as int].1);
        proof {
            assert(all.take(i + 1).drop_last() =~= all.take(i as int));
            assert(all[i as int] == (text, bytes));
            present_among(all, i as int);
            if has_room(source, 1) {
                vstd::set_lib::lemma_len_subset(before.dom(), source.dom());
            }
        }
        if !is_hop_by_hop_header(name) && !same_text(name.as_str(), "host") {
            match insert_header(&mut copied, name.clone(), pairs[i].1.clone()) {
                Ok(_) => {},
                Err(_) => return Err(ProxyError::TooManyHeaders),
            }
            proof {
                assert(header_lists(copied).dom() =~= before.dom().insert(text));
            }
        }
        proof {
            assert forall|n: Seq<char>| #[trigger]
                values_under(header_lists(copied), n) == (if hop_by_hop(n) || n == "host"@ {
                    Seq::empty()
                } else {
                    last_only(values_among(all.take(i + 1), n))
                }) by {
                assert(values_under(before, n) == (if hop_by_hop(n) || n == "host"@ {
                    Seq::empty()
                } else {
                    last_only(values_among(all.take(i as int), n))
                }));
            }
        }
        i += 1;
    }
    proof {
        assert(all.take(all.len() as int) =~= all);
        assert forall|n: Seq<char>| #[trigger] values_under(header_lists(copied), n) == passed_on(source, n) by {
            assert(values_among(all, n) == values_under(source, n));
        }
    }
    Ok(copied)
}

/// The headers with which a request is forwarded, given the authority of its
/// URI and the address of its sender. There can be too many only where three
/// more names are not sure to fit.
pub fn build_forward_headers(headers: &HeaderMap, authority: Option<&str>, source_ip: &str) -> (outcome: Result<
    HeaderMap,
    ProxyError,
>)
    ensures
        match outcome {
            Ok(forwarded) => {
                &&& forward_problem(header_lists(*headers), opt_str(authority), source_ip@) is None
                &&& forall|name: Seq<char>| #[trigger]
                    values_under(header_lists(forwarded), name) == forwarded_values(
                        header_lists(*headers),
                        opt_str(authority),
                        source_ip@,
                        name,
                    )
            },
            Err(e) => if e@ == ProxyProblem::TooManyHeaders {
                !has_room(header_lists(*headers), 3)
            } else {
                forward_problem(header_lists(*headers), opt_str(authority), source_ip@) == Some(e@)
            },
        },
{
    let mut forwarded = match copy_headers(headers) {
        Ok(copied) => copied,
        Err(e) => return Err(e),
    };
    let ghost lists = header_lists(*headers);
    let ghost copied = header_lists(forwarded);
    proof {
        forward_header_names();
        forward_headers_differ();
        if has_room(lists, 3) {
            vstd::set_lib::lemma_len_subset(copied.dom(), lists.dom());
        }
    }
    match set_header(&mut forwarded, "x-forwarded-proto", "https") {
        Ok(_) => {},
        Err(e) => return Err(e),
    }
    let host = match authority {
        Some(a) => a,
        None => "waf.local",
    };
    match HeaderValue::from_str(host) {
        Ok(value) => match insert_header(&mut forwarded, HeaderName::from_static("x-forwarded-host"), value) {
            Ok(_) => {},
            Err(_) => return Err(ProxyError::TooManyHeaders),
        },
        Err(_) => return Err(ProxyError::InvalidForwardedHost),
    }
    proof {
        assert(values_under(header_lists(forwarded), "x-forwarded-for"@) == values_under(copied, "x-forwarded-for"@));
    }
    match append_forwarded_for(&mut forwarded, source_ip) {
        Ok(_) => {},
        Err(e) => return Err(e),
    }
    proof {
        assert forall|name: Seq<char>| #[trigger]
            values_under(header_lists(forwarded), name) == forwarded_values(
                lists,
                opt_str(authority),
                source_ip@,
                name,
            ) by {
            assert(values_under(copied, name) == passed_on(lists, name));
        }
    }
    Ok(forwarded)
}

/// A text without the slashes that it begins with.
pub open spec fn without_leading_slashes(text: Seq<char>) -> Seq<char>
    decreases text.len(),
{
    if text.len() > 0 && text[0] == '/' {
        without_leading_slashes(text.drop_first())
    } else {
        text
    }
}

/// A text without the slashes that it begins with.
fn trim_leading_slashes(text: &str) -> (trimmed: String)
    ensures
        trimmed@ == without_leading_slashes(text@),
{
    let chars = chars_of(text);
    let total: usize = chars.len();
    let mut from: usize = 0;
    proof {
        assert(chars@.skip(0) =~= chars@);
    }
    while from < total && chars[from] == '/'
        invariant
            from <= total,
            total == chars@.len(),
            without_leading_slashes(chars@) == without_leading_slashes(chars@.skip(from as int)),
        decreases total - from,
    {
        proof {
            assert(chars@.skip(from as int).drop_first() =~= chars@.skip(from + 1));
        }
        from += 1;
    }
    let trimmed = text_between(&chars, from, total);
    proof {
        assert(chars@.subrange(from as int, total as int) =~= chars@.skip(from as int));
    }
    trimmed
}

/// What a request asks for, as a reference to resolve against the target.
pub open spec fn upstream_reference(path_and_query: Option<Seq<char>>) -> Seq<char> {
    match path_and_query {
        Some(text) => text,
        None => "/"@,
    }
}

/// A reference that is taken as a path below the target, whatever it looks like.
pub open spec fn below_target(reference: Seq<char>) -> Seq<char> {
    "./"@ + without_leading_slashes(reference)
}

/// Where a request is forwarded to, given the target. A reference that would
/// lead away from the target's scheme, host and port is taken as a path below
/// the target.
pub open spec fn upstream_from(base: Seq<char>, path_and_query: Option<Seq<char>>) -> Result<Seq<char>, ProxyProblem> {
    let reference = upstream_reference(path_and_query);
    match url_joined(base, without_leading_slashes(reference)) {
        Some(url) => if url_place(url) == url_place(base) {
            Ok(url)
        } else {
            match url_joined(base, below_target(reference)) {
                Some(below) => if url_place(below) == url_place(base) {
                    Ok(below)
                } else {
                    Err(ProxyProblem::InvalidUpstreamUrl(reference))
                },
                None => Err(ProxyProblem::InvalidUpstreamUrl(reference)),
            }
        },
        None => Err(ProxyProblem::InvalidUpstreamUrl(reference)),
    }
}

/// Whether two URLs have the same scheme, host and port.
fn same_place(a: &url::Url, b: &url::Url) -> (same: bool)
    ensures
        same == (url_place(url_text(*a)) == url_place(url_text(*b))),
{
    let same_host = match (a.host_str(), b.host_str()) {
        (Some(x), Some(y)) => same_text(x, y),
        (None, None) => true,
        _ => false,
    };
    let same_port = match (a.port_or_known_default(), b.port_or_known_default()) {
        (Some(x), Some(y)) => x == y,
        (None, None) => true,
        _ => false,
    };
    same_text(a.scheme(), b.scheme()) && same_host && same_port
}

/// What a URL or an error comes to.
pub open spec fn url_outcome(outcome: Result<url::Url, ProxyError>) -> Result<Seq<char>, ProxyProblem> {
    match outcome {
        Ok(url) => Ok(url_text(url)),
        Err(e) => Err(e@),
    }
}

/// Where a request is forwarded to, given the target.
pub fn build_upstream_url(target_base_url: &url::Url, path_and_query: Option<&str>) -> (outcome: Result<
    url::Url,
    ProxyError,
>)
    ensures
        url_outcome(outcome) == upstream_from(url_text(*target_base_url), opt_str(path_and_query)),
        outcome matches Ok(url) ==> url_place(url_text(url)) == url_place(url_text(*target_base_url)),
        ({
            let base = url_text(*target_base_url);
            let reference = upstream_reference(opt_str(path_and_query));
            outcome is Err && url_host(base) is Some ==> url_joined(base, without_leading_slashes(reference)) is None
                || url_joined(base, below_target(reference)) is None
        }),
{
    let reference = match path_and_query {
        Some(text) => text,
        None => "/",
    };
    let trimmed = trim_leading_slashes(reference);
    match target_base_url.join(trimmed.as_str()) {
        Ok(url) => {
            if same_place(&url, target_base_url) {
                return Ok(url);
            }
        },
        Err(_) => return Err(ProxyError::InvalidUpstreamUrl(reference.to_string())),
    }
    let mut below = "./".to_string();
    below.append(trimmed.as_str());
    proof {
        assert(below@.subrange(0, "./"@.len() as int) =~= "./"@);
    }
    match target_base_url.join(below.as_str()) {
        Ok(url) => if same_place(&url, target_base_url) {
            Ok(url)
        } else {
            Err(ProxyError::InvalidUpstreamUrl(reference.to_string()))
        },
        Err(_) => Err(ProxyError::InvalidUpstreamUrl(reference.to_string())),
    }
}

/// Where a request is forwarded to, given the configured target.
pub open spec fn upstream_of(target_url: Seq<char>, path_and_query: Option<Seq<char>>) -> Result<
    Seq<char>,
    ProxyProblem,
> {
    match url_parsed(target_url) {
        Some(base) => upstream_from(base, path_and_query),
        None => Err(ProxyProblem::InvalidTargetUrl(target_url)),
    }
}

/// Where a request is forwarded to, given the configured target.
pub fn upstream_url(target_url: &str, path_and_query: Option<&str>) -> (outcome: Result<url::Url, ProxyError>)
    ensures
        url_outcome(outcome) == upstream_of(target_url@, opt_str(path_and_query)),
{
    match url::Url::parse(target_url) {
        Ok(base) => build_upstream_url(&base, path_and_query),
        Err(_) => Err(ProxyError::InvalidTargetUrl(target_url.to_string())),
    }
}

/// Whatever a request asks for, where it is forwarded to has the scheme, host
/// and port of the configured target.
pub proof fn forwarding_keeps_to_the_target(target_url: Seq<char>, path_and_query: Option<Seq<char>>)
    ensures
        upstream_of(target_url, path_and_query) matches Ok(url) ==> {
            &&& url_parsed(target_url) matches Some(base)
            &&& url_place(url) == url_place(base)
        },
{
}

/// What a response that is passed back has under a name: the value that makes
/// browsers careful, if there is one; no header that concerns one connection
/// only; the cookies, hardened; and everything else as it came.
pub open spec fn response_values(lists: Map<Seq<char>, Seq<Seq<u8>>>, name: Seq<char>) -> Seq<Seq<u8>> {
    match careful_value(name) {
        Some(value) => seq![encode_utf8(value)],
        None => if hop_by_hop(name) {
            Seq::empty()
        } else if name == "set-cookie"@ {
            values_under(lists, name).map_values(|b: Seq<u8>| hardened_value(b))
        } else {
            values_under(lists, name)
        },
    }
}

/// The headers with which a response is passed back. There can be too many only
/// where six more names are not sure to fit.
pub fn response_headers(headers: &HeaderMap) -> (outcome: Result<HeaderMap, ProxyError>)
    ensures
        match outcome {
            Ok(passed) => forall|name: Seq<char>| #[trigger]
                values_under(header_lists(passed), name) == response_values(header_lists(*headers), name),
            Err(e) => !has_room(header_lists(*headers), 6) && e@ == ProxyProblem::TooManyHeaders,
        },
{
    let mut filtered = match keep_response_headers(headers) {
        Ok(kept) => kept,
        Err(e) => return Err(e),
    };
    let ghost kept = header_lists(filtered);
    proof {
        if has_room(header_lists(*headers), 6) {
            vstd::set_lib::lemma_len_subset(kept.dom(), header_lists(*headers).dom());
        }
    }
    match inject_security_headers(&mut filtered) {
        Ok(_) => {},
        Err(e) => return Err(e),
    }
    proof {
        assert forall|name: Seq<char>| #[trigger]
            values_under(header_lists(filtered), name) == response_values(header_lists(*headers), name) by {
            secured_values(kept, name);
            assert(values_under(kept, name) == (if hop_by_hop(name) {
                Seq::empty()
            } else {
                values_under(header_lists(*headers), name)
            }));
            if hop_by_hop(name) {
                assert(values_under(kept, name).map_values(|b: Seq<u8>| hardened_value(b)) =~= Seq::empty());
            }
        }
    }
    Ok(filtered)
}

/// A forwarded request has no header that concerns one connection only, and not
/// the host that it was sent to. It says where it came from in exactly one
/// value each.
pub proof fn forwarded_request_is_marked(
    lists: Map<Seq<char>, Seq<Seq<u8>>>,
    authority: Option<Seq<char>>,
    source_ip: Seq<char>,
    name: Seq<char>,
)
    ensures
        hop_by_hop(name) || name == "host"@ ==> forwarded_values(lists, authority, source_ip, name).len() == 0,
        forwarded_values(lists, authority, source_ip, "x-forwarded-proto"@) == seq![encode_utf8("https"@)],
        forwarded_values(lists, authority, source_ip, "x-forwarded-host"@) == seq![
            encode_utf8(forwarded_host(authority)),
        ],
        forwarded_values(lists, authority, source_ip, "x-forwarded-for"@) == seq![
            encode_utf8(request_chain(lists, source_ip)),
        ],
        forwarded_values(lists, authority, source_ip, name).len() <= 1,
{
    forward_headers_differ();
    proto_and_host_are_passed_on();
}

/// Neither the protocol nor the host that a request was sent to concerns one
/// connection only.
proof fn proto_and_host_are_passed_on()
    ensures
        !hop_by_hop("x-forwarded-proto"@),
        !hop_by_hop("x-forwarded-host"@),
        "x-forwarded-proto"@ != "host"@,
        "x-forwarded-host"@ != "host"@,
{
    reveal_strlit("x-forwarded-proto");
    reveal_strlit("x-forwarded-host");
    reveal_strlit("host");
    reveal_strlit("connection");
    reveal_strlit("keep-alive");
    reveal_strlit("proxy-authenticate");
    reveal_strlit("proxy-authorization");
    reveal_strlit("te");
    reveal_strlit("trailer");
    reveal_strlit("transfer-encoding");
    reveal_strlit("upgrade");
    assert("x-forwarded-proto"@.len() == 17);
    assert("x-forwarded-host"@.len() == 16);
    assert("host"@.len() == 4);
    assert(ascii_lower("x-forwarded-proto"@)[0] == 'x');
    assert("transfer-encoding"@[0] == 't');
    assert("connection"@.len() == 10);
    assert("keep-alive"@.len() == 10);
    assert("proxy-authenticate"@.len() == 18);
    assert("proxy-authorization"@.len() == 19);
    assert("te"@.len() == 2);
    assert("trailer"@.len() == 7);
    assert("upgrade"@.len() == 7);
    assert("transfer-encoding"@.len() == 17);
    assert(ascii_lower("x-forwarded-host"@).len() == 16);
}

/// A response that is passed back has no header that concerns one connection
/// only, and all those that make browsers careful.
pub proof fn passed_response_is_secured(lists: Map<Seq<char>, Seq<Seq<u8>>>, name: Seq<char>)
    ensures
        hop_by_hop(name) ==> response_values(lists, name).len() == 0,
        careful_value(name) matches Some(value) ==> response_values(lists, name) == seq![encode_utf8(value)],
{
    if careful_value(name) is Some {
        careful_headers_are_passed_on(name);
    }
}

} // verus!
