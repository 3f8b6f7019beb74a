//! Holding a request against the limits of the endpoint that it is for.
use crate::models::{
    AnalysisDecision, AnalysisRequest, DecisionAction, DecisionReason, DecisionView, EndpointPolicy,
    GlobalDefaults, RequestView, SecurityPolicies,
};
use crate::models::{decision_view, header_texts};
use crate::normalize::{
    count_query_params, headers_form, method_form, name_form, normalize_header_name, normalize_headers,
    normalize_method, param_count,
};
use crate::number::{decimal, decimal_text};
use crate::text::same_text;
use crate::text_map::{lookup, lookup_commutes, TextMap};
use crate::words::texts;
use vstd::prelude::*;
use vstd::utf8::*;

verus! {

/// The texts, one behind the other.
pub(crate) fn phrase(a: &str, b: &str, c: &str, d: &str, e: &str) -> (text: String)
    ensures
        text@ == a@ + b@ + c@ + d@ + e@,
{
    let mut text = a.to_string();
    text.append(b);
    text.append(c);
    text.append(d);
    text.append(e);
    text
}

/// The policy of the endpoint with this path, if there is one.
pub fn find_endpoint_policy<'a>(policies: &'a SecurityPolicies, path: &str) -> (policy: Option<&'a EndpointPolicy>)
    ensures
        match policy {
            Some(p) => lookup(policies.endpoints@, path@) == Some(*p),
            None => lookup(policies.endpoints@, path@) is None,
        },
{
    policies.endpoints.get(path)
}

/// Whether a header is let through without being listed.
pub open spec fn implicit_header(name: Seq<char>) -> bool {
    ||| name == "host"@
    ||| name == "connection"@
    ||| name == "content-length"@
    ||| name == "upgrade"@
    ||| name == "priority"@
    ||| name == "sec-websocket-key"@
    ||| name == "sec-websocket-version"@
    ||| name == "sec-websocket-extensions"@
}

/// Whether a header is let through without being listed.
pub fn is_implicit_allowed_header(name: &str) -> (b: bool)
    ensures
        b == implicit_header(name@),
{
    same_text(name, "host") || same_text(name, "connection") || same_text(name, "content-length") || same_text(
        name,
        "upgrade",
    ) || same_text(name, "priority") || same_text(name, "sec-websocket-key") || same_text(
        name,
        "sec-websocket-version",
    ) || same_text(name, "sec-websocket-extensions")
}

/// The methods that an endpoint takes: its own, or the general ones if it has
/// none of its own.
pub open spec fn effective_methods(defaults: GlobalDefaults, policy: EndpointPolicy) -> Seq<Seq<char>> {
    if policy.allowed_methods@.len() == 0 {
        texts(defaults.allowed_methods@)
    } else {
        texts(policy.allowed_methods@)
    }
}

/// The headers that an endpoint takes: the general ones and its own.
pub open spec fn effective_headers(defaults: GlobalDefaults, policy: EndpointPolicy) -> Seq<Seq<char>> {
    texts(defaults.allowed_headers@) + texts(policy.allowed_headers@)
}

/// The size in KB that the body may have: the endpoint's own limit, or the
/// general one if it has none.
pub open spec fn effective_body_limit(defaults: GlobalDefaults, policy: EndpointPolicy) -> u64 {
    match policy.max_body_size_kb {
        Some(kb) => kb,
        None => defaults.max_body_size_kb,
    }
}

/// Whether a list of methods holds a method, in any case and with any white
/// space around it.
pub open spec fn lists_method(methods: Seq<Seq<char>>, method: Seq<char>) -> bool {
    exists|i: int| 0 <= i < methods.len() && method_form(#[trigger] methods[i]) == method
}

/// Whether a list of methods holds a method that is in its compared form.
fn method_listed(methods: &Vec<String>, method: &str) -> (b: bool)
    ensures
        b == lists_method(texts(methods@), method@),
{
    let mut i: usize = 0;
    while i < methods.len()
        invariant
            i <= methods@.len(),
            forall|j: int| 0 <= j < i ==> method_form(#[trigger] texts(methods@)[j]) != method@,
        decreases methods@.len() - i,
    {
        let form = normalize_method(methods[i].as_str());
        if same_text(form.as_str(), method) {
            proof {
                assert(method_form(texts(methods@)[i as int]) == method@);
            }
            return true;
        }
        i += 1;
    }
    false
}

/// Whether a list of header names holds a name, in any case and with any white
/// space around it.
pub open spec fn lists_header(names: Seq<Seq<char>>, name: Seq<char>) -> bool {
    exists|i: int| 0 <= i < names.len() && name_form(#[trigger] names[i]) == name
}

/// Whether a list of header names holds a name that is in its compared form.
fn header_listed(names: &Vec<String>, name: &str) -> (b: bool)
    ensures
        b == lists_header(texts(names@), name@),
{
    let mut i: usize = 0;
    while i < names.len()
        invariant
            i <= names@.len(),
            forall|j: int| 0 <= j < i ==> name_form(#[trigger] texts(names@)[j]) != name@,
        decreases names@.len() - i,
    {
        let form = normalize_header_name(names[i].as_str());
        if same_text(form.as_str(), name) {
            proof {
                assert(name_form(texts(names@)[i as int]) == name@);
            }
            return true;
        }
        i += 1;
    }
    false
}

/// The first of the mandatory headers that is not there.
pub open spec fn first_missing(
    mandatory: Seq<Seq<char>>,
    headers: Seq<(Seq<char>, Seq<char>)>,
) -> Option<Seq<char>>
    decreases mandatory.len(),
{
    if mandatory.len() == 0 {
        None
    } else if lookup(headers, name_form(mandatory[0])) is None {
        Some(name_form(mandatory[0]))
    } else {
        first_missing(mandatory.drop_first(), headers)
    }
}

/// The first of the mandatory headers that is not there.
fn missing_header(mandatory: &Vec<String>, headers: &TextMap<String>) -> (missing: Option<String>)
    ensures
        match missing {
            Some(name) => first_missing(texts(mandatory@), header_texts(*headers)) == Some(name@),
            None => first_missing(texts(mandatory@), header_texts(*headers)) is None,
        },
{
    let ghost all = texts(mandatory@);
    let ghost there = header_texts(*headers);
    let mut i: usize = 0;
    proof {
        assert(all.skip(0) =~= all);
    }
    while i < mandatory.len()
        invariant
            i <= mandatory@.len(),
            all == texts(mandatory@),
            there == header_texts(*headers),
            first_missing(all, there) == first_missing(all.skip(i as int), there),
        decreases mandatory@.len() - i,
    {
        let name = normalize_header_name(mandatory[i].as_str());
        proof {
            lookup_commutes(headers@, name@, |v: String| v@);
            assert(all.skip(i as int)[0] == mandatory@[i as int]@);
            assert(all.skip(i as int).drop_first() =~= all.skip(i + 1));
        }
        if !headers.contains_key(name.as_str()) {
            return Some(name);
        }
        i += 1;
    }
    None
}

/// The first header that is neither let through unlisted nor listed.
pub open spec fn first_unlisted(
    headers: Seq<(Seq<char>, Seq<char>)>,
    names: Seq<Seq<char>>,
) -> Option<Seq<char>>
    decreases headers.len(),
{
    if headers.len() == 0 {
        None
    } else if !implicit_header(headers[0].0) && !lists_header(names, headers[0].0) {
        Some(headers[0].0)
    } else {
        first_unlisted(headers.drop_first(), names)
    }
}

/// A list that is two lists in a row holds what either holds.
proof fn lists_header_of_two(a: Seq<Seq<char>>, b: Seq<Seq<char>>, name: Seq<char>)
    ensures
        lists_header(a + b, name) == (lists_header(a, name) || lists_header(b, name)),
{
    if lists_header(a, name) {
        let i = choose|i: int| 0 <= i < a.len() && name_form(#[trigger] a[i]) == name;
        assert((a + b)[i] == a[i]);
    }
    if lists_header(b, name) {
        let i = choose|i: int| 0 <= i < b.len() && name_form(#[trigger] b[i]) == name;
        assert((a + b)[a.len() + i] == b[i]);
    }
}

/// The first header that is neither let through unlisted nor on one of two
/// lists.
fn unlisted_header(headers: &TextMap<String>, general: &Vec<String>, own: &Vec<String>) -> (unlisted: Option<String>)
    ensures
        match unlisted {
            Some(name) => first_unlisted(header_texts(*headers), texts(general@) + texts(own@))
                == Some(name@),
            None => first_unlisted(header_texts(*headers), texts(general@) + texts(own@)) is None,
        },
{
    let ghost all = header_texts(*headers);
    let ghost names = texts(general@) + texts(own@);
    let mut i: usize = 0;
    proof {
        assert(all.skip(0) =~= all);
    }
    while i < headers.len()
        invariant
            i <= headers@.len(),
            all == header_texts(*headers),
            names == texts(general@) + texts(own@),
            first_unlisted(all, names) == first_unlisted(all.skip(i as int), names),
        decreases headers@.len() - i,
    {
        let name = headers.key_at(i);
        proof {
            lists_header_of_two(texts(general@), texts(own@), name@);
            assert(all.skip(i as int)[0].0 == name@);
            assert(all.skip(i as int).drop_first() =~= all.skip(i + 1));
        }
        if !is_implicit_allowed_header(name) && !header_listed(general, name) && !header_listed(own, name) {
            return Some(name.to_string());
        }
        i += 1;
    }
    None
}

/// The decision to block for a reason that is no rule.
pub open spec fn refusal(reason: DecisionReason, message: Seq<char>) -> DecisionView {
    DecisionView { action: DecisionAction::Block, reason, matched_rule_id: None, message }
}

/// The decision to block for a reason that is no rule.
fn refuse(reason: DecisionReason, message: String) -> (decision: Option<AnalysisDecision>)
    ensures
        decision_view(decision) == Some(refusal(reason, message@)),
{
    Some(AnalysisDecision { action: DecisionAction::Block, reason, matched_rule_id: None, message })
}

/// The size in bytes of a body.
pub open spec fn body_size(body: Option<Seq<char>>) -> nat {
    match body {
        Some(b) => encode_utf8(b).len(),
        None => 0,
    }
}

/// What the limits of an endpoint say about a request. The first of these that
/// holds decides: its method is not taken, a mandatory header is missing, a
/// header is not listed, its body is too large, its query has too many
/// parameters.
pub open spec fn endpoint_verdict(
    defaults: GlobalDefaults,
    policy: EndpointPolicy,
    request: RequestView,
) -> Option<DecisionView> {
    let headers = headers_form(request.headers);
    let kb = effective_body_limit(defaults, policy);
    if !lists_method(effective_methods(defaults, policy), method_form(request.method)) {
        Some(
            refusal(
                DecisionReason::MethodNotAllowed,
                "HTTP method '"@ + method_form(request.method) + "' is not allowed for path '"@ + request.path + "'"@,
            ),
        )
    } else if let Some(name) = first_missing(texts(policy.mandatory_headers@), headers) {
        Some(
            refusal(
                DecisionReason::MissingMandatoryHeader,
                "mandatory header '"@ + name + "' is missing for path '"@ + request.path + "'"@,
            ),
        )
    } else if let Some(name) = first_unlisted(headers, effective_headers(defaults, policy)) {
        Some(
            refusal(
                DecisionReason::HeaderNotAllowed,
                "header '"@ + name + "' is not allowed for path '"@ + request.path + "'"@,
            ),
        )
    } else if body_size(request.body) > kb * 1024 {
        Some(
            refusal(
                DecisionReason::BodyTooLarge,
                "request body size '"@ + decimal(body_size(request.body)) + "' exceeds '"@ + decimal(kb as nat)
                    + "' KB for path '"@ + request.path + "'"@,
            ),
        )
    } else {
        match policy.max_params {
            Some(limit) if param_count(request.query) > limit => Some(
                refusal(
                    DecisionReason::TooManyParams,
                    "query parameter count '"@ + decimal(param_count(request.query)) + "' exceeds '"@ + decimal(
                        limit as nat,
                    ) + "' for path '"@ + request.path + "'"@,
                ),
            ),
            _ => None,
        }
    }
}

/// What the policies say about a request: nothing, if there is no endpoint with
/// its path.
pub open spec fn policy_verdict(policies: SecurityPolicies, request: RequestView) -> Option<DecisionView> {
    match lookup(policies.endpoints@, request.path) {
        Some(policy) => endpoint_verdict(policies.global_defaults, policy, request),
        None => None,
    }
}

/// What the policies say about a request.
pub fn check_policies(policies: &SecurityPolicies, request: &AnalysisRequest) -> (decision: Option<AnalysisDecision>)
    ensures
        decision_view(decision) == policy_verdict(*policies, request@),
{
    let defaults = &policies.global_defaults;
    let path = request.path.as_str();
    let policy = match find_endpoint_policy(policies, path) {
        Some(policy) => policy,
        None => return None,
    };
    let method = normalize_method(request.method.as_str());
    let headers = normalize_headers(&request.headers);
    let taken = if policy.allowed_methods.len() == 0 {
        method_listed(&defaults.allowed_methods, method.as_str())
    } else {
        method_listed(&policy.allowed_methods, method.as_str())
    };
    if !taken {
        return refuse(
            DecisionReason::MethodNotAllowed,
            phrase("HTTP method '", method.as_str(), "' is not allowed for path '", path, "'"),
        );
    }
    if let Some(name) = missing_header(&policy.mandatory_headers, &headers) {
        return refuse(
            DecisionReason::MissingMandatoryHeader,
            phrase("mandatory header '", name.as_str(), "' is missing for path '", path, "'"),
        );
    }
    if let Some(name) = unlisted_header(&headers, &defaults.allowed_headers, &policy.allowed_headers) {
        return refuse(
            DecisionReason::HeaderNotAllowed,
            phrase("header '", name.as_str(), "' is not allowed for path '", path, "'"),
        );
    }
    let size: usize = match &request.body {
        Some(body) => body.as_str().as_bytes().len(),
        None => 0,
    };
    let kb: u64 = match policy.max_body_size_kb {
        Some(kb) => kb,
        None => defaults.max_body_size_kb,
    };
    if size as u128 > kb as u128 * 1024 {
        let mut message = "request body size '".to_string();
        message.append(decimal_text(size as u64).as_str());
        message.append("' exceeds '");
        message.append(decimal_text(kb).as_str());
        message.append("' KB for path '");
        message.append(path);
        message.append("'");
        return refuse(DecisionReason::BodyTooLarge, message);
    }
    if let Some(limit) = policy.max_params {
        let query = match &request.query {
            Some(q) => Some(q.as_str()),
            None => None,
        };
        let count: usize = count_query_params(query);
        if count as u64 > limit as u64 {
            let mut message = "query parameter count '".to_string();
            message.append(decimal_text(count as u64).as_str());
            message.append("' exceeds '");
            message.append(decimal_text(limit as u64).as_str());
            message.append("' for path '");
            message.append(path);
            message.append("'");
            return refuse(DecisionReason::TooManyParams, message);
        }
    }
    None
}

} // verus!
