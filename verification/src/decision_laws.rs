//! On what a decision depends, said over the fields of the policies and the
//! parts of the request.
use crate::analyzer::{header_component, matched_component, signature_verdict, verdict};
use crate::config::SharedState;
use crate::form_laws::{every_header_is_compared, is_last_named};
use crate::models::{
    CompiledRule, DecisionReason, EndpointPolicy, GlobalDefaults, NormalizedView, RequestView,
    SecurityPolicies,
};
use crate::normalize::{
    headers_form, inspected_header, method_form, name_form, param_count, request_form,
};
use crate::number::decimal;
use crate::outside::matched_texts;
use crate::policy::{
    effective_headers, effective_methods, first_missing, first_unlisted, implicit_header,
    lists_header, lists_method, policy_verdict,
};
use crate::text::{ascii_lower, ascii_upper, begins_with, trim};
use crate::text_map::{lookup, lookup_finds_entries};
use crate::words::texts;
use vstd::prelude::*;
use vstd::utf8::*;

verus! {

/// Whether a list has a method, case and white space around it aside.
pub open spec fn has_method(list: Seq<String>, method: Seq<char>) -> bool {
    exists|i: int| 0 <= i < list.len() && ascii_upper(trim((#[trigger] list[i])@)) == ascii_upper(trim(method))
}

/// Whether a list has a header name, case and white space around it aside.
pub open spec fn has_name(list: Seq<String>, name: Seq<char>) -> bool {
    exists|i: int| 0 <= i < list.len() && ascii_lower(trim((#[trigger] list[i])@)) == ascii_lower(trim(name))
}

/// Whether a request has a header, case and white space around the name aside.
pub open spec fn carries(request: RequestView, name: Seq<char>) -> bool {
    exists|i: int|
        0 <= i < request.headers.len() && ascii_lower(trim((#[trigger] request.headers[i]).0)) == ascii_lower(
            trim(name),
        )
}

/// Whether an endpoint takes the method of a request: its own list says so, or
/// the general one where it has none of its own.
pub open spec fn method_fits(defaults: GlobalDefaults, policy: EndpointPolicy, request: RequestView) -> bool {
    if policy.allowed_methods@.len() == 0 {
        has_method(defaults.allowed_methods@, request.method)
    } else {
        has_method(policy.allowed_methods@, request.method)
    }
}

/// Whether a request has all headers that an endpoint wants.
pub open spec fn nothing_is_missing(policy: EndpointPolicy, request: RequestView) -> bool {
    forall|i: int|
        0 <= i < policy.mandatory_headers@.len() ==> carries(request, (#[trigger] policy.mandatory_headers@[i])@)
}

/// Whether a header may always be there.
pub open spec fn is_unlisted_anyway(name: Seq<char>) -> bool {
    let plain = ascii_lower(trim(name));
    plain == "host"@ || plain == "connection"@ || plain == "content-length"@ || plain == "upgrade"@ || plain
        == "priority"@ || plain == "sec-websocket-key"@ || plain == "sec-websocket-version"@ || plain
        == "sec-websocket-extensions"@
}

/// Whether every header of a request may be there: by itself, by the general
/// list or by the endpoint's own.
pub open spec fn headers_fit(defaults: GlobalDefaults, policy: EndpointPolicy, request: RequestView) -> bool {
    forall|i: int|
        0 <= i < request.headers.len() ==> is_unlisted_anyway((#[trigger] request.headers[i]).0) || has_name(
            defaults.allowed_headers@,
            request.headers[i].0,
        ) || has_name(policy.allowed_headers@, request.headers[i].0)
}

/// Whether the body is no larger than the endpoint's limit, or the general one
/// where it has none of its own.
pub open spec fn body_fits(defaults: GlobalDefaults, policy: EndpointPolicy, request: RequestView) -> bool {
    request.body is Some ==> {
        &&& policy.max_body_size_kb is Some ==> encode_utf8(request.body->0).len() <= policy.max_body_size_kb->0 * 1024
        &&& policy.max_body_size_kb is None ==> encode_utf8(request.body->0).len() <= defaults.max_body_size_kb * 1024
    }
}

/// Whether the query has no more parameters than the endpoint allows.
pub open spec fn parameters_fit(policy: EndpointPolicy, request: RequestView) -> bool {
    policy.max_params is Some ==> param_count(request.query) <= policy.max_params->0
}

/// The method check is about the lists in the policy and the defaults.
proof fn method_check(defaults: GlobalDefaults, policy: EndpointPolicy, request: RequestView)
    ensures
        lists_method(effective_methods(defaults, policy), ascii_upper(trim(request.method))) == method_fits(
            defaults,
            policy,
            request,
        ),
{
    let own = if policy.allowed_methods@.len() == 0 {
        defaults.allowed_methods@
    } else {
        policy.allowed_methods@
    };
    let method = ascii_upper(trim(request.method));
    assert(effective_methods(defaults, policy) == texts(own));
    if has_method(own, request.method) {
        let i = choose|i: int|
            0 <= i < own.len() && ascii_upper(trim((#[trigger] own[i])@)) == ascii_upper(trim(request.method));
        assert(method_form(texts(own)[i]) == method);
    }
    if lists_method(texts(own), method) {
        let i = choose|i: int|
            0 <= i < texts(own).len() && method_form(#[trigger] texts(own)[i]) == method;
        assert(ascii_upper(trim(own[i]@)) == ascii_upper(trim(request.method)));
    }
}

/// A name that some header has is the name of a last one.
proof fn some_header_is_last(headers: Seq<(Seq<char>, Seq<char>)>, name: Seq<char>, at: int) -> (last: int)
    requires
        0 <= at < headers.len(),
        ascii_lower(trim(headers[at].0)) == name,
    ensures
        is_last_named(headers, name, last),
    decreases headers.len() - at,
{
    if forall|i: int| at < i < headers.len() ==> ascii_lower(trim((#[trigger] headers[i]).0)) != name {
        at
    } else {
        let next = choose|i: int| at < i < headers.len() && ascii_lower(trim((#[trigger] headers[i]).0)) == name;
        some_header_is_last(headers, name, next)
    }
}

/// A request carries a header exactly if its compared headers have the name.
proof fn carried_names(request: RequestView, name: Seq<char>)
    ensures
        carries(request, name) <==> lookup(headers_form(request.headers), name_form(name)) is Some,
{
    let form = ascii_lower(trim(name));
    if carries(request, name) {
        let i = choose|i: int|
            0 <= i < request.headers.len() && ascii_lower(trim((#[trigger] request.headers[i]).0)) == ascii_lower(
                trim(name),
            );
        let last = some_header_is_last(request.headers, form, i);
        every_header_is_compared(request.headers, form, last);
    } else {
        every_header_is_compared(request.headers, form, 0);
    }
}

/// The first missing header: it is missing, and those before it are there.
proof fn missing_check(mandatory: Seq<Seq<char>>, request: RequestView)
    ensures
        match first_missing(mandatory, headers_form(request.headers)) {
            Some(name) => exists|i: int|
                {
                    &&& 0 <= i < mandatory.len()
                    &&& name == ascii_lower(trim(#[trigger] mandatory[i]))
                    &&& !carries(request, mandatory[i])
                    &&& forall|j: int| 0 <= j < i ==> carries(request, #[trigger] mandatory[j])
                },
            None => forall|i: int| 0 <= i < mandatory.len() ==> carries(request, #[trigger] mandatory[i]),
        },
    decreases mandatory.len(),
{
    if mandatory.len() > 0 {
        let rest = mandatory.drop_first();
        carried_names(request, mandatory[0]);
        missing_check(rest, request);
        let headers = headers_form(request.headers);
        if carries(request, mandatory[0]) {
            match first_missing(rest, headers) {
                Some(name) => {
                    let i = choose|i: int|
                        {
                            &&& 0 <= i < rest.len()
                            &&& name == ascii_lower(trim(#[trigger] rest[i]))
                            &&& !carries(request, rest[i])
                            &&& forall|j: int| 0 <= j < i ==> carries(request, #[trigger] rest[j])
                        };
                    assert(mandatory[i + 1] == rest[i]);
                    assert forall|j: int| 0 <= j < i + 1 implies carries(request, #[trigger] mandatory[j]) by {
                        if j > 0 {
                            assert(rest[j - 1] == mandatory[j]);
                        }
                    }
                },
                None => {
                    assert forall|j: int| 0 <= j < mandatory.len() implies carries(request, #[trigger] mandatory[j]) by {
                        if j > 0 {
                            assert(rest[j - 1] == mandatory[j]);
                        }
                    }
                },
            }
        } else {
            assert(first_missing(mandatory, headers) == Some(ascii_lower(trim(mandatory[0]))));
        }
    }
}

/// The first header that is neither implicit nor listed is one, and if there is
/// none, every header is one or the other.
proof fn unlisted_check(headers: Seq<(Seq<char>, Seq<char>)>, names: Seq<Seq<char>>)
    ensures
        match first_unlisted(headers, names) {
            Some(name) => exists|i: int|
                0 <= i < headers.len() && (#[trigger] headers[i]).0 == name && !implicit_header(name) && !lists_header(
                    names,
                    name,
                ),
            None => forall|i: int|
                0 <= i < headers.len() ==> implicit_header((#[trigger] headers[i]).0) || lists_header(
                    names,
                    headers[i].0,
                ),
        },
    decreases headers.len(),
{
    if headers.len() > 0 {
        let rest = headers.drop_first();
        unlisted_check(rest, names);
        if !implicit_header(headers[0].0) && !lists_header(names, headers[0].0) {
            assert(headers[0].0 == headers[0].0);
        } else {
            match first_unlisted(rest, names) {
                Some(name) => {
                    let i = choose|i: int|
                        0 <= i < rest.len() && (#[trigger] rest[i]).0 == name && !implicit_header(name)
                            && !lists_header(names, name);
                    assert(headers[i + 1] == rest[i]);
                },
                None => {
                    assert forall|i: int| 0 <= i < headers.len() implies implicit_header((#[trigger] headers[i]).0)
                        || lists_header(names, headers[i].0) by {
                        if i > 0 {
                            assert(rest[i - 1] == headers[i]);
                        }
                    }
                },
            }
        }
    }
}

/// A compared name is listed exactly if the general list or the endpoint's own
/// has it.
proof fn listed_check(defaults: GlobalDefaults, policy: EndpointPolicy, name: Seq<char>)
    ensures
        lists_header(effective_headers(defaults, policy), ascii_lower(trim(name))) == (has_name(
            defaults.allowed_headers@,
            name,
        ) || has_name(policy.allowed_headers@, name)),
{
    let general = defaults.allowed_headers@;
    let own = policy.allowed_headers@;
    let all = effective_headers(defaults, policy);
    let form = ascii_lower(trim(name));
    assert(all =~= texts(general) + texts(own));
    if has_name(general, name) {
        let i = choose|i: int|
            0 <= i < general.len() && ascii_lower(trim((#[trigger] general[i])@)) == ascii_lower(trim(name));
        assert(name_form(all[i]) == form);
    }
    if has_name(own, name) {
        let i = choose|i: int| 0 <= i < own.len() && ascii_lower(trim((#[trigger] own[i])@)) == ascii_lower(trim(name));
        assert(all[general.len() + i] == own[i]@);
        assert(name_form(all[general.len() + i]) == form);
    }
    if lists_header(all, form) {
        let i = choose|i: int| 0 <= i < all.len() && name_form(#[trigger] all[i]) == form;
        if i < general.len() {
            assert(ascii_lower(trim(general[i]@)) == form);
        } else {
            assert(ascii_lower(trim(own[i - general.len()]@)) == form);
        }
    }
}

/// The header check is about the headers of the request and the two lists.
proof fn headers_check(defaults: GlobalDefaults, policy: EndpointPolicy, request: RequestView)
    ensures
        match first_unlisted(headers_form(request.headers), effective_headers(defaults, policy)) {
            Some(name) => exists|i: int|
                {
                    &&& 0 <= i < request.headers.len()
                    &&& name == ascii_lower(trim((#[trigger] request.headers[i]).0))
                    &&& !is_unlisted_anyway(request.headers[i].0)
                    &&& !has_name(defaults.allowed_headers@, request.headers[i].0)
                    &&& !has_name(policy.allowed_headers@, request.headers[i].0)
                },
            None => headers_fit(defaults, policy, request),
        },
{
    let headers = headers_form(request.headers);
    let names = effective_headers(defaults, policy);
    unlisted_check(headers, names);
    match first_unlisted(headers, names) {
        Some(name) => {
            lookup_finds_entries(headers, name);
            if forall|i: int| 0 <= i < request.headers.len() ==> ascii_lower(trim((#[trigger] request.headers[i]).0)) != name {
                every_header_is_compared(request.headers, name, 0);
                assert(false);
            }
            let i = choose|i: int|
                0 <= i < request.headers.len() && ascii_lower(trim((#[trigger] request.headers[i]).0)) == name;
            listed_check(defaults, policy, request.headers[i].0);
        },
        None => {
            assert forall|i: int| 0 <= i < request.headers.len() implies is_unlisted_anyway(
                (#[trigger] request.headers[i]).0,
            ) || has_name(defaults.allowed_headers@, request.headers[i].0) || has_name(
                policy.allowed_headers@,
                request.headers[i].0,
            ) by {
                let name = ascii_lower(trim(request.headers[i].0));
                let last = some_header_is_last(request.headers, name, i);
                every_header_is_compared(request.headers, name, last);
                lookup_finds_entries(headers, name);
                let k = choose|k: int| 0 <= k < headers.len() && headers[k].0 == name;
                assert(implicit_header(headers[k].0) || lists_header(names, headers[k].0));
                listed_check(defaults, policy, request.headers[i].0);
            }
        },
    }
}

/// The policies say nothing about a request for which there is no endpoint.
pub proof fn requests_without_endpoint_are_left_alone(policies: SecurityPolicies, request: RequestView)
    requires
        forall|i: int| 0 <= i < policies.endpoints@.len() ==> (#[trigger] policies.endpoints@[i]).0 != request.path,
    ensures
        policy_verdict(policies, request) is None,
{
    lookup_finds_entries(policies.endpoints@, request.path);
}

/// The policies object to nothing exactly if the endpoint takes the method,
/// every mandatory header is there, every header may be there, and neither the
/// body nor the number of parameters is too large.
pub proof fn policies_object_to_nothing_else(policies: SecurityPolicies, policy: EndpointPolicy, request: RequestView)
    requires
        lookup(policies.endpoints@, request.path) == Some(policy),
    ensures
        policy_verdict(policies, request) is None <==> {
            &&& method_fits(policies.global_defaults, policy, request)
            &&& nothing_is_missing(policy, request)
            &&& headers_fit(policies.global_defaults, policy, request)
            &&& body_fits(policies.global_defaults, policy, request)
            &&& parameters_fit(policy, request)
        },
{
    policies_object_for_a_reason(policies, policy, request);
}

/// What the policies object to is the first of these that does not fit: the
/// method, the mandatory headers, the headers, the body, the parameters. They
/// block, and no rule is named.
pub proof fn policies_object_for_a_reason(policies: SecurityPolicies, policy: EndpointPolicy, request: RequestView)
    requires
        lookup(policies.endpoints@, request.path) == Some(policy),
    ensures
        ({
            let defaults = policies.global_defaults;
            let found = policy_verdict(policies, request);
            if !method_fits(defaults, policy, request) {
                found is Some && found->0.reason is MethodNotAllowed
            } else if !nothing_is_missing(policy, request) {
                found is Some && found->0.reason is MissingMandatoryHeader
            } else if !headers_fit(defaults, policy, request) {
                found is Some && found->0.reason is HeaderNotAllowed
            } else if !body_fits(defaults, policy, request) {
                found is Some && found->0.reason is BodyTooLarge
            } else if !parameters_fit(policy, request) {
                found is Some && found->0.reason is TooManyParams
            } else {
                found is None
            }
        }),
        policy_verdict(policies, request) matches Some(d) ==> d.action is Block && d.matched_rule_id is None,
{
    let defaults = policies.global_defaults;
    let mandatory = texts(policy.mandatory_headers@);
    method_check(defaults, policy, request);
    missing_check(mandatory, request);
    headers_check(defaults, policy, request);
    assert(nothing_is_missing(policy, request) <==> first_missing(mandatory, headers_form(request.headers)) is None) by {
        if nothing_is_missing(policy, request) {
            assert forall|i: int| 0 <= i < mandatory.len() implies carries(request, #[trigger] mandatory[i]) by {
                assert(carries(request, policy.mandatory_headers@[i]@));
            }
        }
        if first_missing(mandatory, headers_form(request.headers)) is None {
            assert forall|i: int| 0 <= i < policy.mandatory_headers@.len() implies carries(
                request,
                (#[trigger] policy.mandatory_headers@[i])@,
            ) by {
                assert(carries(request, mandatory[i]));
            }
        }
    }
    assert(headers_fit(defaults, policy, request) <==> first_unlisted(
        headers_form(request.headers),
        effective_headers(defaults, policy),
    ) is None);
}

/// An endpoint without a limit of its own has the general one: a body with more
/// bytes is refused, whatever else the request holds.
pub proof fn general_limit_holds_where_there_is_no_other(
    policies: SecurityPolicies,
    policy: EndpointPolicy,
    request: RequestView,
    body: Seq<char>,
)
    requires
        lookup(policies.endpoints@, request.path) == Some(policy),
        policy.max_body_size_kb is None,
        request.body == Some(body),
        encode_utf8(body).len() > policies.global_defaults.max_body_size_kb * 1024,
    ensures
        policy_verdict(policies, request) is Some,
        policy_verdict(policies, request)->0.action is Block,
{
    policies_object_for_a_reason(policies, policy, request);
}

/// An objection tells what does not fit: the method, the first mandatory header
/// that is missing, a header that may not be there, the size of the body and its
/// limit, or the number of parameters and theirs; and the path.
pub proof fn objections_tell_their_reasons(policies: SecurityPolicies, policy: EndpointPolicy, request: RequestView)
    requires
        lookup(policies.endpoints@, request.path) == Some(policy),
        policy_verdict(policies, request) is Some,
    ensures
        ({
            let told = policy_verdict(policies, request)->0.message;
            match policy_verdict(policies, request)->0.reason {
                DecisionReason::MethodNotAllowed => told == "HTTP method '"@ + ascii_upper(trim(request.method))
                    + "' is not allowed for path '"@ + request.path + "'"@,
                DecisionReason::MissingMandatoryHeader => exists|i: int|
                    {
                        &&& 0 <= i < policy.mandatory_headers@.len()
                        &&& told == "mandatory header '"@ + ascii_lower(trim((#[trigger] policy.mandatory_headers@[i])@))
                            + "' is missing for path '"@ + request.path + "'"@
                        &&& !carries(request, policy.mandatory_headers@[i]@)
                    },
                DecisionReason::HeaderNotAllowed => exists|i: int|
                    {
                        &&& 0 <= i < request.headers.len()
                        &&& told == "header '"@ + ascii_lower(trim((#[trigger] request.headers[i]).0))
                            + "' is not allowed for path '"@ + request.path + "'"@
                        &&& !is_unlisted_anyway(request.headers[i].0)
                    },
                DecisionReason::BodyTooLarge => request.body is Some && told == "request body size '"@ + decimal(
                    encode_utf8(request.body->0).len(),
                ) + "' exceeds '"@ + decimal(
                    (if policy.max_body_size_kb is Some {
                        policy.max_body_size_kb->0
                    } else {
                        policies.global_defaults.max_body_size_kb
                    }) as nat,
                ) + "' KB for path '"@ + request.path + "'"@,
                DecisionReason::TooManyParams => policy.max_params is Some && told == "query parameter count '"@ + decimal(
                    param_count(request.query),
                ) + "' exceeds '"@ + decimal(policy.max_params->0 as nat) + "' for path '"@ + request.path + "'"@,
                _ => false,
            }
        }),
{
    let defaults = policies.global_defaults;
    let mandatory = texts(policy.mandatory_headers@);
    policies_object_for_a_reason(policies, policy, request);
    missing_check(mandatory, request);
    headers_check(defaults, policy, request);
    if policy_verdict(policies, request)->0.reason is MissingMandatoryHeader {
        let name = first_missing(mandatory, headers_form(request.headers))->0;
        let i = choose|i: int|
            {
                &&& 0 <= i < mandatory.len()
                &&& name == ascii_lower(trim(#[trigger] mandatory[i]))
                &&& !carries(request, mandatory[i])
                &&& forall|j: int| 0 <= j < i ==> carries(request, #[trigger] mandatory[j])
            };
        assert(policy.mandatory_headers@[i]@ == mandatory[i]);
    }
}

/// Whether an expression matches in some header that is looked at: in its name
/// or in a form of its value. Looked at are `authorization`, `origin`,
/// `referer`, and headers whose names begin with `x-`.
pub open spec fn matches_in_headers(found: Set<Seq<char>>, headers: Seq<(Seq<char>, Seq<Seq<char>>)>) -> bool {
    exists|i: int|
        {
            &&& 0 <= i < headers.len()
            &&& is_looked_at((#[trigger] headers[i]).0)
            &&& found.contains(headers[i].0) || exists|k: int|
                0 <= k < headers[i].1.len() && found.contains(#[trigger] headers[i].1[k])
        }
}

/// Whether a header is looked at.
pub open spec fn is_looked_at(name: Seq<char>) -> bool {
    ||| name == "authorization"@
    ||| name == "origin"@
    ||| name == "referer"@
    ||| name.len() >= 2 && name[0] == 'x' && name[1] == '-'
}

/// The headers that are looked at are those that rules are matched against.
proof fn looked_at_is_inspected(name: Seq<char>)
    ensures
        is_looked_at(name) == inspected_header(name),
{
    reveal_strlit("x-");
    reveal_strlit("x-requested-with");
    if name.len() >= 2 && name[0] == 'x' && name[1] == '-' {
        assert(name.subrange(0, 2) =~= "x-"@);
    }
    if begins_with(name, "x-"@) {
        assert(name.subrange(0, 2)[0] == name[0]);
        assert(name.subrange(0, 2)[1] == name[1]);
    }
}

/// Some header matches exactly if there is a place to name.
proof fn header_matches(found: Set<Seq<char>>, headers: Seq<(Seq<char>, Seq<Seq<char>>)>)
    ensures
        header_component(found, headers) is Some <==> matches_in_headers(found, headers),
        header_component(found, headers) matches Some(place) ==> place == "header-name"@ || place == "header-value"@,
    decreases headers.len(),
{
    if headers.len() > 0 {
        let rest = headers.drop_first();
        header_matches(found, rest);
        looked_at_is_inspected(headers[0].0);
        if matches_in_headers(found, rest) {
            let i = choose|i: int|
                {
                    &&& 0 <= i < rest.len()
                    &&& is_looked_at((#[trigger] rest[i]).0)
                    &&& found.contains(rest[i].0) || exists|k: int|
                        0 <= k < rest[i].1.len() && found.contains(#[trigger] rest[i].1[k])
                };
            assert(headers[i + 1] == rest[i]);
        }
        if matches_in_headers(found, headers) {
            let i = choose|i: int|
                {
                    &&& 0 <= i < headers.len()
                    &&& is_looked_at((#[trigger] headers[i]).0)
                    &&& found.contains(headers[i].0) || exists|k: int|
                        0 <= k < headers[i].1.len() && found.contains(#[trigger] headers[i].1[k])
                };
            if i > 0 {
                assert(rest[i - 1] == headers[i]);
            }
        }
        if header_component(found, headers) is Some && header_component(found, rest) is None {
            assert(is_looked_at(headers[0].0));
        }
    }
}

/// A rule finds a match in a request exactly if its expression matches the path,
/// or the query if there is one, or the name or a form of the value of a header
/// that is looked at, or a form of the body; each of these by itself is enough.
pub proof fn every_part_of_a_request_is_matched(found: Set<Seq<char>>, request: NormalizedView)
    ensures
        matched_component(found, request) is Some <==> {
            ||| found.contains(request.path)
            ||| request.query is Some && found.contains(request.query->0)
            ||| matches_in_headers(found, request.headers)
            ||| exists|i: int| 0 <= i < request.body.len() && found.contains(#[trigger] request.body[i])
        },
{
    header_matches(found, request.headers);
}

/// The place that is named for a match is one where there is one: the path
/// before the query, the query before the headers, the headers before the body.
pub proof fn matches_are_named_by_their_place(found: Set<Seq<char>>, request: NormalizedView)
    ensures
        ({
            let place = matched_component(found, request);
            let in_query = request.query is Some && found.contains(request.query->0);
            if found.contains(request.path) {
                place == Some("path"@)
            } else if in_query {
                place == Some("query"@)
            } else if matches_in_headers(found, request.headers) {
                place == Some("header-name"@) || place == Some("header-value"@)
            } else if exists|i: int| 0 <= i < request.body.len() && found.contains(#[trigger] request.body[i]) {
                place == Some("body"@)
            } else {
                place is None
            }
        }),
{
    header_matches(found, request.headers);
}

/// The first rule that matches decides, and says where; if none does, the rules
/// say nothing.
pub proof fn first_matching_rule_decides(rules: Seq<CompiledRule>, request: NormalizedView)
    ensures
        match signature_verdict(rules, request) {
            Some(d) => exists|i: int|
                {
                    &&& 0 <= i < rules.len()
                    &&& matched_component(matched_texts((#[trigger] rules[i]).regex), request) is Some
                    &&& forall|j: int|
                        0 <= j < i ==> matched_component(matched_texts((#[trigger] rules[j]).regex), request) is None
                    &&& d.action is Block
                    &&& d.reason is SignatureMatch
                    &&& d.matched_rule_id == Some(rules[i].id@)
                    &&& d.message == "request matched signature '"@ + rules[i].id@ + ": "@ + rules[i].name@ + "' in "@
                        + matched_component(matched_texts(rules[i].regex), request)->0
                },
            None => forall|i: int|
                0 <= i < rules.len() ==> matched_component(matched_texts((#[trigger] rules[i]).regex), request) is None,
        },
    decreases rules.len(),
{
    if rules.len() > 0 {
        let rest = rules.drop_first();
        first_matching_rule_decides(rest, request);
        if matched_component(matched_texts(rules[0].regex), request) is Some {
            assert(rules[0].id@ == rules[0].id@);
        } else {
            match signature_verdict(rest, request) {
                Some(d) => {
                    let i = choose|i: int|
                        {
                            &&& 0 <= i < rest.len()
                            &&& matched_component(matched_texts((#[trigger] rest[i]).regex), request) is Some
                            &&& forall|j: int|
                                0 <= j < i ==> matched_component(matched_texts((#[trigger] rest[j]).regex), request) is None
                            &&& d.action is Block
                            &&& d.reason is SignatureMatch
                            &&& d.matched_rule_id == Some(rest[i].id@)
                            &&& d.message == "request matched signature '"@ + rest[i].id@ + ": "@ + rest[i].name@
                                + "' in "@ + matched_component(matched_texts(rest[i].regex), request)->0
                        };
                    assert(rules[i + 1] == rest[i]);
                    assert forall|j: int| 0 <= j < i + 1 implies matched_component(
                        matched_texts((#[trigger] rules[j]).regex),
                        request,
                    ) is None by {
                        if j > 0 {
                            assert(rest[j - 1] == rules[j]);
                        }
                    }
                },
                None => {
                    assert forall|j: int| 0 <= j < rules.len() implies matched_component(
                        matched_texts((#[trigger] rules[j]).regex),
                        request,
                    ) is None by {
                        if j > 0 {
                            assert(rest[j - 1] == rules[j]);
                        }
                    }
                },
            }
        }
    }
}

/// What is decided on a request, case by case: switched off; on the black list;
/// on the white list; an objection of the policies, else of the rules, in active
/// mode and in passive mode; no objection.
pub proof fn decisions_are_made_like_this(state: SharedState, list: Option<Seq<char>>, request: RequestView)
    ensures
        ({
            let d = verdict(state, list, request);
            let policy = policy_verdict(state.security_policies, request);
            let objection = if policy is Some {
                policy
            } else {
                signature_verdict(state.compiled_rules@, request_form(request))
            };
            &&& !state.config.is_enabled ==> d.action is Allow && d.reason is WafDisabled && d.matched_rule_id is None
                && d.message == "WAF is disabled; request allowed"@
            &&& state.config.is_enabled && list == Some("black"@) ==> d.action is Block && d.reason is IpBlacklist
                && d.matched_rule_id is None && d.message == "source IP '"@ + request.source_ip + "' is blacklisted"@
            &&& state.config.is_enabled && list == Some("white"@) ==> d.action is Allow && d.reason is IpWhitelist
                && d.matched_rule_id is None && d.message == "source IP '"@ + request.source_ip
                + "' is explicitly whitelisted"@
            &&& state.config.is_enabled && list != Some("black"@) && list != Some("white"@) ==> {
                &&& objection is None ==> d.action is Allow && d.reason is Passed && d.matched_rule_id is None && d.message
                    == "request passed all analyzer stages"@
                &&& objection is Some && state.config.mode is Active ==> d == objection->0
                &&& objection is Some && state.config.mode is Passive ==> d.action is Log && d.reason
                    == objection->0.reason && d.matched_rule_id == objection->0.matched_rule_id && d.message
                    == "passive mode: "@ + objection->0.message
            }
        }),
{
    reveal_strlit("black");
    reveal_strlit("white");
    assert("black"@[0] == 'b' && "white"@[0] == 'w');
    if let Some(policy) = lookup(state.security_policies.endpoints@, request.path) {
        policies_object_for_a_reason(state.security_policies, policy, request);
    }
    first_matching_rule_decides(state.compiled_rules@, request_form(request));
}

} // verus!
