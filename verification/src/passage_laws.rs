//! What passes through the proxy, with the names of the headers written out, and
//! what is recorded and answered of what does not.
use crate::exchange::{
    action_name, attack_payload, blocked_body, blocked_request_preview, cut_off, headers_json,
    last_visible, preview_header, preview_headers_json, reason_name, records, request_url,
};
use crate::forward::{
    below_target, forward_problem, forwarded_chain, forwarded_host, forwarded_values, request_chain,
    response_values, upstream_of, without_leading_slashes,
};
use crate::headers::{is_value_text, is_visible_ascii, values_under};
use crate::models::{DecisionAction, DecisionReason, DecisionView, NewAttackLog, RequestView};
use crate::outside::{json_opt_string, json_string, url_joined, url_parsed, url_place};
use crate::proxy::{
    filters, hardened_lists, hardened_text, hardened_value, hop_by_hop, secured_lists,
    secured_values, ProxyProblem,
};
use crate::text::{ascii_lower, ends_in, has_part, replaced, stands_at};
use crate::text_laws::{parts_stand_where_they_are_put, replacing_is_piecewise, replacing_of_one};
use crate::text_map::with_values;
use crate::words::joined;
use vstd::prelude::*;
use vstd::utf8::*;

verus! {

/// Whether a header is about one connection only: it has one of these eight
/// names, in any case.
pub open spec fn is_about_the_connection(name: Seq<char>) -> bool {
    let plain = ascii_lower(name);
    plain == "connection"@ || plain == "keep-alive"@ || plain == "proxy-authenticate"@ || plain
        == "proxy-authorization"@ || plain == "te"@ || plain == "trailer"@ || plain == "transfer-encoding"@ || plain
        == "upgrade"@
}

/// Every header of a request is forwarded with the last of its values, unless it
/// is about the connection, is the host, or says where the request came from. No
/// header is forwarded that the request does not have, but for those that say
/// where it came from.
pub proof fn every_other_header_is_forwarded(
    lists: Map<Seq<char>, Seq<Seq<u8>>>,
    authority: Option<Seq<char>>,
    source_ip: Seq<char>,
    name: Seq<char>,
)
    requires
        name != "x-forwarded-proto"@,
        name != "x-forwarded-host"@,
        name != "x-forwarded-for"@,
    ensures
        ({
            let sent = values_under(lists, name);
            let forwarded = forwarded_values(lists, authority, source_ip, name);
            if is_about_the_connection(name) || name == "host"@ || sent.len() == 0 {
                forwarded.len() == 0
            } else {
                forwarded.len() == 1 && forwarded[0] == sent[sent.len() - 1]
            }
        }),
{
}

/// A forwarded request says that it came by HTTPS, which host it was sent to,
/// and from which addresses it came: those in the last value that says so, then
/// the sender's. A value that is not visible ASCII counts as an empty one.
pub proof fn forwarded_requests_say_where_they_came_from(
    lists: Map<Seq<char>, Seq<Seq<u8>>>,
    authority: Option<Seq<char>>,
    source_ip: Seq<char>,
)
    ensures
        forwarded_values(lists, authority, source_ip, "x-forwarded-proto"@) == seq![encode_utf8("https"@)],
        authority is Some ==> forwarded_values(lists, authority, source_ip, "x-forwarded-host"@) == seq![
            encode_utf8(authority->0),
        ],
        authority is None ==> forwarded_values(lists, authority, source_ip, "x-forwarded-host"@) == seq![
            encode_utf8("waf.local"@),
        ],
        ({
            let sent = values_under(lists, "x-forwarded-for"@);
            let told = forwarded_values(lists, authority, source_ip, "x-forwarded-for"@);
            &&& sent.len() == 0 ==> told == seq![encode_utf8(source_ip)]
            &&& sent.len() > 0 && is_visible_ascii(sent[sent.len() - 1]) ==> told == seq![
                encode_utf8(decode_utf8(sent[sent.len() - 1]) + ", "@ + source_ip),
            ]
            &&& sent.len() > 0 && !is_visible_ascii(sent[sent.len() - 1]) ==> told == seq![
                encode_utf8(", "@ + source_ip),
            ]
        }),
{
    forwarding_names_differ();
    let empty = Seq::<char>::empty();
    assert(empty + ", "@ + source_ip =~= ", "@ + source_ip);
}

/// The headers that say where a request came from have different names, and none
/// is about the connection.
proof fn forwarding_names_differ()
    ensures
        "x-forwarded-proto"@ != "x-forwarded-host"@,
        "x-forwarded-proto"@ != "x-forwarded-for"@,
        "x-forwarded-host"@ != "x-forwarded-for"@,
        "x-forwarded-for"@ != "host"@,
        !hop_by_hop("x-forwarded-for"@),
{
    reveal_strlit("x-forwarded-proto");
    reveal_strlit("x-forwarded-host");
    reveal_strlit("x-forwarded-for");
    reveal_strlit("host");
    reveal_strlit("connection");
    reveal_strlit("keep-alive");
    reveal_strlit("proxy-authenticate");
    reveal_strlit("proxy-authorization");
    reveal_strlit("te");
    reveal_strlit("trailer");
    reveal_strlit("transfer-encoding");
    reveal_strlit("upgrade");
    assert("x-forwarded-proto"@.len() == 17);
    assert("x-forwarded-host"@.len() == 16);
    assert("x-forwarded-for"@.len() == 15);
    assert(ascii_lower("x-forwarded-for"@).len() == 15);
    assert("host"@.len() == 4);
    assert("connection"@.len() == 10);
    assert("keep-alive"@.len() == 10);
    assert("proxy-authenticate"@.len() == 18);
    assert("proxy-authorization"@.len() == 19);
    assert("te"@.len() == 2);
    assert("trailer"@.len() == 7);
    assert("transfer-encoding"@.len() == 17);
    assert("upgrade"@.len() == 7);
}

/// An address is put behind those that are there already, after a comma.
pub proof fn addresses_are_put_behind(before: Seq<u8>, source_ip: Seq<char>)
    ensures
        forwarded_chain(None, source_ip) == source_ip,
        is_visible_ascii(before) ==> forwarded_chain(Some(before), source_ip) == decode_utf8(before) + ", "@
            + source_ip,
        !is_visible_ascii(before) ==> forwarded_chain(Some(before), source_ip) == ", "@ + source_ip,
{
    assert(Seq::<char>::empty() + ", "@ + source_ip =~= ", "@ + source_ip);
}

/// A request's headers are forwarded unless what they would say of the host or
/// of the addresses has a control character in it.
pub proof fn headers_are_forwarded_unless_garbled(
    lists: Map<Seq<char>, Seq<Seq<u8>>>,
    authority: Option<Seq<char>>,
    source_ip: Seq<char>,
)
    ensures
        forward_problem(lists, authority, source_ip) is None <==> is_value_text(forwarded_host(authority))
            && is_value_text(request_chain(lists, source_ip)),
        forwarded_values(lists, authority, source_ip, "x-forwarded-for"@) == seq![
            encode_utf8(request_chain(lists, source_ip)),
        ],
        forwarded_values(lists, authority, source_ip, "x-forwarded-host"@) == seq![
            encode_utf8(forwarded_host(authority)),
        ],
{
    forwarding_names_differ();
}

/// All slashes that a reference begins with are taken off, and nothing else.
pub proof fn leading_slashes_are_taken_off(slashes: nat, rest: Seq<char>)
    requires
        rest.len() > 0 ==> rest[0] != '/',
    ensures
        without_leading_slashes(Seq::new(slashes, |i: int| '/') + rest) == rest,
    decreases slashes,
{
    let text = Seq::new(slashes, |i: int| '/') + rest;
    if slashes == 0 {
        assert(text =~= rest);
    } else {
        leading_slashes_are_taken_off((slashes - 1) as nat, rest);
        assert(text.drop_first() =~= Seq::new((slashes - 1) as nat, |i: int| '/') + rest);
    }
}

/// A request goes to what its path and query, without the slashes they begin
/// with, lead to from the target; a request without them goes to the target
/// itself. If that would be another place, it goes to that path below the
/// target. It is refused where the target or the result is no URL.
pub proof fn requests_go_where_they_ask_below_the_target(
    target: Seq<char>,
    base: Seq<char>,
    slashes: nat,
    rest: Seq<char>,
)
    requires
        rest.len() > 0 ==> rest[0] != '/',
        url_parsed(target) == Some(base),
    ensures
        ({
            let asked = Seq::new(slashes, |i: int| '/') + rest;
            let there = url_joined(base, rest);
            let below = url_joined(base, seq!['.', '/'] + rest);
            let outcome = upstream_of(target, Some(asked));
            &&& there is None ==> outcome == Err::<Seq<char>, ProxyProblem>(ProxyProblem::InvalidUpstreamUrl(asked))
            &&& there is Some && url_place(there->0) == url_place(base) ==> outcome == Ok::<Seq<char>, ProxyProblem>(
                there->0,
            )
            &&& there is Some && url_place(there->0) != url_place(base) && below is Some && url_place(below->0)
                == url_place(base) ==> outcome == Ok::<Seq<char>, ProxyProblem>(below->0)
        }),
        rest.len() == 0 && slashes == 1 ==> upstream_of(target, None) == upstream_of(
            target,
            Some(Seq::new(slashes, |i: int| '/') + rest),
        ),
{
    let asked = Seq::new(slashes, |i: int| '/') + rest;
    leading_slashes_are_taken_off(slashes, rest);
    reveal_strlit("./");
    reveal_strlit("/");
    assert("./"@ =~= seq!['.', '/']);
    assert(below_target(asked) == seq!['.', '/'] + rest);
    if rest.len() == 0 && slashes == 1 {
        assert(asked =~= "/"@);
    }
}

/// A target that is no URL is told.
pub proof fn unparsed_targets_are_told(target: Seq<char>, path_and_query: Option<Seq<char>>)
    requires
        url_parsed(target) is None,
    ensures
        upstream_of(target, path_and_query) == Err::<Seq<char>, ProxyProblem>(ProxyProblem::InvalidTargetUrl(target)),
{
}

/// Filtering takes out the headers that are about the connection and no others:
/// what is left has all its values, in order.
pub proof fn filtering_takes_out_nothing_else(
    filtered: Map<Seq<char>, Seq<Seq<u8>>>,
    lists: Map<Seq<char>, Seq<Seq<u8>>>,
    name: Seq<char>,
)
    requires
        filters(filtered, lists),
    ensures
        !is_about_the_connection(name) ==> values_under(filtered, name) == values_under(lists, name),
        is_about_the_connection(name) ==> values_under(filtered, name).len() == 0,
{
}

/// A response is passed back with all headers that it has, each with all its
/// values in order, but for those that are about the connection; with its
/// cookies hardened, one by one; and with these five set to these values.
pub proof fn responses_are_passed_back_like_this(lists: Map<Seq<char>, Seq<Seq<u8>>>, name: Seq<char>)
    ensures
        response_values(lists, "strict-transport-security"@) == seq![
            encode_utf8("max-age=31536000; includeSubDomains"@),
        ],
        response_values(lists, "x-frame-options"@) == seq![encode_utf8("DENY"@)],
        response_values(lists, "x-content-type-options"@) == seq![encode_utf8("nosniff"@)],
        response_values(lists, "access-control-allow-origin"@) == seq![encode_utf8("https://waf.local"@)],
        response_values(lists, "content-security-policy"@) == seq![
            encode_utf8("default-src 'self'; frame-ancestors 'none'; form-action 'self'; script-src 'self' 'unsafe-inline'; style-src 'self' 'unsafe-inline';"@),
        ],
        name == "set-cookie"@ ==> {
            let sent = values_under(lists, name);
            let passed = response_values(lists, name);
            passed.len() == sent.len() && forall|i: int|
                0 <= i < sent.len() ==> #[trigger] passed[i] == hardened_value(sent[i])
        },
        name != "set-cookie"@ && name != "strict-transport-security"@ && name != "x-frame-options"@ && name
            != "x-content-type-options"@ && name != "access-control-allow-origin"@ && name != "content-security-policy"@
            ==> (if is_about_the_connection(name) {
            response_values(lists, name).len() == 0
        } else {
            response_values(lists, name) == values_under(lists, name)
        }),
{
    security_names_differ();
}

/// The headers that are put on responses have different names, and that of
/// cookies is not about the connection.
proof fn security_names_differ()
    ensures
        "strict-transport-security"@.len() == 25,
        "x-frame-options"@.len() == 15,
        "x-content-type-options"@.len() == 22,
        "access-control-allow-origin"@.len() == 27,
        "content-security-policy"@.len() == 23,
        "set-cookie"@.len() == 10,
        !hop_by_hop("set-cookie"@),
{
    reveal_strlit("strict-transport-security");
    reveal_strlit("x-frame-options");
    reveal_strlit("x-content-type-options");
    reveal_strlit("access-control-allow-origin");
    reveal_strlit("content-security-policy");
    reveal_strlit("set-cookie");
    reveal_strlit("connection");
    reveal_strlit("keep-alive");
    reveal_strlit("proxy-authenticate");
    reveal_strlit("proxy-authorization");
    reveal_strlit("te");
    reveal_strlit("trailer");
    reveal_strlit("transfer-encoding");
    reveal_strlit("upgrade");
    let plain = ascii_lower("set-cookie"@);
    assert(plain.len() == 10);
    assert(plain[0] == 's');
    assert("connection"@[0] == 'c');
    assert("keep-alive"@[0] == 'k');
    assert("proxy-authenticate"@.len() == 18);
    assert("proxy-authorization"@.len() == 19);
    assert("te"@.len() == 2);
    assert("trailer"@.len() == 7);
    assert("transfer-encoding"@.len() == 17);
    assert("upgrade"@.len() == 7);
}

/// Securing headers sets these five, hardens the cookies one by one, and leaves
/// everything else as it was.
pub proof fn securing_sets_these_headers(lists: Map<Seq<char>, Seq<Seq<u8>>>, name: Seq<char>)
    ensures
        values_under(secured_lists(lists), "strict-transport-security"@) == seq![
            encode_utf8("max-age=31536000; includeSubDomains"@),
        ],
        values_under(secured_lists(lists), "x-frame-options"@) == seq![encode_utf8("DENY"@)],
        values_under(secured_lists(lists), "x-content-type-options"@) == seq![encode_utf8("nosniff"@)],
        values_under(secured_lists(lists), "access-control-allow-origin"@) == seq![encode_utf8("https://waf.local"@)],
        values_under(secured_lists(lists), "content-security-policy"@) == seq![
            encode_utf8("default-src 'self'; frame-ancestors 'none'; form-action 'self'; script-src 'self' 'unsafe-inline'; style-src 'self' 'unsafe-inline';"@),
        ],
        name == "set-cookie"@ ==> {
            let sent = values_under(lists, name);
            let passed = values_under(secured_lists(lists), name);
            passed.len() == sent.len() && forall|i: int|
                0 <= i < sent.len() ==> #[trigger] passed[i] == hardened_value(sent[i])
        },
        name != "set-cookie"@ && name != "strict-transport-security"@ && name != "x-frame-options"@ && name
            != "x-content-type-options"@ && name != "access-control-allow-origin"@ && name != "content-security-policy"@
            ==> values_under(secured_lists(lists), name) == values_under(lists, name),
{
    security_names_differ();
    secured_values(lists, "strict-transport-security"@);
    secured_values(lists, "x-frame-options"@);
    secured_values(lists, "x-content-type-options"@);
    secured_values(lists, "access-control-allow-origin"@);
    secured_values(lists, "content-security-policy"@);
    secured_values(lists, name);
}

/// Hardening changes the cookies, one by one, and no other header.
pub proof fn hardening_changes_cookies_only(lists: Map<Seq<char>, Seq<Seq<u8>>>, name: Seq<char>)
    ensures
        name != "set-cookie"@ ==> values_under(hardened_lists(lists), name) == values_under(lists, name),
        values_under(hardened_lists(lists), "set-cookie"@).len() == values_under(lists, "set-cookie"@).len(),
        forall|i: int|
            0 <= i < values_under(lists, "set-cookie"@).len() ==> #[trigger] values_under(
                hardened_lists(lists),
                "set-cookie"@,
            )[i] == hardened_value(values_under(lists, "set-cookie"@)[i]),
{
}

/// A cookie that is visible ASCII is hardened as a text, and any other is left
/// as it is.
pub proof fn visible_cookies_are_hardened(cookie: Seq<char>, bytes: Seq<u8>)
    ensures
        is_visible_ascii(encode_utf8(cookie)) ==> hardened_value(encode_utf8(cookie)) == encode_utf8(
            hardened_text(cookie),
        ),
        !is_visible_ascii(bytes) ==> hardened_value(bytes) == bytes,
{
    encode_utf8_decode_utf8(cookie);
}

/// A cookie gets `; Secure` where, case aside, it neither has `; secure` in it
/// nor ends in ` secure`, and `; SameSite=Lax` where it neither has `; samesite=`
/// in it nor ends in ` samesite`. Nothing else changes.
pub proof fn cookies_get_what_they_lack(cookie: Seq<char>)
    ensures
        ({
            let plain = ascii_lower(cookie);
            let is_secure = has_part(plain, "; secure"@) || ends_in(plain, " secure"@);
            let has_site = has_part(plain, "; samesite="@) || ends_in(plain, " samesite"@);
            &&& is_secure && has_site ==> hardened_text(cookie) == cookie
            &&& !is_secure && has_site ==> hardened_text(cookie) == cookie + "; Secure"@
            &&& is_secure && !has_site ==> hardened_text(cookie) == cookie + "; SameSite=Lax"@
            &&& !is_secure && !has_site ==> hardened_text(cookie) == cookie + "; Secure"@ + "; SameSite=Lax"@
        }),
{
}

/// Of several values of a header the analyzer sees the last that is visible
/// ASCII.
pub proof fn last_visible_value_is_seen(before: Seq<Seq<u8>>, value: Seq<char>, after: Seq<Seq<u8>>)
    requires
        forall|i: int| 0 <= i < after.len() ==> !is_visible_ascii(#[trigger] after[i]),
    ensures
        is_visible_ascii(encode_utf8(value)) ==> last_visible(before + seq![encode_utf8(value)] + after) == Some(value),
        last_visible(after) is None,
    decreases after.len(),
{
    let whole = before + seq![encode_utf8(value)] + after;
    if after.len() == 0 {
        assert(whole.last() == encode_utf8(value));
        encode_utf8_decode_utf8(value);
    } else {
        let rest = after.drop_last();
        assert forall|i: int| 0 <= i < rest.len() implies !is_visible_ascii(#[trigger] rest[i]) by {
            assert(rest[i] == after[i]);
        }
        last_visible_value_is_seen(before, value, rest);
        assert(whole.drop_last() =~= before + seq![encode_utf8(value)] + rest);
        assert(whole.last() == after[after.len() - 1]);
        assert(after.last() == after[after.len() - 1]);
    }
}

/// A request is recorded under its path, with a question mark and its query
/// behind it where it has one that is not empty.
pub proof fn recorded_urls_have_the_query(path: Seq<char>, query: Seq<char>)
    ensures
        request_url(path, None) == path,
        query.len() == 0 ==> request_url(path, Some(query)) == path,
        query.len() > 0 ==> request_url(path, Some(query)) == path + seq!['?'] + query,
{
    reveal_strlit("?");
    assert("?"@ =~= seq!['?']);
}

/// A text is cut off behind so many characters, three dots in place of the rest,
/// if there is a rest.
pub proof fn cutting_off_leaves_the_front(front: Seq<char>, rest: Seq<char>)
    ensures
        rest.len() > 0 ==> cut_off(front + rest, front.len()) == front + seq!['.', '.', '.'],
        cut_off(front, (front.len() + rest.len()) as nat) == front,
{
    reveal_strlit("...");
    assert("..."@ =~= seq!['.', '.', '.']);
    assert((front + rest).take(front.len() as int) =~= front);
}

/// The answer to a blocked request tells the reason, with a backslash before
/// each quote in it.
pub proof fn answers_tell_the_reason(message: Seq<char>, more: Seq<char>)
    requires
        !message.contains('"'),
    ensures
        blocked_body(message) == "{\"error\":\"request blocked\",\"reason\":\""@ + message + "\"}"@,
        blocked_body(message + seq!['"'] + more) == "{\"error\":\"request blocked\",\"reason\":\""@ + (message + seq![
            '\\',
            '"',
        ] + replaced(more, '"', seq!['\\', '"'])) + "\"}"@,
{
    reveal_strlit("\\\"");
    assert("\\\""@ =~= seq!['\\', '"']);
    nothing_to_replace(message, '"', "\\\""@);
    replacing_is_piecewise(message + seq!['"'], more, '"', "\\\""@);
    replacing_is_piecewise(message, seq!['"'], '"', "\\\""@);
    replacing_of_one('"', '"', "\\\""@);
}

/// A text that does not have a character is not changed when it is replaced.
proof fn nothing_to_replace(text: Seq<char>, c: char, with: Seq<char>)
    requires
        !text.contains(c),
    ensures
        replaced(text, c, with) == text,
    decreases text.len(),
{
    if text.len() > 0 {
        let rest = text.drop_last();
        if rest.contains(c) {
            let i = choose|i: int| 0 <= i < rest.len() && rest[i] == c;
            assert(text[i] == c);
        }
        nothing_to_replace(rest, c, with);
        assert(text[text.len() - 1] != c);
        assert(rest.push(text.last()) =~= text);
    }
}

/// A record tells from where a request came, with which method, for what, which
/// rule matched, for which reason and with what it was treated how.
pub proof fn records_tell_what_happened(log: NewAttackLog, request: RequestView, decision: DecisionView)
    requires
        records(log, request, decision),
    ensures
        log.source_ip@ == request.source_ip,
        log.request_method is Some && log.request_method->0@ == request.method,
        log.request_url is Some && log.request_url->0@ == request_url(request.path, request.query),
        decision.matched_rule_id is None ==> log.matched_rule_id is None,
        decision.matched_rule_id is Some ==> log.matched_rule_id is Some && log.matched_rule_id->0@
            == decision.matched_rule_id->0,
        log.attack_type is Some && log.attack_type->0@ == reason_name(decision.reason),
        log.payload is Some && log.payload->0@ == attack_payload(request, decision.message),
        decision.action is Block ==> log.action_taken@ == "block"@,
        decision.action is Log ==> log.action_taken@ == "log"@,
        decision.action is Allow ==> log.action_taken@ == "allow"@,
{
}

/// Reasons are recorded under these names.
pub proof fn reasons_have_these_names()
    ensures
        reason_name(DecisionReason::IpBlacklist) == "IpBlacklist"@,
        reason_name(DecisionReason::IpWhitelist) == "IpWhitelist"@,
        reason_name(DecisionReason::MethodNotAllowed) == "MethodNotAllowed"@,
        reason_name(DecisionReason::MissingMandatoryHeader) == "MissingMandatoryHeader"@,
        reason_name(DecisionReason::HeaderNotAllowed) == "HeaderNotAllowed"@,
        reason_name(DecisionReason::BodyTooLarge) == "BodyTooLarge"@,
        reason_name(DecisionReason::TooManyParams) == "TooManyParams"@,
        reason_name(DecisionReason::SignatureMatch) == "SignatureMatch"@,
        reason_name(DecisionReason::WafDisabled) == "WafDisabled"@,
        reason_name(DecisionReason::Passed) == "Passed"@,
        action_name(DecisionAction::Allow) == "allow"@,
        action_name(DecisionAction::Block) == "block"@,
        action_name(DecisionAction::Log) == "log"@,
{
}

/// What is joined stands in the result.
pub proof fn joined_parts_are_there(parts: Seq<Seq<char>>, separator: Seq<char>, at: int)
    requires
        0 <= at < parts.len(),
    ensures
        has_part(joined(parts, separator), parts[at]),
    decreases parts.len(),
{
    let empty = Seq::<char>::empty();
    if parts.len() == 1 {
        parts_stand_where_they_are_put(empty, parts[0], empty);
        assert(empty + parts[0] + empty =~= parts[0]);
    } else {
        let rest = parts.drop_last();
        let front = joined(rest, separator);
        if at == parts.len() - 1 {
            parts_stand_where_they_are_put(front + separator, parts[at], empty);
            assert(front + separator + parts[at] + empty =~= joined(parts, separator));
        } else {
            joined_parts_are_there(rest, separator, at);
            assert(rest[at] == parts[at]);
            part_stays_within(empty, front, separator + parts.last(), parts[at]);
            assert(empty + front + (separator + parts.last()) =~= joined(parts, separator));
        }
    }
}

/// What stands in a part of a text stands in the text.
proof fn part_stays_within(front: Seq<char>, middle: Seq<char>, back: Seq<char>, part: Seq<char>)
    requires
        has_part(middle, part),
    ensures
        has_part(front + middle + back, part),
{
    let at = choose|at: int| stands_at(middle, part, at);
    let whole = front + middle + back;
    let there = front.len() + at;
    assert(whole.subrange(there, there + part.len()) =~= middle.subrange(at, at + part.len()));
    assert(stands_at(whole, part, there));
}

/// What is recorded of a request is a JSON object with its body, its headers,
/// the message and its query, and nothing else.
pub proof fn payloads_have_four_fields(request: RequestView, message: Seq<char>)
    ensures
        attack_payload(request, message) == seq!['{'] + (json_string("body"@) + seq![':'] + json_opt_string(
            request.body,
        ) + seq![','] + (json_string("headers"@) + seq![':'] + headers_json(request.headers)) + seq![','] + (
        json_string("message"@) + seq![':'] + json_string(message)) + seq![','] + (json_string("query"@) + seq![':']
            + json_opt_string(request.query))) + seq!['}'],
{
    reveal_with_fuel(joined, 5);
    let fields = seq![
        ("body"@, json_opt_string(request.body)),
        ("headers"@, headers_json(request.headers)),
        ("message"@, json_string(message)),
        ("query"@, json_opt_string(request.query)),
    ];
    let parts = fields.map_values(|f: (Seq<char>, Seq<char>)| json_string(f.0) + seq![':'] + f.1);
    assert(parts.len() == 4);
    assert(parts.drop_last().drop_last().drop_last().len() == 1);
}

/// The headers of a request are recorded as a JSON object in which each header
/// is a field, name and value, in order.
pub proof fn payloads_have_every_header(headers: Seq<(Seq<char>, Seq<char>)>, at: int)
    ensures
        0 <= at < headers.len() ==> has_part(
            headers_json(headers),
            json_string(headers[at].0) + seq![':'] + json_string(headers[at].1),
        ),
        headers_json(headers) == seq!['{'] + joined(
            headers.map_values(|h: (Seq<char>, Seq<char>)| json_string(h.0) + seq![':'] + json_string(h.1)),
            seq![','],
        ) + seq!['}'],
{
    let fields = with_values(headers, |v: Seq<char>| json_string(v));
    let parts = fields.map_values(|f: (Seq<char>, Seq<char>)| json_string(f.0) + seq![':'] + f.1);
    assert(parts =~= headers.map_values(
        |h: (Seq<char>, Seq<char>)| json_string(h.0) + seq![':'] + json_string(h.1),
    ));
    if 0 <= at < headers.len() {
        joined_parts_are_there(parts, seq![','], at);
        part_stays_within(seq!['{'], joined(parts, seq![',']), seq!['}'], parts[at]);
    }
}

/// A preview of a blocked request has its body, cut off behind 1024 characters,
/// its headers, its method, its path and its query.
pub proof fn previews_have_five_fields(request: RequestView)
    ensures
        blocked_request_preview(request) == seq!['{'] + (json_string("body"@) + seq![':'] + json_opt_string(
            match request.body {
                Some(body) => Some(cut_off(body, 1024)),
                None => None,
            },
        ) + seq![','] + (json_string("headers"@) + seq![':'] + preview_headers_json(request.headers)) + seq![','] + (
        json_string("method"@) + seq![':'] + json_string(request.method)) + seq![','] + (json_string("path"@) + seq![':']
            + json_string(request.path)) + seq![','] + (json_string("query"@) + seq![':'] + json_opt_string(
            request.query,
        ))) + seq!['}'],
{
    reveal_with_fuel(joined, 6);
    let body = match request.body {
        Some(body) => Some(cut_off(body, 1024)),
        None => None,
    };
    let fields = seq![
        ("body"@, json_opt_string(body)),
        ("headers"@, preview_headers_json(request.headers)),
        ("method"@, json_string(request.method)),
        ("path"@, json_string(request.path)),
        ("query"@, json_opt_string(request.query)),
    ];
    let parts = fields.map_values(|f: (Seq<char>, Seq<char>)| json_string(f.0) + seq![':'] + f.1);
    assert(parts.len() == 5);
    assert(parts.drop_last().drop_last().drop_last().drop_last().len() == 1);
}

/// The headers of a preview are pairs of name and value, in order, each value
/// cut off behind 256 characters.
pub proof fn previews_have_every_header(headers: Seq<(Seq<char>, Seq<char>)>)
    ensures
        preview_headers_json(headers) == seq!['['] + joined(
            headers.map_values(
                |h: (Seq<char>, Seq<char>)|
                    seq!['['] + (json_string(h.0) + seq![','] + json_string(cut_off(h.1, 256))) + seq![']'],
            ),
            seq![','],
        ) + seq![']'],
{
    let wanted = headers.map_values(
        |h: (Seq<char>, Seq<char>)|
            seq!['['] + (json_string(h.0) + seq![','] + json_string(cut_off(h.1, 256))) + seq![']'],
    );
    let made = headers.map_values(|h: (Seq<char>, Seq<char>)| preview_header(h));
    assert forall|i: int| 0 <= i < headers.len() implies wanted[i] == made[i] by {
        reveal_with_fuel(joined, 3);
        let pair = seq![json_string(headers[i].0), json_string(cut_off(headers[i].1, 256))];
        assert(pair.drop_last().len() == 1);
        assert(pair.drop_last()[0] == pair[0]);
    }
    assert(wanted =~= made);
}

} // verus!
