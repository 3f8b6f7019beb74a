//! From a request that came in to what the analyzer sees of it, and from a
//! decision to what is recorded and answered.
use crate::decode::{lossy_text, lossy_text_of};
use crate::forward::opt_str;
use crate::headers::{
    header_entries, header_lists, header_pairs, is_visible_ascii, name_text, value_bytes, values_among,
    values_under,
};
use crate::models::{
    copy_text, header_texts, opt_text, AnalysisDecision, AnalysisRequest, DecisionAction, DecisionReason,
    DecisionView, NewAttackLog, RequestView,
};
use crate::outside::{
    json_array, json_fields, json_from_fields, json_from_text, json_from_values, json_object, json_opt_string,
    json_string, json_text, json_texts, json_to_text,
};
use crate::proxy::ProxyError;
use crate::text::{chars_of, replace_char, replaced, text_between};
use crate::text_map::{
    ascending, lookup, lookup_after_put, put_commutes, put_keeps_order, text_before, with_values, TextMap,
};
use axum::http::HeaderMap;
use vstd::prelude::*;
use vstd::utf8::*;

verus! {

/// The text of the last of some header values that is visible ASCII.
pub open spec fn last_visible(values: Seq<Seq<u8>>) -> Option<Seq<char>>
    decreases values.len(),
{
    if values.len() == 0 {
        None
    } else if is_visible_ascii(values.last()) {
        Some(decode_utf8(values.last()))
    } else {
        last_visible(values.drop_last())
    }
}

/// The headers as texts: each name with the last of its values that is visible
/// ASCII, if it has one.
fn visible_headers(headers: &HeaderMap) -> (texts: TextMap<String>)
    ensures
        ascending(header_texts(texts)),
        forall|name: Seq<char>| #[trigger]
            lookup(header_texts(texts), name) == last_visible(values_under(header_lists(*headers), name)),
{
    let pairs = header_entries(headers);
    let ghost all = header_pairs(pairs@);
    let ghost source = header_lists(*headers);
    let ghost view = |v: String| v@;
    let mut texts: TextMap<String> = TextMap::new();
    let mut i: usize = 0;
    while i < pairs.len()
        invariant
            i <= pairs@.len(),
            all == header_pairs(pairs@),
            source == header_lists(*headers),
            view == (|v: String| v@),
            forall|name: Seq<char>| #[trigger] values_among(all, name) == values_under(source, name),
            ascending(header_texts(texts)),
            forall|name: Seq<char>| #[trigger]
                lookup(header_texts(texts), name) == last_visible(values_among(all.take(i as int), name)),
        decreases pairs@.len() - i,
    {
        let ghost before = header_texts(texts);
        let ghost key = name_text(pairs@[i as int].0);
        let ghost bytes = value_bytes(pairs@[i as int].1);
        proof {
            assert(all.take(i + 1).drop_last() =~= all.take(i as int));
            assert(all[i as int] == (key, bytes));
        }
        if let Ok(value) = pairs[i].1.to_str() {
            let text = value.to_string();
            proof {
                encode_utf8_decode_utf8(text@);
                put_commutes(texts@, key, text, view);
                put_keeps_order(before, key, text@);
            }
            texts.insert(pairs[i].0.as_str().to_string(), text);
            proof {
                assert forall|n: Seq<char>| #[trigger]
                    lookup(header_texts(texts), n) == last_visible(values_among(all.take(i + 1), n)) by {
                    lookup_after_put(before, key, text@, n);
                    assert(lookup(before, n) == last_visible(values_among(all.take(i as int), n)));
                }
            }
        } else {
            proof {
                assert forall|n: Seq<char>| #[trigger]
                    lookup(header_texts(texts), n) == last_visible(values_among(all.take(i + 1), n)) by {
                    assert(lookup(before, n) == last_visible(values_among(all.take(i as int), n)));
                    let rest = values_among(all.take(i as int), n);
                    assert(rest.push(bytes).drop_last() =~= rest);
                }
            }
        }
        i += 1;
    }
    proof {
        assert(all.take(all.len() as int) =~= all);
        assert forall|n: Seq<char>| #[trigger]
            lookup(header_texts(texts), n) == last_visible(values_under(source, n)) by {
            assert(values_among(all, n) == values_under(source, n));
        }
    }
    texts
}

/// What the analyzer sees of a request.
pub fn build_analysis_request(
    headers: &HeaderMap,
    method: &str,
    path: &str,
    query: Option<&str>,
    body_bytes: &[u8],
    source_ip: &str,
) -> (request: AnalysisRequest)
    ensures
        request@.source_ip == source_ip@,
        request@.method == method@,
        request@.path == path@,
        request@.query == opt_str(query),
        ascending(request@.headers),
        forall|name: Seq<char>| #[trigger]
            lookup(request@.headers, name) == last_visible(values_under(header_lists(*headers), name)),
        request@.body == (if body_bytes@.len() == 0 {
            None
        } else {
            Some(lossy_text(body_bytes@))
        }),
{
    let query = match query {
        Some(q) => Some(q.to_string()),
        None => None,
    };
    let body = if body_bytes.len() == 0 {
        None
    } else {
        Some(lossy_text_of(body_bytes))
    };
    AnalysisRequest {
        source_ip: source_ip.to_string(),
        method: method.to_string(),
        path: path.to_string(),
        query,
        headers: visible_headers(headers),
        body,
    }
}

/// The path and query of a request, as one text.
pub open spec fn request_url(path: Seq<char>, query: Option<Seq<char>>) -> Seq<char> {
    match query {
        Some(q) => if q.len() == 0 {
            path
        } else {
            path + "?"@ + q
        },
        None => path,
    }
}

/// The path and query of a request, as one text.
pub fn build_request_url(path: &str, query: Option<&str>) -> (url: String)
    ensures
        url@ == request_url(path@, opt_str(query)),
{
    let mut url = path.to_string();
    if let Some(q) = query {
        if !q.is_empty() {
            url.append("?");
            url.append(q);
        }
    }
    url
}

/// A text cut off behind so many characters, with three dots where something is
/// missing.
pub open spec fn cut_off(text: Seq<char>, max_len: nat) -> Seq<char> {
    if text.len() <= max_len {
        text
    } else {
        text.take(max_len as int) + "..."@
    }
}

/// A text cut off behind so many characters, with three dots where something is
/// missing.
pub fn truncate_preview(value: &str, max_len: usize) -> (cut: String)
    ensures
        cut@ == cut_off(value@, max_len as nat),
{
    let chars = chars_of(value);
    if chars.len() <= max_len {
        return value.to_string();
    }
    let mut cut = text_between(&chars, 0, max_len);
    proof {
        assert(chars@.subrange(0, max_len as int) =~= chars@.take(max_len as int));
    }
    cut.append("...");
    cut
}

/// A text that is cut off has at most three characters more than allowed, and
/// what is kept of it is what it begins with.
pub proof fn cut_off_is_short(text: Seq<char>, max_len: nat)
    ensures
        cut_off(text, max_len).len() <= max_len + 3,
        text.len() <= max_len ==> cut_off(text, max_len) == text,
        text.len() > max_len ==> cut_off(text, max_len).take(max_len as int) == text.take(max_len as int),
{
    reveal_strlit("...");
    if text.len() > max_len {
        assert(cut_off(text, max_len).take(max_len as int) =~= text.take(max_len as int));
    }
}

/// The keys of the recorded payload ascend.
proof fn payload_keys_ascend()
    ensures
        text_before("body"@, "headers"@),
        text_before("headers"@, "message"@),
        text_before("headers"@, "method"@),
        text_before("message"@, "query"@),
        text_before("method"@, "path"@),
        text_before("path"@, "query"@),
        text_before("body"@, "message"@),
        text_before("body"@, "method"@),
        text_before("body"@, "path"@),
        text_before("body"@, "query"@),
        text_before("headers"@, "path"@),
        text_before("headers"@, "query"@),
        text_before("method"@, "query"@),
{
    reveal_strlit("body");
    reveal_strlit("headers");
    reveal_strlit("message");
    reveal_strlit("method");
    reveal_strlit("path");
    reveal_strlit("query");
}

/// The JSON text of headers: an object from names to values.
pub open spec fn headers_json(headers: Seq<(Seq<char>, Seq<char>)>) -> Seq<char> {
    json_object(with_values(headers, |v: Seq<char>| json_string(v)))
}

/// The JSON value of headers: an object from names to values.
fn headers_value(headers: &TextMap<String>) -> (value: serde_json::Value)
    ensures
        json_text(value) == headers_json(header_texts(*headers)),
{
    let ghost wanted = with_values(header_texts(*headers), |v: Seq<char>| json_string(v));
    let mut fields: Vec<(String, serde_json::Value)> = Vec::new();
    let mut i: usize = 0;
    while i < headers.len()
        invariant
            i <= headers@.len(),
            wanted == with_values(header_texts(*headers), |v: Seq<char>| json_string(v)),
            json_fields(fields@) =~= wanted.take(i as int),
        decreases headers@.len() - i,
    {
        let ghost before = json_fields(fields@);
        let value = json_from_text(Some(headers.value_at(i).clone()));
        let ghost text = json_text(value);
        fields.push((headers.key_at(i).to_string(), value));
        proof {
            assert(wanted[i as int] == (headers@[i as int].0, text));
            assert(json_fields(fields@) =~= before.push(wanted[i as int]));
        }
        i += 1;
    }
    let count: usize = headers.len();
    proof {
        assert(json_fields(fields@) =~= wanted);
        assert(ascending(wanted)) by {
            assert(ascending(headers@));
            assert forall|a: int, b: int|
                #![trigger wanted[a], wanted[b]]
                0 <= a < b < wanted.len() implies text_before(wanted[a].0, wanted[b].0) by {
                assert(wanted[a].0 == headers@[a].0 && wanted[b].0 == headers@[b].0);
            }
        }
    }
    json_from_fields(fields)
}

/// What is recorded of a request that was not passed: a JSON object.
pub open spec fn attack_payload(request: RequestView, message: Seq<char>) -> Seq<char> {
    json_object(
        seq![
            ("body"@, json_opt_string(request.body)),
            ("headers"@, headers_json(request.headers)),
            ("message"@, json_string(message)),
            ("query"@, json_opt_string(request.query)),
        ],
    )
}

/// What is recorded of a request that was not passed.
pub fn build_attack_payload(request: &AnalysisRequest, message: &str) -> (payload: Result<String, ProxyError>)
    ensures
        match payload {
            Ok(text) => text@ == attack_payload(request@, message@),
            Err(_) => false,
        },
{
    let mut fields: Vec<(String, serde_json::Value)> = Vec::new();
    fields.push(("body".to_string(), json_from_text(copy_text(&request.body))));
    fields.push(("headers".to_string(), headers_value(&request.headers)));
    fields.push(("message".to_string(), json_from_text(Some(message.to_string()))));
    fields.push(("query".to_string(), json_from_text(copy_text(&request.query))));
    proof {
        payload_keys_ascend();
        assert(json_fields(fields@) =~= seq![
            ("body"@, json_opt_string(request@.body)),
            ("headers"@, headers_json(request@.headers)),
            ("message"@, json_string(message@)),
            ("query"@, json_opt_string(request@.query)),
        ]);
    }
    match json_to_text(&json_from_fields(fields)) {
        Ok(text) => Ok(text),
        Err(_) => Err(ProxyError::UnserializedPayload),
    }
}

/// The JSON text of a header in a preview: its name, and its value cut off.
pub open spec fn preview_header(header: (Seq<char>, Seq<char>)) -> Seq<char> {
    json_array(seq![json_string(header.0), json_string(cut_off(header.1, 256))])
}

/// The JSON text of the headers in a preview.
pub open spec fn preview_headers_json(headers: Seq<(Seq<char>, Seq<char>)>) -> Seq<char> {
    json_array(headers.map_values(|h: (Seq<char>, Seq<char>)| preview_header(h)))
}

/// The body in a preview.
pub open spec fn preview_body(body: Option<Seq<char>>) -> Option<Seq<char>> {
    match body {
        Some(b) => Some(cut_off(b, 1024)),
        None => None,
    }
}

/// A preview of a blocked request: a JSON object in which values are cut off.
pub open spec fn blocked_request_preview(request: RequestView) -> Seq<char> {
    json_object(
        seq![
            ("body"@, json_opt_string(preview_body(request.body))),
            ("headers"@, preview_headers_json(request.headers)),
            ("method"@, json_string(request.method)),
            ("path"@, json_string(request.path)),
            ("query"@, json_opt_string(request.query)),
        ],
    )
}

/// The JSON value of headers in a preview.
fn preview_headers(headers: &TextMap<String>) -> (value: serde_json::Value)
    ensures
        json_text(value) == preview_headers_json(header_texts(*headers)),
{
    let ghost wanted = header_texts(*headers).map_values(|h: (Seq<char>, Seq<char>)| preview_header(h));
    let mut items: Vec<serde_json::Value> = Vec::new();
    let mut i: usize = 0;
    while i < headers.len()
        invariant
            i <= headers@.len(),
            wanted == header_texts(*headers).map_values(|h: (Seq<char>, Seq<char>)| preview_header(h)),
            json_texts(items@) =~= wanted.take(i as int),
        decreases headers@.len() - i,
    {
        let ghost before = json_texts(items@);
        let mut pair: Vec<serde_json::Value> = Vec::new();
        pair.push(json_from_text(Some(headers.key_at(i).to_string())));
        pair.push(json_from_text(Some(truncate_preview(headers.value_at(i).as_str(), 256))));
        proof {
            assert(json_texts(pair@) =~= seq![
                json_string(headers@[i as int].0),
                json_string(cut_off(headers@[i as int].1@, 256)),
            ]);
        }
        items.push(json_from_values(pair));
        proof {
            assert(json_texts(items@) =~= before.push(wanted[i as int]));
        }
        i += 1;
    }
    proof {
        assert(wanted.take(wanted.len() as int) =~= wanted);
    }
    json_from_values(items)
}

/// A preview of a blocked request.
pub fn build_blocked_request_preview(request: &AnalysisRequest) -> (preview: Result<String, ProxyError>)
    ensures
        match preview {
            Ok(text) => text@ == blocked_request_preview(request@),
            Err(_) => false,
        },
{
    let body = match &request.body {
        Some(body) => Some(truncate_preview(body.as_str(), 1024)),
        None => None,
    };
    proof {
        assert(opt_text(body) == preview_body(request@.body));
    }
    let mut fields: Vec<(String, serde_json::Value)> = Vec::new();
    fields.push(("body".to_string(), json_from_text(body)));
    fields.push(("headers".to_string(), preview_headers(&request.headers)));
    fields.push(("method".to_string(), json_from_text(Some(request.method.clone()))));
    fields.push(("path".to_string(), json_from_text(Some(request.path.clone()))));
    fields.push(("query".to_string(), json_from_text(copy_text(&request.query))));
    proof {
        payload_keys_ascend();
        assert(json_fields(fields@) =~= seq![
            ("body"@, json_opt_string(preview_body(request@.body))),
            ("headers"@, preview_headers_json(request@.headers)),
            ("method"@, json_string(request@.method)),
            ("path"@, json_string(request@.path)),
            ("query"@, json_opt_string(request@.query)),
        ]);
    }
    match json_to_text(&json_from_fields(fields)) {
        Ok(text) => Ok(text),
        Err(_) => Err(ProxyError::UnserializedPreview),
    }
}

/// The name of a reason, under which it is recorded.
pub open spec fn reason_name(reason: DecisionReason) -> Seq<char> {
    match reason {
        DecisionReason::IpBlacklist => "IpBlacklist"@,
        DecisionReason::IpWhitelist => "IpWhitelist"@,
        DecisionReason::MethodNotAllowed => "MethodNotAllowed"@,
        DecisionReason::MissingMandatoryHeader => "MissingMandatoryHeader"@,
        DecisionReason::HeaderNotAllowed => "HeaderNotAllowed"@,
        DecisionReason::BodyTooLarge => "BodyTooLarge"@,
        DecisionReason::TooManyParams => "TooManyParams"@,
        DecisionReason::SignatureMatch => "SignatureMatch"@,
        DecisionReason::WafDisabled => "WafDisabled"@,
        DecisionReason::Passed => "Passed"@,
    }
}

/// The name of a reason, under which it is recorded.
pub fn reason_text(reason: DecisionReason) -> (name: &'static str)
    ensures
        name@ == reason_name(reason),
{
    match reason {
        DecisionReason::IpBlacklist => "IpBlacklist",
        DecisionReason::IpWhitelist => "IpWhitelist",
        DecisionReason::MethodNotAllowed => "MethodNotAllowed",
        DecisionReason::MissingMandatoryHeader => "MissingMandatoryHeader",
        DecisionReason::HeaderNotAllowed => "HeaderNotAllowed",
        DecisionReason::BodyTooLarge => "BodyTooLarge",
        DecisionReason::TooManyParams => "TooManyParams",
        DecisionReason::SignatureMatch => "SignatureMatch",
        DecisionReason::WafDisabled => "WafDisabled",
        DecisionReason::Passed => "Passed",
    }
}

/// The name of an action, under which it is recorded.
pub open spec fn action_name(action: DecisionAction) -> Seq<char> {
    match action {
        DecisionAction::Allow => "allow"@,
        DecisionAction::Block => "block"@,
        DecisionAction::Log => "log"@,
    }
}

/// The name of an action, under which it is recorded.
pub fn action_text(action: DecisionAction) -> (name: &'static str)
    ensures
        name@ == action_name(action),
{
    match action {
        DecisionAction::Allow => "allow",
        DecisionAction::Block => "block",
        DecisionAction::Log => "log",
    }
}

/// Whether a record is the one that belongs to a request and the decision on
/// it.
pub open spec fn records(log: NewAttackLog, request: RequestView, decision: DecisionView) -> bool {
    &&& log.source_ip@ == request.source_ip
    &&& opt_text(log.request_method) == Some(request.method)
    &&& opt_text(log.request_url) == Some(request_url(request.path, request.query))
    &&& opt_text(log.matched_rule_id) == decision.matched_rule_id
    &&& opt_text(log.attack_type) == Some(reason_name(decision.reason))
    &&& opt_text(log.payload) == Some(attack_payload(request, decision.message))
    &&& log.action_taken@ == action_name(decision.action)
}

/// The record that belongs to a request and the decision on it.
pub fn attack_record(request: &AnalysisRequest, decision: &AnalysisDecision) -> (log: Result<NewAttackLog, ProxyError>)
    ensures
        match log {
            Ok(l) => records(l, request@, decision@),
            Err(_) => false,
        },
{
    let query = match &request.query {
        Some(q) => Some(q.as_str()),
        None => None,
    };
    let payload = match build_attack_payload(request, decision.message.as_str()) {
        Ok(text) => text,
        Err(e) => return Err(e),
    };
    Ok(
        NewAttackLog {
            source_ip: request.source_ip.clone(),
            request_method: Some(request.method.clone()),
            request_url: Some(build_request_url(request.path.as_str(), query)),
            matched_rule_id: copy_text(&decision.matched_rule_id),
            attack_type: Some(reason_text(decision.reason).to_string()),
            payload: Some(payload),
            action_taken: action_text(decision.action).to_string(),
        },
    )
}

/// The body of the answer to a blocked request.
pub open spec fn blocked_body(message: Seq<char>) -> Seq<char> {
    "{\"error\":\"request blocked\",\"reason\":\""@ + replaced(message, '"', "\\\""@) + "\"}"@
}

/// The answer to a blocked request.
#[derive(Debug, Clone)]
pub struct BlockedResponse {
    pub status: u16,
    pub content_type: String,
    pub body: String,
}

/// The answer to a request that was blocked for a reason.
pub fn blocked_response(message: &str) -> (response: BlockedResponse)
    ensures
        response.status == 403,
        response.content_type@ == "application/json"@,
        response.body@ == blocked_body(message@),
{
    let reason = replace_char(message, '"', "\\\"");
    let mut body = "{\"error\":\"request blocked\",\"reason\":\"".to_string();
    body.append(reason.as_str());
    body.append("\"}");
    BlockedResponse { status: 403, content_type: "application/json".to_string(), body }
}

/// What is to be done with a request once it has been decided on.
#[derive(Debug, Clone)]
pub enum Handling {
    /// It is passed on.
    Forward,
    /// It is recorded, and then passed on.
    RecordAndForward(NewAttackLog),
    /// It is recorded, and then answered instead of being passed on.
    RecordAndRefuse(NewAttackLog, BlockedResponse),
}

/// What is to be done with a request once it has been decided on: a request
/// that is not allowed is recorded, and one that is blocked is answered instead
/// of being passed on.
pub fn handle_decision(request: &AnalysisRequest, decision: &AnalysisDecision) -> (handling: Result<
    Handling,
    ProxyError,
>)
    ensures
        match handling {
            Ok(Handling::Forward) => decision.action is Allow,
            Ok(Handling::RecordAndForward(log)) => decision.action is Log && records(log, request@, decision@),
            Ok(Handling::RecordAndRefuse(log, response)) => {
                &&& decision.action is Block
                &&& records(log, request@, decision@)
                &&& response.status == 403
                &&& response.content_type@ == "application/json"@
                &&& response.body@ == blocked_body(decision.message@)
            },
            Err(_) => false,
        },
{
    match decision.action {
        DecisionAction::Allow => Ok(Handling::Forward),
        DecisionAction::Log => match attack_record(request, decision) {
            Ok(log) => Ok(Handling::RecordAndForward(log)),
            Err(e) => Err(e),
        },
        DecisionAction::Block => match attack_record(request, decision) {
            Ok(log) => Ok(Handling::RecordAndRefuse(log, blocked_response(decision.message.as_str()))),
            Err(e) => Err(e),
        },
    }
}

} // verus!
