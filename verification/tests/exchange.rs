//! Requests as the analyzer sees them, and what decisions lead to.
use axum::http::{HeaderMap, HeaderValue};
use rust_waf::exchange::{
    action_text, blocked_response, build_analysis_request, build_attack_payload, build_blocked_request_preview,
    build_request_url, handle_decision, reason_text, truncate_preview, Handling,
};
use rust_waf::models::{AnalysisDecision, AnalysisRequest, DecisionAction, DecisionReason};
use rust_waf::text_map::TextMap;

fn request() -> AnalysisRequest {
    AnalysisRequest {
        source_ip: "127.0.0.1".to_string(),
        method: "POST".to_string(),
        path: "/login".to_string(),
        query: Some("return=/admin".to_string()),
        headers: TextMap::from_pairs(vec![
            ("x-auth-token".to_string(), "abc\"123".to_string()),
            ("content-type".to_string(), "application/json".to_string()),
        ]),
        body: None,
    }
}

fn decision(action: DecisionAction) -> AnalysisDecision {
    AnalysisDecision {
        action,
        reason: DecisionReason::SignatureMatch,
        matched_rule_id: Some("942100".to_string()),
        message: "matched \"union\"".to_string(),
    }
}

#[test]
fn blocked_request_preview_includes_request_parts_and_truncates_body() {
    let request = AnalysisRequest {
        source_ip: "127.0.0.1".to_string(),
        method: "POST".to_string(),
        path: "/login".to_string(),
        query: Some("return=/admin".to_string()),
        headers: TextMap::from_pairs(vec![
            ("content-type".to_string(), "application/json".to_string()),
            ("x-auth-token".to_string(), "abc123".to_string()),
        ]),
        body: Some("x".repeat(1100)),
    };

    let preview = build_blocked_request_preview(&request).expect("request preview serialization should succeed");

    assert!(preview.contains("\"method\":\"POST\""));
    assert!(preview.contains("\"path\":\"/login\""));
    assert!(preview.contains("\"query\":\"return=/admin\""));
    assert!(preview.contains("\"content-type\",\"application/json\""));
    assert!(preview.contains("\"x-auth-token\",\"abc123\""));
    assert!(preview.contains("..."));
}

#[test]
fn preview_is_this_text() {
    assert_eq!(
        build_blocked_request_preview(&request()).unwrap(),
        "{\"body\":null,\"headers\":[[\"content-type\",\"application/json\"],[\"x-auth-token\",\"abc\\\"123\"]],\
         \"method\":\"POST\",\"path\":\"/login\",\"query\":\"return=/admin\"}"
    );
}

#[test]
fn preview_cuts_header_values_off() {
    let mut long = request();
    long.headers = TextMap::from_pairs(vec![("a".to_string(), "v".repeat(300))]);
    let preview = build_blocked_request_preview(&long).unwrap();
    assert!(preview.contains(&format!("[\"a\",\"{}...\"]", "v".repeat(256))));
}

#[test]
fn payload_is_this_text() {
    let mut told = request();
    told.body = Some("tab\tand\u{1}\u{7f}".to_string());
    assert_eq!(
        build_attack_payload(&told, "why \\ not").unwrap(),
        "{\"body\":\"tab\\tand\\u0001\u{7f}\",\"headers\":{\"content-type\":\"application/json\",\
         \"x-auth-token\":\"abc\\\"123\"},\"message\":\"why \\\\ not\",\"query\":\"return=/admin\"}"
    );
}

#[test]
fn payload_without_headers_and_query() {
    let bare = AnalysisRequest { query: None, headers: TextMap::new(), ..request() };
    assert_eq!(
        build_attack_payload(&bare, "").unwrap(),
        "{\"body\":null,\"headers\":{},\"message\":\"\",\"query\":null}"
    );
}

#[test]
fn previews_are_cut_off_behind_the_limit() {
    assert_eq!(truncate_preview("abc", 3), "abc");
    assert_eq!(truncate_preview("abcd", 3), "abc...");
    assert_eq!(truncate_preview("", 0), "");
    assert_eq!(truncate_preview("äöü", 2), "äö...");
}

#[test]
fn request_url_has_a_question_mark_only_with_a_query() {
    assert_eq!(build_request_url("/a", None), "/a");
    assert_eq!(build_request_url("/a", Some("")), "/a");
    assert_eq!(build_request_url("/a", Some("b=1")), "/a?b=1");
}

#[test]
fn analysis_request_takes_the_last_visible_value() {
    let mut headers = HeaderMap::new();
    headers.append("x-a", HeaderValue::from_static("one"));
    headers.append("x-b", HeaderValue::from_bytes(b"\xff").unwrap());
    headers.append("x-a", HeaderValue::from_static("two"));
    headers.append("x-a", HeaderValue::from_bytes(b"\xfe").unwrap());

    let seen = build_analysis_request(&headers, "GET", "/p", Some("q=1"), b"body", "10.0.0.1");

    assert_eq!(seen.source_ip, "10.0.0.1");
    assert_eq!(seen.method, "GET");
    assert_eq!(seen.path, "/p");
    assert_eq!(seen.query.as_deref(), Some("q=1"));
    assert_eq!(seen.headers.get("x-a").map(String::as_str), Some("two"));
    assert!(seen.headers.get("x-b").is_none());
    assert_eq!(seen.headers.len(), 1);
    assert_eq!(seen.body.as_deref(), Some("body"));
}

#[test]
fn empty_body_is_no_body_and_broken_utf8_is_replaced() {
    let seen = build_analysis_request(&HeaderMap::new(), "GET", "/", None, b"", "::1");
    assert_eq!(seen.body, None);
    assert_eq!(seen.query, None);
    let seen = build_analysis_request(&HeaderMap::new(), "GET", "/", None, b"a\xffb", "::1");
    assert_eq!(seen.body.as_deref(), Some("a\u{fffd}b"));
}

#[test]
fn blocked_requests_are_recorded_and_refused() {
    match handle_decision(&request(), &decision(DecisionAction::Block)).unwrap() {
        Handling::RecordAndRefuse(log, response) => {
            assert_eq!(log.source_ip, "127.0.0.1");
            assert_eq!(log.request_method.as_deref(), Some("POST"));
            assert_eq!(log.request_url.as_deref(), Some("/login?return=/admin"));
            assert_eq!(log.matched_rule_id.as_deref(), Some("942100"));
            assert_eq!(log.attack_type.as_deref(), Some("SignatureMatch"));
            assert_eq!(log.action_taken, "block");
            assert!(log.payload.unwrap().contains("matched \\\"union\\\""));
            assert_eq!(response.status, 403);
            assert_eq!(response.content_type, "application/json");
            assert_eq!(
                response.body,
                "{\"error\":\"request blocked\",\"reason\":\"matched \\\"union\\\"\"}"
            );
        }
        other => panic!("{other:?}"),
    }
}

#[test]
fn logged_requests_are_recorded_and_forwarded() {
    match handle_decision(&request(), &decision(DecisionAction::Log)).unwrap() {
        Handling::RecordAndForward(log) => assert_eq!(log.action_taken, "log"),
        other => panic!("{other:?}"),
    }
}

#[test]
fn allowed_requests_are_just_forwarded() {
    let handling = handle_decision(&request(), &decision(DecisionAction::Allow)).unwrap();
    assert!(matches!(handling, Handling::Forward));
}

#[test]
fn names_of_reasons_and_actions_are_those_of_the_variants() {
    for reason in [
        DecisionReason::IpBlacklist,
        DecisionReason::IpWhitelist,
        DecisionReason::MethodNotAllowed,
        DecisionReason::MissingMandatoryHeader,
        DecisionReason::HeaderNotAllowed,
        DecisionReason::BodyTooLarge,
        DecisionReason::TooManyParams,
        DecisionReason::SignatureMatch,
        DecisionReason::WafDisabled,
        DecisionReason::Passed,
    ] {
        assert_eq!(reason_text(reason), format!("{reason:?}"));
    }
    for action in [DecisionAction::Allow, DecisionAction::Block, DecisionAction::Log] {
        assert_eq!(action_text(action), format!("{action:?}").to_ascii_lowercase());
    }
}

#[test]
fn only_double_quotes_are_escaped_in_the_answer() {
    assert_eq!(
        blocked_response("a\\b'c\"d").body,
        "{\"error\":\"request blocked\",\"reason\":\"a\\b'c\\\"d\"}"
    );
}
