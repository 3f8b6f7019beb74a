//! Decisions on whole requests, and the steps that lead to them.
use rust_waf::analyzer::Analyzer;
use rust_waf::config::SharedState;
use rust_waf::decode::{decode_html_entities, recursive_url_decode};
use rust_waf::models::{
    AccessListType, AnalysisDecision, AnalysisRequest, Config, DecisionAction, DecisionReason, EndpointPolicy,
    GlobalDefaults, IpAccessEntry, NewIpAccessEntry, Rule, SecurityPolicies, Severity, WafMode,
};
use rust_waf::normalize::{
    count_query_params, normalize_body, normalize_headers, normalize_method, normalize_request,
    should_inspect_header_for_signatures,
};
use rust_waf::policy::is_implicit_allowed_header;
use rust_waf::text_map::TextMap;

fn test_config(mode: WafMode, is_enabled: bool) -> Config {
    Config {
        mode,
        is_enabled,
        target_url: "http://localhost:3000".to_string(),
        admin_port: 8081,
        interceptor_port: 443,
        interceptor_host: "0.0.0.0".to_string(),
        tls_cert_path: "data/certs/test.pem".to_string(),
        tls_key_path: "data/certs/test-key.pem".to_string(),
    }
}

fn test_rules() -> Vec<Rule> {
    vec![
        Rule {
            id: "942100".to_string(),
            name: "SQL Injection Attack".to_string(),
            regex: "(?i)(union\\s+select|or\\s+1=1|select)".to_string(),
            severity: Severity::High,
        },
        Rule {
            id: "941220".to_string(),
            name: "XSS Attack".to_string(),
            regex: "(?i)<script|onerror\\s*=".to_string(),
            severity: Severity::High,
        },
    ]
}

fn test_policies() -> SecurityPolicies {
    let mut endpoints = TextMap::new();
    endpoints.insert(
        "/strict".to_string(),
        EndpointPolicy {
            allowed_methods: vec!["POST".to_string()],
            allowed_headers: vec!["X-Trace-Id".to_string()],
            mandatory_headers: vec!["Content-Type".to_string()],
            max_body_size_kb: Some(1),
            max_params: Some(2),
            description: Some("strict policy".to_string()),
        },
    );
    endpoints.insert(
        "/defaults".to_string(),
        EndpointPolicy {
            allowed_methods: Vec::new(),
            allowed_headers: vec!["X-Custom".to_string()],
            mandatory_headers: Vec::new(),
            max_body_size_kb: None,
            max_params: None,
            description: Some("uses global defaults".to_string()),
        },
    );

    SecurityPolicies {
        global_defaults: GlobalDefaults {
            allowed_methods: vec!["GET".to_string(), "POST".to_string()],
            allowed_headers: vec![
                "User-Agent".to_string(),
                "Content-Type".to_string(),
                "Accept".to_string(),
            ],
            max_body_size_kb: 8,
        },
        endpoints,
    }
}

fn build_request(path: &str) -> AnalysisRequest {
    AnalysisRequest {
        source_ip: "203.0.113.10".to_string(),
        method: "GET".to_string(),
        path: path.to_string(),
        query: None,
        headers: TextMap::from_pairs(vec![
            ("User-Agent".to_string(), "curl/8.0".to_string()),
            ("Accept".to_string(), "application/json".to_string()),
        ]),
        body: None,
    }
}

fn build_analyzer(mode: WafMode, is_enabled: bool) -> Analyzer {
    let state = SharedState::new(test_config(mode, is_enabled), test_rules(), test_policies());
    Analyzer::new(state.expect("the rules compile"))
}

fn stored(entry: &NewIpAccessEntry) -> IpAccessEntry {
    IpAccessEntry {
        id: 1,
        ip_address: entry.ip_address.clone(),
        list_type: entry.list_type.as_str().to_string(),
        comment: entry.comment.clone(),
        expires_at: entry.expires_at.clone(),
        created_at: "2024-01-01 00:00:00".to_string(),
    }
}

#[test]
fn normalize_method_uppercases_and_trims() {
    assert_eq!(normalize_method(" post "), "POST");
}

#[test]
fn normalize_headers_lowercases_names_and_trims_values() {
    let headers = TextMap::from_pairs(vec![
        (" Content-Type ".to_string(), " application/json ".to_string()),
        ("X-Test".to_string(), " value ".to_string()),
    ]);

    let normalized = normalize_headers(&headers);

    assert_eq!(
        normalized.get("content-type").map(String::as_str),
        Some("application/json")
    );
    assert_eq!(normalized.get("x-test").map(String::as_str), Some("value"));
}

#[test]
fn implicit_allowed_headers_include_transport_headers() {
    assert!(is_implicit_allowed_header("host"));
    assert!(is_implicit_allowed_header("content-length"));
    assert!(!is_implicit_allowed_header("x-custom"));
}

#[test]
fn count_query_params_ignores_empty_segments() {
    assert_eq!(count_query_params(Some("a=1&&b=2&")), 2);
    assert_eq!(count_query_params(None), 0);
}

#[test]
fn recursive_url_decode_unwraps_multiple_layers() {
    assert_eq!(recursive_url_decode("%2527", 3), "'");
}

#[test]
fn decode_html_entities_supports_named_and_numeric_values() {
    assert_eq!(decode_html_entities("S&#69;L&#x45;CT &lt;x&gt;"), "SELECT <x>");
}

#[test]
fn normalize_body_decodes_base64_payloads() {
    let normalized = normalize_body("U0VMRUNU");
    assert!(normalized.iter().any(|value| value.contains("select")));
}

#[test]
fn normalize_request_keeps_components_separate() {
    let request = AnalysisRequest {
        source_ip: "127.0.0.1".to_string(),
        method: "POST".to_string(),
        path: "/REST/%2550roducts".to_string(),
        query: Some("q=%2527%2520UNION%2520SELECT".to_string()),
        headers: TextMap::from_pairs(vec![("X-Token".to_string(), "U0VMRUNU".to_string())]),
        body: Some("S&#69;L&#x45;CT".to_string()),
    };

    let normalized = normalize_request(&request);

    assert_eq!(normalized.path, "/rest/products");
    assert_eq!(normalized.query.as_deref(), Some("q=' union select"));
    assert!(normalized
        .headers
        .get("x-token")
        .is_some_and(|values| values.iter().any(|value| value.contains("select"))));
    assert!(normalized.body.iter().any(|value| value.contains("select")));
}

#[test]
fn generic_browser_headers_are_not_signature_targets() {
    assert!(!should_inspect_header_for_signatures("user-agent"));
    assert!(!should_inspect_header_for_signatures("accept"));
    assert!(!should_inspect_header_for_signatures("sec-fetch-dest"));
    assert!(!should_inspect_header_for_signatures("cookie"));
    assert!(should_inspect_header_for_signatures("authorization"));
    assert!(should_inspect_header_for_signatures("x-auth-token"));
}

#[test]
fn apply_mode_keeps_block_in_active_mode() {
    let analyzer = build_analyzer(WafMode::Active, true);
    let decision = AnalysisDecision {
        action: DecisionAction::Block,
        reason: DecisionReason::SignatureMatch,
        matched_rule_id: Some("942100".to_string()),
        message: "blocked".to_string(),
    };

    let applied = analyzer.apply_mode(decision, &WafMode::Active);

    assert_eq!(applied.action, DecisionAction::Block);
    assert_eq!(applied.reason, DecisionReason::SignatureMatch);
}

#[test]
fn apply_mode_converts_block_to_log_in_passive_mode() {
    let analyzer = build_analyzer(WafMode::Passive, true);
    let decision = AnalysisDecision {
        action: DecisionAction::Block,
        reason: DecisionReason::SignatureMatch,
        matched_rule_id: Some("942100".to_string()),
        message: "blocked".to_string(),
    };

    let applied = analyzer.apply_mode(decision, &WafMode::Passive);

    assert_eq!(applied.action, DecisionAction::Log);
    assert_eq!(applied.reason, DecisionReason::SignatureMatch);
    assert_eq!(applied.matched_rule_id.as_deref(), Some("942100"));
    assert!(applied.message.starts_with("passive mode:"));
}

#[test]
fn analyze_allows_when_waf_is_disabled() {
    let analyzer = build_analyzer(WafMode::Active, false);
    let request = build_request("/strict");

    let decision = analyzer.analyze(&request, None);

    assert_eq!(decision.action, DecisionAction::Allow);
    assert_eq!(decision.reason, DecisionReason::WafDisabled);
}

#[test]
fn analyze_blocks_blacklisted_ip() {
    let analyzer = build_analyzer(WafMode::Active, true);
    let entry = stored(&NewIpAccessEntry {
        ip_address: "203.0.113.10".to_string(),
        list_type: AccessListType::Black,
        comment: Some("blocked in test".to_string()),
        expires_at: None,
    });

    let request = build_request("/strict");
    let decision = analyzer.analyze(&request, Some(&entry));

    assert_eq!(decision.action, DecisionAction::Block);
    assert_eq!(decision.reason, DecisionReason::IpBlacklist);
}

#[test]
fn analyze_allows_whitelisted_ip_before_other_checks() {
    let analyzer = build_analyzer(WafMode::Active, true);
    let entry = stored(&NewIpAccessEntry {
        ip_address: "203.0.113.10".to_string(),
        list_type: AccessListType::White,
        comment: Some("allowed in test".to_string()),
        expires_at: None,
    });

    let mut request = build_request("/strict");
    request.method = "DELETE".to_string();
    let decision = analyzer.analyze(&request, Some(&entry));

    assert_eq!(decision.action, DecisionAction::Allow);
    assert_eq!(decision.reason, DecisionReason::IpWhitelist);
}

#[test]
fn analyze_blocks_disallowed_method() {
    let analyzer = build_analyzer(WafMode::Active, true);
    let request = build_request("/strict");

    let decision = analyzer.analyze(&request, None);

    assert_eq!(decision.action, DecisionAction::Block);
    assert_eq!(decision.reason, DecisionReason::MethodNotAllowed);
}

#[test]
fn analyze_blocks_when_mandatory_header_is_missing() {
    let analyzer = build_analyzer(WafMode::Active, true);
    let mut request = build_request("/strict");
    request.method = "POST".to_string();

    let decision = analyzer.analyze(&request, None);

    assert_eq!(decision.action, DecisionAction::Block);
    assert_eq!(decision.reason, DecisionReason::MissingMandatoryHeader);
}

#[test]
fn analyze_blocks_unapproved_header() {
    let analyzer = build_analyzer(WafMode::Active, true);
    let mut request = build_request("/strict");
    request.method = "POST".to_string();
    request
        .headers
        .insert("Content-Type".to_string(), "application/json".to_string());
    request
        .headers
        .insert("X-Blocked".to_string(), "1".to_string());

    let decision = analyzer.analyze(&request, None);

    assert_eq!(decision.action, DecisionAction::Block);
    assert_eq!(decision.reason, DecisionReason::HeaderNotAllowed);
}

#[test]
fn analyze_allows_endpoint_header_extension_over_global_defaults() {
    let analyzer = build_analyzer(WafMode::Active, true);
    let mut request = build_request("/defaults");
    request
        .headers
        .insert("X-Custom".to_string(), "ok".to_string());

    let decision = analyzer.analyze(&request, None);

    assert_eq!(decision.action, DecisionAction::Allow);
    assert_eq!(decision.reason, DecisionReason::Passed);
}

#[test]
fn analyze_blocks_oversized_body() {
    let analyzer = build_analyzer(WafMode::Active, true);
    let mut request = build_request("/strict");
    request.method = "POST".to_string();
    request
        .headers
        .insert("Content-Type".to_string(), "application/json".to_string());
    request
        .headers
        .insert("X-Trace-Id".to_string(), "trace-1".to_string());
    request.body = Some("A".repeat(2048));

    let decision = analyzer.analyze(&request, None);

    assert_eq!(decision.action, DecisionAction::Block);
    assert_eq!(decision.reason, DecisionReason::BodyTooLarge);
}

#[test]
fn analyze_blocks_when_query_param_limit_is_exceeded() {
    let analyzer = build_analyzer(WafMode::Active, true);
    let mut request = build_request("/strict");
    request.method = "POST".to_string();
    request
        .headers
        .insert("Content-Type".to_string(), "application/json".to_string());
    request
        .headers
        .insert("X-Trace-Id".to_string(), "trace-2".to_string());
    request.query = Some("a=1&b=2&c=3".to_string());

    let decision = analyzer.analyze(&request, None);

    assert_eq!(decision.action, DecisionAction::Block);
    assert_eq!(decision.reason, DecisionReason::TooManyParams);
}

#[test]
fn analyze_blocks_on_signature_match_in_active_mode() {
    let analyzer = build_analyzer(WafMode::Active, true);
    let mut request = build_request("/no-policy");
    request.query = Some("q=%2527%2520UNION%2520SELECT".to_string());

    let decision = analyzer.analyze(&request, None);

    assert_eq!(decision.action, DecisionAction::Block);
    assert_eq!(decision.reason, DecisionReason::SignatureMatch);
    assert_eq!(decision.matched_rule_id.as_deref(), Some("942100"));
}

#[test]
fn analyze_detects_html_entity_obfuscated_payload_in_body() {
    let analyzer = build_analyzer(WafMode::Active, true);
    let mut request = build_request("/no-policy");
    request.body = Some("S&#69;L&#x45;CT".to_string());

    let decision = analyzer.analyze(&request, None);

    assert_eq!(decision.action, DecisionAction::Block);
    assert_eq!(decision.reason, DecisionReason::SignatureMatch);
    assert_eq!(decision.matched_rule_id.as_deref(), Some("942100"));
}

#[test]
fn analyze_detects_base64_payload_in_header() {
    let analyzer = build_analyzer(WafMode::Active, true);
    let mut request = build_request("/no-policy");
    request
        .headers
        .insert("X-Auth-Token".to_string(), "U0VMRUNU".to_string());

    let decision = analyzer.analyze(&request, None);

    assert_eq!(decision.action, DecisionAction::Block);
    assert_eq!(decision.reason, DecisionReason::SignatureMatch);
    assert_eq!(decision.matched_rule_id.as_deref(), Some("942100"));
}

#[test]
fn analyze_converts_signature_block_to_log_in_passive_mode() {
    let analyzer = build_analyzer(WafMode::Passive, true);
    let mut request = build_request("/no-policy");
    request.body = Some("<script>alert(1)</script>".to_string());

    let decision = analyzer.analyze(&request, None);

    assert_eq!(decision.action, DecisionAction::Log);
    assert_eq!(decision.reason, DecisionReason::SignatureMatch);
    assert_eq!(decision.matched_rule_id.as_deref(), Some("941220"));
}

#[test]
fn analyze_allows_clean_request() {
    let analyzer = build_analyzer(WafMode::Active, true);
    let request = build_request("/no-policy");

    let decision = analyzer.analyze(&request, None);

    assert_eq!(decision.action, DecisionAction::Allow);
    assert_eq!(decision.reason, DecisionReason::Passed);
}

#[test]
fn analyze_allows_typical_browser_asset_request() {
    let analyzer = build_analyzer(WafMode::Active, true);
    let request = AnalysisRequest {
        source_ip: "172.19.0.1".to_string(),
        method: "GET".to_string(),
        path: "/favicon.ico".to_string(),
        query: None,
        headers: TextMap::from_pairs(vec![
            ("User-Agent".to_string(), "Mozilla/5.0".to_string()),
            ("Accept".to_string(), "image/avif,image/webp,image/*,*/*;q=0.8".to_string()),
            (
                "Cookie".to_string(),
                "continueCode=O3VMEvaDgyX8LvJ4qo7EwW6m29xP0pOGzRkZKY1bB3MNjOVprl5QenrK4a2x"
                    .to_string(),
            ),
            ("Sec-Fetch-Site".to_string(), "same-origin".to_string()),
            ("Sec-Fetch-Mode".to_string(), "no-cors".to_string()),
            ("Sec-Fetch-Dest".to_string(), "image".to_string()),
            ("Upgrade-Insecure-Requests".to_string(), "1".to_string()),
        ]),
        body: None,
    };

    let decision = analyzer.analyze(&request, None);

    assert_eq!(decision.action, DecisionAction::Allow);
    assert_eq!(decision.reason, DecisionReason::Passed);
}

#[test]
fn analyze_does_not_treat_cookie_key_names_as_xss_event_handlers() {
    let analyzer = build_analyzer(WafMode::Active, true);
    let request = AnalysisRequest {
        source_ip: "127.0.0.1".to_string(),
        method: "GET".to_string(),
        path: "/favicon.ico".to_string(),
        query: None,
        headers: TextMap::from_pairs(vec![(
            "Cookie".to_string(),
            "continueCode=O3VMEvaDgyX8LvJ4qo7EwW6m29xP0pOGzRkZKY1bB3MNjOVprl5QenrK4a2x"
                .to_string(),
        )]),
        body: None,
    };

    let decision = analyzer.analyze(&request, None);

    assert_eq!(decision.action, DecisionAction::Allow);
    assert_eq!(decision.reason, DecisionReason::Passed);
}

fn strict_post() -> AnalysisRequest {
    let mut request = build_request("/strict");
    request.method = "post".to_string();
    request.headers.insert("Content-Type".to_string(), "application/json".to_string());
    request
}

#[test]
fn policy_messages_name_what_is_wrong() {
    let analyzer = build_analyzer(WafMode::Active, true);
    let message = |request: &AnalysisRequest| analyzer.analyze(request, None).message;
    assert_eq!(message(&build_request("/strict")), "HTTP method 'GET' is not allowed for path '/strict'");
    let mut missing = build_request("/strict");
    missing.method = "POST".to_string();
    assert_eq!(message(&missing), "mandatory header 'content-type' is missing for path '/strict'");
    let mut unlisted = strict_post();
    unlisted.headers.insert("X-Blocked".to_string(), "1".to_string());
    assert_eq!(message(&unlisted), "header 'x-blocked' is not allowed for path '/strict'");
    let mut large = strict_post();
    large.body = Some("ü".repeat(513));
    assert_eq!(message(&large), "request body size '1026' exceeds '1' KB for path '/strict'");
    let mut many = strict_post();
    many.query = Some("a=1&b=2&c=3".to_string());
    assert_eq!(message(&many), "query parameter count '3' exceeds '2' for path '/strict'");
    assert_eq!(message(&strict_post()), "request passed all analyzer stages");
}

#[test]
fn limits_themselves_are_allowed() {
    let analyzer = build_analyzer(WafMode::Active, true);
    let mut request = strict_post();
    request.body = Some("x".repeat(1024));
    request.query = Some("a=1&b=2&&".to_string());
    request.headers.insert("Host".to_string(), "shop".to_string());
    request.headers.insert("x-trace-id".to_string(), "1".to_string());
    assert_eq!(analyzer.analyze(&request, None).reason, DecisionReason::Passed);
}

#[test]
fn policies_are_for_exact_paths() {
    let analyzer = build_analyzer(WafMode::Active, true);
    for path in ["/strict/", "/STRICT", "/%73trict"] {
        assert!(analyzer.check_security_policies(&build_request(path)).is_none());
    }
    assert!(analyzer.check_security_policies(&build_request("/strict")).is_some());
}

#[test]
fn largest_limit_does_not_overflow() {
    let mut analyzer = build_analyzer(WafMode::Active, true);
    analyzer.state.security_policies.global_defaults.max_body_size_kb = u64::MAX;
    let mut request = build_request("/defaults");
    request.body = Some("x".repeat(10));
    assert_eq!(analyzer.analyze(&request, None).reason, DecisionReason::Passed);
}

#[test]
fn signature_messages_name_the_component() {
    let analyzer = build_analyzer(WafMode::Active, true);
    let message = |change: &dyn Fn(&mut AnalysisRequest)| {
        let mut request = build_request("/no-policy");
        change(&mut request);
        analyzer.analyze(&request, None).message
    };
    let told = |component: &str| {
        format!("request matched signature '942100: SQL Injection Attack' in {component}")
    };
    assert_eq!(message(&|r| r.path = "/SELECT".to_string()), told("path"));
    assert_eq!(message(&|r| r.query = Some("SELECT".to_string())), told("query"));
    assert_eq!(message(&|r| r.headers.insert("X-Select".to_string(), "1".to_string())), told("header-name"));
    assert_eq!(message(&|r| r.headers.insert("Referer".to_string(), "SELECT".to_string())), told("header-value"));
    assert_eq!(message(&|r| r.body = Some("SELECT".to_string())), told("body"));
    assert_eq!(
        message(&|r| r.headers.insert("Cookie".to_string(), "SELECT".to_string())),
        "request passed all analyzer stages"
    );
}

#[test]
fn first_rule_that_matches_decides() {
    let analyzer = build_analyzer(WafMode::Active, true);
    let mut request = build_request("/<script");
    request.body = Some("select".to_string());
    assert_eq!(analyzer.analyze(&request, None).matched_rule_id.as_deref(), Some("942100"));
}

#[test]
fn layers_of_encoding_hide_nothing() {
    let analyzer = build_analyzer(WafMode::Active, true);
    let percent = |text: &str| text.bytes().map(|b| format!("%{b:02x}")).collect::<String>();
    let mut encoded = "union select".to_string();
    for _ in 0..3 {
        encoded = percent(&encoded);
        let mut request = build_request("/no-policy");
        request.query = Some(encoded.clone());
        assert_eq!(analyzer.analyze(&request, None).action, DecisionAction::Block);
    }
    let mut request = build_request("/no-policy");
    request.query = Some(percent(&encoded));
    assert_eq!(analyzer.analyze(&request, None).action, DecisionAction::Allow);
}

#[test]
fn black_list_blocks_in_passive_mode_too() {
    let entry = stored(&NewIpAccessEntry {
        ip_address: "203.0.113.10".to_string(),
        list_type: AccessListType::Black,
        comment: None,
        expires_at: None,
    });
    let request = build_request("/no-policy");
    let decision = build_analyzer(WafMode::Passive, true).analyze(&request, Some(&entry));
    assert_eq!(decision.action, DecisionAction::Block);
    assert_eq!(decision.message, "source IP '203.0.113.10' is blacklisted");
    let decision = build_analyzer(WafMode::Passive, false).analyze(&request, Some(&entry));
    assert_eq!(decision.action, DecisionAction::Allow);
    assert_eq!(decision.message, "WAF is disabled; request allowed");
}

#[test]
fn passive_mode_records_what_active_mode_blocks() {
    let mut request = build_request("/no-policy");
    request.body = Some("select".to_string());
    let active = build_analyzer(WafMode::Active, true).analyze(&request, None);
    let passive = build_analyzer(WafMode::Passive, true).analyze(&request, None);
    assert_eq!(active.action, DecisionAction::Block);
    assert_eq!(passive.action, DecisionAction::Log);
    assert_eq!(passive.reason, active.reason);
    assert_eq!(passive.matched_rule_id, active.matched_rule_id);
    assert_eq!(passive.message, format!("passive mode: {}", active.message));
}

#[test]
fn unknown_lists_decide_nothing() {
    let analyzer = build_analyzer(WafMode::Active, true);
    let mut entry = stored(&NewIpAccessEntry {
        ip_address: "203.0.113.10".to_string(),
        list_type: AccessListType::White,
        comment: None,
        expires_at: None,
    });
    let request = build_request("/no-policy");
    assert_eq!(
        analyzer.check_ip_access(&request, Some(&entry)).unwrap().message,
        "source IP '203.0.113.10' is explicitly whitelisted"
    );
    entry.list_type = "grey".to_string();
    assert!(analyzer.check_ip_access(&request, Some(&entry)).is_none());
    assert!(analyzer.check_ip_access(&request, None).is_none());
    assert!(analyzer.needs_ip_access_entry());
    assert!(!build_analyzer(WafMode::Active, false).needs_ip_access_entry());
}

#[test]
fn state_needs_rules_that_compile() {
    let mut rules = test_rules();
    rules[1].regex = "(".to_string();
    let error = SharedState::new(test_config(WafMode::Active, true), rules, test_policies()).unwrap_err();
    assert_eq!(error.message(), "invalid regex for rule '941220'");
}
