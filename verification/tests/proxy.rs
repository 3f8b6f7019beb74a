//! Headers of requests and responses on their way through the proxy.
use axum::http::header::{
    HeaderName, ACCESS_CONTROL_ALLOW_ORIGIN, CONNECTION, CONTENT_SECURITY_POLICY, CONTENT_TYPE, HOST, SET_COOKIE,
    STRICT_TRANSPORT_SECURITY, UPGRADE, X_CONTENT_TYPE_OPTIONS, X_FRAME_OPTIONS,
};
use axum::http::{HeaderMap, HeaderValue};
use rust_waf::forward::{
    append_forwarded_for, build_forward_headers, build_upstream_url, response_headers, upstream_url,
};
use rust_waf::proxy::{
    filter_response_headers, harden_cookie, harden_set_cookie_headers, inject_security_headers, is_hop_by_hop_header,
    keep_response_headers, ProxyError,
};

fn text<'a>(headers: &'a HeaderMap, name: &str) -> Option<&'a str> {
    headers.get(name).and_then(|v| v.to_str().ok())
}

#[test]
fn filter_response_headers_preserves_multiple_set_cookie_headers() {
    let mut upstream_headers = reqwest::header::HeaderMap::new();
    upstream_headers.append(SET_COOKIE, HeaderValue::from_static("session=abc; Path=/; HttpOnly"));
    upstream_headers.append(SET_COOKIE, HeaderValue::from_static("theme=dark; Path=/"));

    let filtered = filter_response_headers(&upstream_headers);
    let cookies: Vec<_> = filtered.get_all(SET_COOKIE).iter().collect();

    assert_eq!(cookies.len(), 2);
}

#[test]
fn filtering_keeps_order_and_drops_connection_headers() {
    let mut upstream_headers = HeaderMap::new();
    upstream_headers.append(SET_COOKIE, HeaderValue::from_static("a=1"));
    upstream_headers.append(CONNECTION, HeaderValue::from_static("close"));
    upstream_headers.append(SET_COOKIE, HeaderValue::from_static("b=2"));
    upstream_headers.append(UPGRADE, HeaderValue::from_static("h2c"));
    upstream_headers.append(CONTENT_TYPE, HeaderValue::from_static("text/html"));

    let filtered = filter_response_headers(&upstream_headers);

    let cookies: Vec<&str> = filtered.get_all(SET_COOKIE).iter().map(|v| v.to_str().unwrap()).collect();
    assert_eq!(cookies, vec!["a=1", "b=2"]);
    assert_eq!(text(&filtered, "content-type"), Some("text/html"));
    assert!(!filtered.contains_key(CONNECTION));
    assert!(!filtered.contains_key(UPGRADE));
    assert_eq!(filtered.len(), 3);
}

#[test]
fn every_connection_header_is_known() {
    for name in [
        "connection",
        "keep-alive",
        "proxy-authenticate",
        "proxy-authorization",
        "te",
        "trailer",
        "transfer-encoding",
        "upgrade",
    ] {
        assert!(is_hop_by_hop_header(&HeaderName::from_static(name)));
    }
    assert!(!is_hop_by_hop_header(&HOST));
    assert!(!is_hop_by_hop_header(&CONTENT_TYPE));
}

#[test]
fn inject_security_headers_adds_gateway_headers() {
    let mut headers = HeaderMap::new();

    inject_security_headers(&mut headers).expect("security header injection should succeed");

    assert_eq!(
        headers.get(STRICT_TRANSPORT_SECURITY).and_then(|v| v.to_str().ok()),
        Some("max-age=31536000; includeSubDomains")
    );
    assert_eq!(headers.get(X_FRAME_OPTIONS).and_then(|v| v.to_str().ok()), Some("DENY"));
    assert_eq!(headers.get(X_CONTENT_TYPE_OPTIONS).and_then(|v| v.to_str().ok()), Some("nosniff"));
    assert_eq!(
        headers.get(ACCESS_CONTROL_ALLOW_ORIGIN).and_then(|v| v.to_str().ok()),
        Some("https://waf.local")
    );
    assert_eq!(
        headers.get(CONTENT_SECURITY_POLICY).and_then(|v| v.to_str().ok()),
        Some(
            "default-src 'self'; frame-ancestors 'none'; form-action 'self'; script-src 'self' 'unsafe-inline'; style-src 'self' 'unsafe-inline';"
        )
    );
}

#[test]
fn injection_replaces_what_the_server_said() {
    let mut headers = HeaderMap::new();
    headers.append(X_FRAME_OPTIONS, HeaderValue::from_static("SAMEORIGIN"));
    headers.append(X_FRAME_OPTIONS, HeaderValue::from_static("ALLOWALL"));

    inject_security_headers(&mut headers).expect("security header injection should succeed");

    let values: Vec<&HeaderValue> = headers.get_all(X_FRAME_OPTIONS).iter().collect();
    assert_eq!(values, vec!["DENY"]);
}

#[test]
fn harden_set_cookie_headers_appends_missing_attributes() {
    let mut headers = HeaderMap::new();
    headers.append(SET_COOKIE, HeaderValue::from_static("session=abc; Path=/; HttpOnly"));
    headers.append(SET_COOKIE, HeaderValue::from_static("prefs=1; Path=/; Secure; SameSite=Strict"));

    harden_set_cookie_headers(&mut headers).expect("cookie hardening should succeed");

    let cookies: Vec<String> =
        headers.get_all(SET_COOKIE).iter().map(|value| value.to_str().unwrap().to_string()).collect();

    assert_eq!(cookies.len(), 2);
    assert!(cookies[0].contains("; Secure"));
    assert!(cookies[0].contains("; SameSite=Lax"));
    assert!(cookies[1].contains("; Secure"));
    assert!(cookies[1].contains("SameSite=Strict"));
}

#[test]
fn hardening_leaves_headers_without_cookies_alone() {
    let mut headers = HeaderMap::new();
    headers.append(CONTENT_TYPE, HeaderValue::from_static("text/html"));
    harden_set_cookie_headers(&mut headers).expect("cookie hardening should succeed");
    assert_eq!(headers.len(), 1);
}

#[test]
fn opaque_cookie_is_left_alone() {
    let mut headers = HeaderMap::new();
    headers.append(SET_COOKIE, HeaderValue::from_bytes(b"a=\xff").unwrap());
    harden_set_cookie_headers(&mut headers).expect("cookie hardening should succeed");
    assert_eq!(headers.get(SET_COOKIE).unwrap().as_bytes(), b"a=\xff");
}

#[test]
fn cookie_attributes_are_added_once() {
    assert_eq!(harden_cookie("a=1"), "a=1; Secure; SameSite=Lax");
    assert_eq!(harden_cookie("a=1; secure"), "a=1; secure; SameSite=Lax");
    assert_eq!(harden_cookie("a=1; SAMESITE=None"), "a=1; SAMESITE=None; Secure");
    let once = harden_cookie("a=1");
    assert_eq!(harden_cookie(&once), once);
}

#[test]
fn bare_word_at_the_end_counts_only_there() {
    assert_eq!(harden_cookie("a secure"), "a secure; SameSite=Lax");
    assert_eq!(harden_cookie("a secure; SameSite=Lax"), "a secure; SameSite=Lax; Secure");
    assert_eq!(harden_cookie("a samesite"), "a samesite; Secure");
}

#[test]
fn forwarded_headers_name_the_sender() {
    let mut headers = HeaderMap::new();
    headers.append(HOST, HeaderValue::from_static("shop.example"));
    headers.append(CONNECTION, HeaderValue::from_static("keep-alive"));
    headers.append("x-trace", HeaderValue::from_static("first"));
    headers.append("x-trace", HeaderValue::from_static("second"));
    headers.append("x-forwarded-for", HeaderValue::from_static("198.51.100.7"));

    let forwarded = build_forward_headers(&headers, None, "203.0.113.10").expect("headers can be forwarded");

    assert!(!forwarded.contains_key(HOST));
    assert!(!forwarded.contains_key(CONNECTION));
    let traces: Vec<&HeaderValue> = forwarded.get_all("x-trace").iter().collect();
    assert_eq!(traces, vec!["second"]);
    assert_eq!(text(&forwarded, "x-forwarded-proto"), Some("https"));
    assert_eq!(text(&forwarded, "x-forwarded-host"), Some("waf.local"));
    assert_eq!(text(&forwarded, "x-forwarded-for"), Some("198.51.100.7, 203.0.113.10"));
}

#[test]
fn authority_is_forwarded_as_host() {
    let forwarded = build_forward_headers(&HeaderMap::new(), Some("waf.example:8443"), "203.0.113.10").unwrap();
    assert_eq!(text(&forwarded, "x-forwarded-host"), Some("waf.example:8443"));
    assert_eq!(text(&forwarded, "x-forwarded-for"), Some("203.0.113.10"));
}

#[test]
fn control_characters_cannot_be_forwarded() {
    let host = build_forward_headers(&HeaderMap::new(), Some("a\nb"), "203.0.113.10");
    let error = host.expect_err("a line break is no header value");
    assert!(matches!(error, ProxyError::InvalidForwardedHost));
    assert_eq!(error.message(), "failed to set x-forwarded-host header");

    let mut headers = HeaderMap::new();
    let error = append_forwarded_for(&mut headers, "10.0.0.1\r").expect_err("a line break is no header value");
    assert_eq!(error.message(), "failed to build x-forwarded-for header '10.0.0.1\r'");
    assert!(headers.is_empty());
}

#[test]
fn opaque_forwarded_for_counts_as_empty() {
    let mut headers = HeaderMap::new();
    headers.insert("x-forwarded-for", HeaderValue::from_bytes(b"\xff").unwrap());
    append_forwarded_for(&mut headers, "10.0.0.1").unwrap();
    assert_eq!(text(&headers, "x-forwarded-for"), Some(", 10.0.0.1"));
}

#[test]
fn response_is_filtered_and_secured() {
    let mut upstream_headers = HeaderMap::new();
    upstream_headers.append(SET_COOKIE, HeaderValue::from_static("a=1"));
    upstream_headers.append(CONNECTION, HeaderValue::from_static("close"));
    upstream_headers.append(CONTENT_TYPE, HeaderValue::from_static("text/html"));

    let passed = response_headers(&upstream_headers).expect("few headers");

    assert!(!passed.contains_key(CONNECTION));
    assert_eq!(text(&passed, "content-type"), Some("text/html"));
    assert_eq!(text(&passed, "set-cookie"), Some("a=1; Secure; SameSite=Lax"));
    assert_eq!(text(&passed, "x-frame-options"), Some("DENY"));
}

#[test]
fn many_headers_are_passed_on() {
    let mut headers = HeaderMap::new();
    for i in 0..8000 {
        headers.insert(HeaderName::from_bytes(format!("x-{i}").as_bytes()).unwrap(), HeaderValue::from_static("1"));
    }
    assert_eq!(keep_response_headers(&headers).expect("they fit").keys_len(), 8000);
    assert_eq!(response_headers(&headers).expect("they fit").keys_len(), 8005);
    assert_eq!(build_forward_headers(&headers, None, "10.0.0.1").expect("they fit").keys_len(), 8003);
}

#[test]
fn too_many_headers_are_refused() {
    let mut headers = HeaderMap::new();
    for i in 0..40000 {
        let name = HeaderName::from_bytes(format!("x-{i}").as_bytes()).unwrap();
        if headers.try_insert(name, HeaderValue::from_static("1")).is_err() {
            break;
        }
    }
    assert!(headers.keys_len() > 6553);
    let error = response_headers(&headers).expect_err("no place for more");
    assert!(matches!(error, ProxyError::TooManyHeaders));
    assert_eq!(error.message(), "too many distinct header names");
    assert!(matches!(build_forward_headers(&headers, None, "10.0.0.1"), Err(ProxyError::TooManyHeaders)));
}

#[test]
fn upstream_url_is_resolved_against_the_target() {
    let base = url::Url::parse("http://shop:3000/app/").unwrap();
    let url = build_upstream_url(&base, Some("//rest/products?q=1")).unwrap();
    assert_eq!(url.as_str(), "http://shop:3000/app/rest/products?q=1");
    assert_eq!(build_upstream_url(&base, None).unwrap().as_str(), "http://shop:3000/app/");
    assert_eq!(upstream_url("http://shop:3000", Some("/a")).unwrap().as_str(), "http://shop:3000/a");
}

#[test]
fn bad_urls_are_reported() {
    let error = upstream_url("not a url", Some("/")).expect_err("no URL");
    assert_eq!(error.message(), "failed to parse target URL 'not a url'");
    let error = upstream_url("http://shop", Some("/http://[")).expect_err("no reference");
    assert_eq!(error.message(), "failed to build upstream URL for '/http://['");
}

#[test]
fn requests_are_forwarded_to_the_target_only() {
    for (reference, expected) in [
        ("/http://evil.test/", "http://shop:3000/app/http://evil.test/"),
        ("//https://evil.test/a?b=c", "http://shop:3000/app/https://evil.test/a?b=c"),
        ("/https://shop:3000/a", "http://shop:3000/app/https://shop:3000/a"),
        ("/http://shop:3001/a", "http://shop:3000/app/http://shop:3001/a"),
        ("/http://shop/a", "http://shop:3000/app/http://shop/a"),
        ("/\\\\evil.test/a", "http://shop:3000/app///evil.test/a"),
        ("/mailto:a@evil.test", "http://shop:3000/app/mailto:a@evil.test"),
        ("/a:b", "http://shop:3000/app/a:b"),
    ] {
        let url = upstream_url("http://shop:3000/app/", Some(reference)).expect("a path below the target");
        assert_eq!(url.as_str(), expected);
        assert_eq!((url.scheme(), url.host_str(), url.port()), ("http", Some("shop"), Some(3000)));
    }
    let url = upstream_url("http://shop:3000/app/", Some("/http://shop:3000/a")).unwrap();
    assert_eq!(url.as_str(), "http://shop:3000/a");
    let url = upstream_url("http://shop", Some("/redirect?to=http://evil.test/")).unwrap();
    assert_eq!(url.as_str(), "http://shop/redirect?to=http://evil.test/");
    let url = upstream_url("http://shop", Some("/http://shop:80/a")).unwrap();
    assert_eq!(url.as_str(), "http://shop/a");
}

#[test]
fn other_errors_have_words_too() {
    assert_eq!(
        ProxyError::InvalidCookie("x".to_string()).message(),
        "failed to build hardened Set-Cookie header 'x'"
    );
    assert_eq!(ProxyError::UnserializedPayload.message(), "failed to serialize attack payload");
    assert_eq!(ProxyError::UnserializedPreview.message(), "failed to serialize blocked request preview");
}
