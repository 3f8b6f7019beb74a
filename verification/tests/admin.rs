//! The rules of the admin interface.
use axum::http::header::{AUTHORIZATION, CONTENT_SECURITY_POLICY, REFERRER_POLICY, X_FRAME_OPTIONS};
use axum::http::{HeaderMap, HeaderName, HeaderValue};
use rust_waf::admin::{
    accept_config, accept_rules, admit_token, admit_user, bearer_token, default_admin_user, deletion_status,
    effective_config, found_or, hash_password, login_claims, login_expiry, login_response, new_user, sanitize_limit,
    select_logs, set_security_headers, summarize_users, user_update, verify_credentials, ApiError, LogSelection,
};
use rust_waf::config::{EnvValue, RuntimeEnv};
use rust_waf::models::{Config, LoginRequest, Rule, Severity, User, UserRole, WafMode};

fn user(name: &str, hash: &str) -> User {
    User {
        id: 7,
        username: name.to_string(),
        password_hash: hash.to_string(),
        role: "analyst".to_string(),
        created_at: "2024-01-01 00:00:00".to_string(),
    }
}

fn login(password: &str) -> LoginRequest {
    LoginRequest { username: "kim".to_string(), password: password.to_string() }
}

fn with_authorization(value: &[u8]) -> HeaderMap {
    let mut headers = HeaderMap::new();
    headers.insert(AUTHORIZATION, HeaderValue::from_bytes(value).unwrap());
    headers
}

#[test]
fn passwords_are_hashed_with_sha256() {
    assert_eq!(hash_password("admin123"), "240be518fabd2724ddb6f04eeb1da5967448d7e831c08c8fa822809f74c720a9");
    assert_eq!(hash_password(""), "e3b0c44298fc1c149afbf4c8996fb92427ae41e4649b934ca495991b7852b855");
}

#[test]
fn created_user_logs_in_with_the_password() {
    let new = new_user("kim".to_string(), "pass word", UserRole::Analyst);
    assert_eq!(new.role, UserRole::Analyst);
    let stored = user(&new.username, &new.password_hash);
    assert_eq!(verify_credentials(Some(stored.clone()), &login("pass word")).expect("right").username, "kim");
    let error = verify_credentials(Some(stored), &login("Pass word")).unwrap_err();
    assert_eq!((error.status, error.message.as_str()), (401, "invalid credentials"));
    let error = verify_credentials(None, &login("pass word")).unwrap_err();
    assert_eq!((error.status, error.message.as_str()), (401, "invalid credentials"));
}

#[test]
fn only_the_stored_hash_is_admitted() {
    assert!(admit_user(Some(user("kim", "abc")), "abc").is_ok());
    assert!(admit_user(Some(user("kim", "abc")), "abd").is_err());
    assert!(admit_user(None, "").is_err());
}

#[test]
fn logins_last_eight_hours() {
    assert_eq!(login_expiry(1_714_566_896), 1_714_595_696);
    let claims = login_claims(&user("kim", ""), 1_714_595_696);
    assert_eq!((claims.sub.as_str(), claims.role.as_str(), claims.exp), ("kim", "analyst", 1_714_595_696));
    let response = login_response(user("kim", ""), "token".to_string(), 5);
    assert_eq!(response.access_token, "token");
    assert_eq!(response.token_type, "Bearer");
    assert_eq!(response.expires_at, 5);
    assert_eq!(response.role, "analyst");
}

#[test]
fn bearer_tokens_are_found() {
    assert_eq!(bearer_token(&with_authorization(b"Bearer a.b.c")).unwrap(), "a.b.c");
    assert_eq!(bearer_token(&with_authorization(b"Bearer ")).unwrap(), "");
    assert_eq!(bearer_token(&HeaderMap::new()).unwrap_err().message, "missing authorization header");
    assert_eq!(bearer_token(&with_authorization(b"\xff")).unwrap_err().message, "missing authorization header");
    let error = bearer_token(&with_authorization(b"bearer a")).unwrap_err();
    assert_eq!((error.status, error.message.as_str()), (401, "invalid authorization scheme"));
}

#[test]
fn invalid_tokens_are_refused() {
    assert!(admit_token(true).is_ok());
    let error = admit_token(false).unwrap_err();
    assert_eq!((error.status, error.message.as_str()), (401, "invalid or expired token"));
}

#[test]
fn admin_answers_are_secured() {
    let mut headers = HeaderMap::new();
    headers.append(X_FRAME_OPTIONS, HeaderValue::from_static("ALLOWALL"));
    set_security_headers(&mut headers).expect("one header");
    assert_eq!(headers.get(X_FRAME_OPTIONS).unwrap(), "DENY");
    assert_eq!(headers.get("x-content-type-options").unwrap(), "nosniff");
    assert_eq!(headers.get(REFERRER_POLICY).unwrap(), "same-origin");
    assert_eq!(
        headers.get(CONTENT_SECURITY_POLICY).unwrap(),
        "default-src 'self'; script-src 'self' 'unsafe-inline' https://cdn.tailwindcss.com https://cdn.jsdelivr.net https://cdn.jsdelivr.net/npm/chart.js; style-src 'self' 'unsafe-inline'; img-src 'self' data:; connect-src 'self'; font-src 'self' data:; object-src 'none'; base-uri 'self'; frame-ancestors 'none'"
    );
    assert_eq!(headers.len(), 4);
}

fn with_names(count: usize) -> HeaderMap {
    let mut headers = HeaderMap::new();
    for i in 0..count {
        let name = HeaderName::from_bytes(format!("x-{i}").as_bytes()).unwrap();
        if headers.try_insert(name, HeaderValue::from_static("1")).is_err() {
            break;
        }
    }
    headers
}

#[test]
fn answers_with_many_headers_are_secured() {
    let mut headers = with_names(8000);
    set_security_headers(&mut headers).expect("they fit");
    assert_eq!(headers.keys_len(), 8004);
}

#[test]
fn answers_with_too_many_headers_cannot_be_secured() {
    let most = with_names(40000).keys_len();
    assert!(6553 < most && most < 40000);
    let mut headers = with_names(most);
    let error = set_security_headers(&mut headers).expect_err("no place for more");
    assert_eq!(error.message(), "too many distinct header names");
    assert_eq!(headers.keys_len(), most);
    assert!(!headers.contains_key(X_FRAME_OPTIONS));
}

#[test]
fn logs_are_selected_by_the_limit() {
    assert_eq!(select_logs(Some("all")), LogSelection::All);
    assert_eq!(select_logs(Some("25")), LogSelection::Latest(25));
    assert_eq!(select_logs(Some("-3")), LogSelection::Latest(-3));
    assert_eq!(select_logs(Some("ALL")), LogSelection::Latest(100));
    assert_eq!(select_logs(Some("9223372036854775808")), LogSelection::Latest(100));
    assert_eq!(select_logs(Some("-9223372036854775808")), LogSelection::Latest(i64::MIN));
    assert_eq!(select_logs(None), LogSelection::Latest(100));
    assert_eq!(sanitize_limit(25), 25);
    assert_eq!(sanitize_limit(0), 100);
    assert_eq!(sanitize_limit(-3), 100);
}

#[test]
fn what_is_missing_is_not_found() {
    assert_eq!(found_or(Some(1), "log not found").unwrap(), 1);
    let error = found_or::<u8>(None, "log not found").unwrap_err();
    assert_eq!((error.status, error.message.as_str()), (404, "log not found"));
    assert_eq!(deletion_status(true, "user not found").unwrap(), 204);
    let error = deletion_status(false, "user not found").unwrap_err();
    assert_eq!((error.status, error.message.as_str()), (404, "user not found"));
}

#[test]
fn errors_carry_their_status() {
    assert_eq!(ApiError::internal("x".to_string()).status, 500);
    assert_eq!(ApiError::bad_request("x".to_string()).status, 400);
    assert_eq!(ApiError::bad_request("x".to_string()).message, "x");
}

#[test]
fn summaries_do_not_show_hashes() {
    let summaries = summarize_users(vec![user("kim", "a"), user("lee", "b")]);
    assert_eq!(summaries.len(), 2);
    assert_eq!(summaries[1].username, "lee");
    assert_eq!(summaries[0].id, 7);
    assert_eq!(summaries[0].role, "analyst");
    assert!(!format!("{summaries:?}").contains("hash"));
}

#[test]
fn updates_change_only_what_is_given() {
    let update = user_update(Some("new"), None);
    assert_eq!(update.password_hash, Some(hash_password("new")));
    assert_eq!(update.role, None);
    let update = user_update(None, Some(UserRole::Admin));
    assert_eq!(update.password_hash, None);
    assert_eq!(update.role.as_deref(), Some("admin"));
}

#[test]
fn default_admin_is_made_once() {
    let made = default_admin_user(None).expect("there is none");
    assert_eq!(made.username, "admin");
    assert_eq!(made.password_hash, hash_password("admin123"));
    assert_eq!(made.role, UserRole::Admin);
    assert!(default_admin_user(Some(&user("admin", "x"))).is_none());
}

fn config() -> Config {
    Config {
        mode: WafMode::Active,
        is_enabled: true,
        target_url: "http://localhost:3000".to_string(),
        admin_port: 8081,
        interceptor_port: 443,
        interceptor_host: "0.0.0.0".to_string(),
        tls_cert_path: "cert.pem".to_string(),
        tls_key_path: "key.pem".to_string(),
    }
}

#[test]
fn sent_configs_are_checked_and_overridden() {
    assert!(accept_config(&config()).is_ok());
    let mut bad = config();
    bad.admin_port = 443;
    let error = accept_config(&bad).unwrap_err();
    assert_eq!(error.status, 400);
    assert_eq!(error.message, "admin_port and interceptor_port must be different");
    let mut env = RuntimeEnv {
        waf_mode: EnvValue::Present("passive".to_string()),
        target_url: EnvValue::Absent,
        admin_port: EnvValue::Absent,
        tls_private: EnvValue::Absent,
        tls_public: EnvValue::Absent,
    };
    assert_eq!(effective_config(config(), &env).unwrap().mode, WafMode::Passive);
    env.waf_mode = EnvValue::Present("maybe".to_string());
    let error = effective_config(config(), &env).unwrap_err();
    assert_eq!((error.status, error.message.as_str()), (400, "WAF_MODE must be either 'active' or 'passive'"));
}

#[test]
fn sent_rules_are_checked_and_compiled() {
    let rule = Rule {
        id: "1".to_string(),
        name: "n".to_string(),
        regex: "a".to_string(),
        severity: Severity::Critical,
    };
    let compiled = accept_rules(&[rule.clone()]).unwrap();
    assert!(compiled[0].regex.is_match("cat"));
    let error = accept_rules(&[]).unwrap_err();
    assert_eq!((error.status, error.message.as_str()), (400, "rules list must contain at least one rule"));
    let bad = Rule { regex: "*".to_string(), ..rule };
    assert_eq!(accept_rules(&[bad]).unwrap_err().message, "invalid regex for rule '1'");
}
