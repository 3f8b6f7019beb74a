//! The data that the firewall works on: its configuration, signature rules and
//! policies, the requests it looks at, and what it decides and records.
use crate::outside::matched_texts;
use crate::text_map::{with_values, TextMap};
use crate::words::texts;
use vstd::prelude::*;

verus! {

/// The text in an optional string, if it is there.
pub open spec fn opt_text(text: Option<String>) -> Option<Seq<char>> {
    match text {
        Some(t) => Some(t@),
        None => None,
    }
}

/// A copy of an optional string.
pub fn copy_text(text: &Option<String>) -> (copy: Option<String>)
    ensures
        opt_text(copy) == opt_text(*text),
{
    match text {
        Some(t) => Some(t.clone()),
        None => None,
    }
}

/// Whether the firewall blocks what it finds or only records it.
#[derive(Debug, Clone, Copy, PartialEq, Eq, Structural)]
pub enum WafMode {
    Active,
    Passive,
}

/// The main configuration.
#[derive(Debug, Clone)]
pub struct Config {
    pub mode: WafMode,
    pub is_enabled: bool,
    pub target_url: String,
    pub admin_port: u16,
    pub interceptor_port: u16,
    pub interceptor_host: String,
    pub tls_cert_path: String,
    pub tls_key_path: String,
}

/// What a configuration holds.
pub struct ConfigView {
    pub mode: WafMode,
    pub is_enabled: bool,
    pub target_url: Seq<char>,
    pub admin_port: u16,
    pub interceptor_port: u16,
    pub interceptor_host: Seq<char>,
    pub tls_cert_path: Seq<char>,
    pub tls_key_path: Seq<char>,
}

impl View for Config {
    type V = ConfigView;

    open spec fn view(&self) -> ConfigView {
        ConfigView {
            mode: self.mode,
            is_enabled: self.is_enabled,
            target_url: self.target_url@,
            admin_port: self.admin_port,
            interceptor_port: self.interceptor_port,
            interceptor_host: self.interceptor_host@,
            tls_cert_path: self.tls_cert_path@,
            tls_key_path: self.tls_key_path@,
        }
    }
}

/// What a user sends to log in.
#[derive(Debug, Clone)]
pub struct LoginRequest {
    pub username: String,
    pub password: String,
}

/// The answer to a successful login.
#[derive(Debug, Clone)]
pub struct LoginResponse {
    pub access_token: String,
    pub token_type: String,
    pub expires_at: i64,
    pub role: String,
}

/// What an access token says about its holder.
#[derive(Debug, Clone)]
pub struct JwtClaims {
    pub sub: String,
    pub role: String,
    pub exp: usize,
}

/// A signature rule: a regular expression that marks an attack.
#[derive(Debug, Clone)]
pub struct Rule {
    pub id: String,
    pub name: String,
    pub regex: String,
    pub severity: Severity,
}

/// A signature rule with its expression compiled.
#[derive(Debug)]
pub struct CompiledRule {
    pub id: String,
    pub name: String,
    pub severity: Severity,
    pub regex: regex::Regex,
}

impl Clone for CompiledRule {
    fn clone(&self) -> (rule: CompiledRule)
        ensures
            rule.id@ == self.id@,
            rule.name@ == self.name@,
            rule.severity == self.severity,
            matched_texts(rule.regex) == matched_texts(self.regex),
    {
        CompiledRule {
            id: self.id.clone(),
            name: self.name.clone(),
            severity: self.severity,
            regex: self.regex.clone(),
        }
    }
}

/// How grave a match of a rule is.
#[derive(Debug, Clone, Copy, PartialEq, Eq, Structural)]
pub enum Severity {
    Low,
    Medium,
    High,
    Critical,
}

/// What requests may look like, in general and for single endpoints.
#[derive(Debug, Clone)]
pub struct SecurityPolicies {
    pub global_defaults: GlobalDefaults,
    pub endpoints: TextMap<EndpointPolicy>,
}

/// The limits that hold where an endpoint sets none of its own.
#[derive(Debug, Clone)]
pub struct GlobalDefaults {
    pub allowed_methods: Vec<String>,
    pub allowed_headers: Vec<String>,
    pub max_body_size_kb: u64,
}

/// The limits for one endpoint.
#[derive(Debug, Clone)]
pub struct EndpointPolicy {
    pub allowed_methods: Vec<String>,
    pub allowed_headers: Vec<String>,
    pub mandatory_headers: Vec<String>,
    pub max_body_size_kb: Option<u64>,
    pub max_params: Option<u32>,
    pub description: Option<String>,
}

impl Default for EndpointPolicy {
    fn default() -> (policy: EndpointPolicy)
        ensures
            policy.allowed_methods@.len() == 0,
            policy.allowed_headers@.len() == 0,
            policy.mandatory_headers@.len() == 0,
            policy.max_body_size_kb is None,
            policy.max_params is None,
            policy.description is None,
    {
        EndpointPolicy {
            allowed_methods: Vec::new(),
            allowed_headers: Vec::new(),
            mandatory_headers: Vec::new(),
            max_body_size_kb: None,
            max_params: None,
            description: None,
        }
    }
}

/// The list that an address can be on.
#[derive(Debug, Clone, Copy, PartialEq, Eq, Structural)]
pub enum AccessListType {
    White,
    Black,
}

/// The name under which a list is stored.
pub open spec fn list_name(list: AccessListType) -> Seq<char> {
    match list {
        AccessListType::White => "white"@,
        AccessListType::Black => "black"@,
    }
}

impl AccessListType {
    /// The name under which the list is stored.
    pub fn as_str(&self) -> (name: &'static str)
        ensures
            name@ == list_name(*self),
    {
        match self {
            AccessListType::White => "white",
            AccessListType::Black => "black",
        }
    }
}

/// A stored entry of the access lists.
#[derive(Debug, Clone)]
pub struct IpAccessEntry {
    pub id: i64,
    pub ip_address: String,
    pub list_type: String,
    pub comment: Option<String>,
    pub expires_at: Option<String>,
    pub created_at: String,
}

/// An entry of the access lists that is to be stored.
#[derive(Debug, Clone)]
pub struct NewIpAccessEntry {
    pub ip_address: String,
    pub list_type: AccessListType,
    pub comment: Option<String>,
    pub expires_at: Option<String>,
}

/// What is to change in an entry of the access lists.
#[derive(Debug, Clone)]
pub struct UpdateIpAccessEntry {
    pub list_type: AccessListType,
    pub comment: Option<String>,
    pub expires_at: Option<String>,
}

/// A stored record of an attack.
#[derive(Debug, Clone)]
pub struct AttackLog {
    pub id: i64,
    pub timestamp: String,
    pub source_ip: String,
    pub request_method: Option<String>,
    pub request_url: Option<String>,
    pub matched_rule_id: Option<String>,
    pub attack_type: Option<String>,
    pub payload: Option<String>,
    pub action_taken: String,
}

/// A record of an attack that is to be stored.
#[derive(Debug, Clone)]
pub struct NewAttackLog {
    pub source_ip: String,
    pub request_method: Option<String>,
    pub request_url: Option<String>,
    pub matched_rule_id: Option<String>,
    pub attack_type: Option<String>,
    pub payload: Option<String>,
    pub action_taken: String,
}

/// What a user of the admin interface may do.
#[derive(Debug, Clone, Copy, PartialEq, Eq, Structural)]
pub enum UserRole {
    Admin,
    Analyst,
}

/// The name under which a role is stored.
pub open spec fn role_name(role: UserRole) -> Seq<char> {
    match role {
        UserRole::Admin => "admin"@,
        UserRole::Analyst => "analyst"@,
    }
}

impl UserRole {
    /// The name under which the role is stored.
    pub fn as_str(&self) -> (name: &'static str)
        ensures
            name@ == role_name(*self),
    {
        match self {
            UserRole::Admin => "admin",
            UserRole::Analyst => "analyst",
        }
    }
}

/// A stored user of the admin interface.
#[derive(Debug, Clone)]
pub struct User {
    pub id: i64,
    pub username: String,
    pub password_hash: String,
    pub role: String,
    pub created_at: String,
}

/// A user of the admin interface that is to be stored.
#[derive(Debug, Clone)]
pub struct NewUser {
    pub username: String,
    pub password_hash: String,
    pub role: UserRole,
}

/// What is shown of a user.
#[derive(Debug, Clone)]
pub struct UserSummary {
    pub id: i64,
    pub username: String,
    pub role: String,
    pub created_at: String,
}

/// A request as the analyzer sees it.
#[derive(Debug, Clone)]
pub struct AnalysisRequest {
    pub source_ip: String,
    pub method: String,
    pub path: String,
    pub query: Option<String>,
    pub headers: TextMap<String>,
    pub body: Option<String>,
}

/// What a request holds; the headers in ascending order of their names.
pub struct RequestView {
    pub source_ip: Seq<char>,
    pub method: Seq<char>,
    pub path: Seq<char>,
    pub query: Option<Seq<char>>,
    pub headers: Seq<(Seq<char>, Seq<char>)>,
    pub body: Option<Seq<char>>,
}

/// The names and values of a map from text to text.
pub open spec fn header_texts(headers: TextMap<String>) -> Seq<(Seq<char>, Seq<char>)> {
    with_values(headers@, |v: String| v@)
}

impl View for AnalysisRequest {
    type V = RequestView;

    open spec fn view(&self) -> RequestView {
        RequestView {
            source_ip: self.source_ip@,
            method: self.method@,
            path: self.path@,
            query: opt_text(self.query),
            headers: header_texts(self.headers),
            body: opt_text(self.body),
        }
    }
}

/// A request with the encodings of its parts undone.
#[derive(Debug, Clone)]
pub struct NormalizedRequest {
    pub path: String,
    pub query: Option<String>,
    pub headers: TextMap<Vec<String>>,
    pub body: Vec<String>,
}

/// What a normalized request holds: the headers in ascending order of their
/// names, each with the forms of its value, and the forms of the body.
pub struct NormalizedView {
    pub path: Seq<char>,
    pub query: Option<Seq<char>>,
    pub headers: Seq<(Seq<char>, Seq<Seq<char>>)>,
    pub body: Seq<Seq<char>>,
}

impl View for NormalizedRequest {
    type V = NormalizedView;

    open spec fn view(&self) -> NormalizedView {
        NormalizedView {
            path: self.path@,
            query: opt_text(self.query),
            headers: with_values(self.headers@, |v: Vec<String>| texts(v@)),
            body: texts(self.body@),
        }
    }
}

/// What happens to a request.
#[derive(Debug, Clone, Copy, PartialEq, Eq, Structural)]
pub enum DecisionAction {
    Allow,
    Block,
    Log,
}

/// Why it happens.
#[derive(Debug, Clone, Copy, PartialEq, Eq, Structural)]
pub enum DecisionReason {
    IpBlacklist,
    IpWhitelist,
    MethodNotAllowed,
    MissingMandatoryHeader,
    HeaderNotAllowed,
    BodyTooLarge,
    TooManyParams,
    SignatureMatch,
    WafDisabled,
    Passed,
}

/// What the analyzer decides on a request.
#[derive(Debug, Clone)]
pub struct AnalysisDecision {
    pub action: DecisionAction,
    pub reason: DecisionReason,
    pub matched_rule_id: Option<String>,
    pub message: String,
}

/// What a decision holds.
pub struct DecisionView {
    pub action: DecisionAction,
    pub reason: DecisionReason,
    pub matched_rule_id: Option<Seq<char>>,
    pub message: Seq<char>,
}

impl View for AnalysisDecision {
    type V = DecisionView;

    open spec fn view(&self) -> DecisionView {
        DecisionView {
            action: self.action,
            reason: self.reason,
            matched_rule_id: opt_text(self.matched_rule_id),
            message: self.message@,
        }
    }
}

/// What an optional decision holds.
pub open spec fn decision_view(decision: Option<AnalysisDecision>) -> Option<DecisionView> {
    match decision {
        Some(d) => Some(d@),
        None => None,
    }
}

} // verus!
