//! The rules of the admin interface: who may use it, and what it answers.
use crate::config::{
    apply_runtime_env_overrides, compile_rules, config_problem, load_config_from_value, load_rules_from_value,
    overridden, problem_text, rules_problem, all_compiled_as, RuntimeEnv,
};
use crate::forward::opt_str;
use crate::headers::{
    first_value, has_room, header_lists, holds_between, holds_everywhere, is_name_char, is_plain_name,
    is_visible, is_visible_ascii, is_visible_text, on_the_way, values_under,
};
use crate::models::{
    opt_text, role_name, CompiledRule, Config, JwtClaims, LoginRequest, LoginResponse, NewUser, Rule, User,
    UserRole, UserSummary,
};
use crate::number::{hex, hex_length, hex_text, parse_signed, signed_value};
use crate::outside::{sha256, sha256_digest};
use crate::proxy::{set_header, with_header, ProxyError, ProxyProblem};
use crate::text::{begins_with, chars_of, same_text, starts_with_text, text_between};
use axum::http::header::HeaderName;
use axum::http::HeaderMap;
use vstd::prelude::*;
use vstd::utf8::*;

verus! {

/// An error that is sent to the client.
#[derive(Debug, Clone)]
pub struct ApiError {
    pub status: u16,
    pub message: String,
}

/// What an error sends.
pub struct ApiProblem {
    pub status: u16,
    pub message: Seq<char>,
}

impl View for ApiError {
    type V = ApiProblem;

    open spec fn view(&self) -> ApiProblem {
        ApiProblem { status: self.status, message: self.message@ }
    }
}

/// The client is not who it must be.
pub open spec fn unauthorized(message: Seq<char>) -> ApiProblem {
    ApiProblem { status: 401, message }
}

/// What the client asks for is not there.
pub open spec fn not_found(message: Seq<char>) -> ApiProblem {
    ApiProblem { status: 404, message }
}

/// What the client sent cannot be accepted.
pub open spec fn bad_request(message: Seq<char>) -> ApiProblem {
    ApiProblem { status: 400, message }
}

impl ApiError {
    /// Something failed that is not the client's fault.
    pub fn internal(message: String) -> (error: ApiError)
        ensures
            error@ == (ApiProblem { status: 500, message: message@ }),
    {
        ApiError { status: 500, message }
    }

    /// The client is not who it must be.
    pub fn unauthorized(message: &str) -> (error: ApiError)
        ensures
            error@ == unauthorized(message@),
    {
        ApiError { status: 401, message: message.to_string() }
    }

    /// What the client asks for is not there.
    pub fn not_found(message: &str) -> (error: ApiError)
        ensures
            error@ == not_found(message@),
    {
        ApiError { status: 404, message: message.to_string() }
    }

    /// What the client sent cannot be accepted.
    pub fn bad_request(message: String) -> (error: ApiError)
        ensures
            error@ == bad_request(message@),
    {
        ApiError { status: 400, message }
    }
}

/// The hash under which a password is stored.
pub open spec fn password_hash(password: Seq<char>) -> Seq<char> {
    hex(sha256(encode_utf8(password)))
}

/// The hash under which a password is stored: its SHA-256 digest in lower-case
/// hexadecimal.
pub fn hash_password(password: &str) -> (hash: String)
    ensures
        hash@ == password_hash(password@),
        hash@.len() == 64,
{
    let digest = sha256_digest(password.as_bytes());
    proof {
        hex_length(digest@);
    }
    hex_text(&digest)
}

/// Whether the stored hash is the one of a password.
pub open spec fn knows_password(user: User, password: Seq<char>) -> bool {
    user.password_hash@ == password_hash(password)
}

/// The user who logs in, if there is one of that name and the hash of the
/// password that was sent is the stored one. An unknown name and a wrong
/// password are answered alike.
pub fn admit_user(user: Option<User>, hash: &str) -> (outcome: Result<User, ApiError>)
    ensures
        match outcome {
            Ok(u) => user == Some(u) && u.password_hash@ == hash@,
            Err(e) => {
                &&& e@ == unauthorized("invalid credentials"@)
                &&& user matches Some(u) ==> u.password_hash@ != hash@
            },
        },
{
    match user {
        Some(user) => {
            if !same_text(user.password_hash.as_str(), hash) {
                return Err(ApiError::unauthorized("invalid credentials"));
            }
            Ok(user)
        },
        None => Err(ApiError::unauthorized("invalid credentials")),
    }
}

/// The user who logs in, if there is one of that name and the password is
/// right.
pub fn verify_credentials(user: Option<User>, request: &LoginRequest) -> (outcome: Result<User, ApiError>)
    ensures
        match outcome {
            Ok(u) => user == Some(u) && knows_password(u, request.password@),
            Err(e) => {
                &&& e@ == unauthorized("invalid credentials"@)
                &&& user matches Some(u) ==> !knows_password(u, request.password@)
            },
        },
{
    let hash = hash_password(request.password.as_str());
    admit_user(user, hash.as_str())
}

/// When a login made at a time, in seconds, expires.
pub open spec fn expiry(now: i64) -> int {
    now + 8 * 3600
}

/// When a login made now expires: eight hours later.
pub fn login_expiry(now: i64) -> (expires_at: i64)
    requires
        now <= i64::MAX - 28800,
    ensures
        expires_at == expiry(now),
{
    now + 28800
}

/// What an access token says about its holder.
pub fn login_claims(user: &User, expires_at: i64) -> (claims: JwtClaims)
    ensures
        claims.sub@ == user.username@,
        claims.role@ == user.role@,
        claims.exp == expires_at as usize,
{
    JwtClaims { sub: user.username.clone(), role: user.role.clone(), exp: expires_at as usize }
}

/// The answer to a successful login.
pub fn login_response(user: User, access_token: String, expires_at: i64) -> (response: LoginResponse)
    ensures
        response.access_token == access_token,
        response.token_type@ == "Bearer"@,
        response.expires_at == expires_at,
        response.role == user.role,
{
    LoginResponse { access_token, token_type: "Bearer".to_string(), expires_at, role: user.role }
}

/// The token in the value of an `Authorization` header, if there is a value
/// that is visible ASCII and its scheme is `Bearer`.
pub open spec fn token_in(values: Seq<Seq<u8>>) -> Result<Seq<char>, ApiProblem> {
    if values.len() == 0 || !is_visible_ascii(values[0]) {
        Err(unauthorized("missing authorization header"@))
    } else if !begins_with(decode_utf8(values[0]), "Bearer "@) {
        Err(unauthorized("invalid authorization scheme"@))
    } else {
        Ok(decode_utf8(values[0]).skip(7))
    }
}

/// The name of the header that carries the token can be a header name.
proof fn authorization_is_a_name()
    ensures
        is_plain_name("authorization"@),
{
    assert(is_plain_name("authorization"@)) by {
        reveal_strlit("authorization");
        reveal_with_fuel(holds_between, 6);
        assert(holds_between("authorization"@, 0, 13, |c: char| is_name_char(c)));
        holds_everywhere("authorization"@, 0, 13, |c: char| is_name_char(c));
    }
}

/// The token that a request carries.
pub fn bearer_token(headers: &HeaderMap) -> (outcome: Result<String, ApiError>)
    ensures
        match outcome {
            Ok(token) => token_in(values_under(header_lists(*headers), "authorization"@)) == Ok::<
                Seq<char>,
                ApiProblem,
            >(token@),
            Err(e) => token_in(values_under(header_lists(*headers), "authorization"@)) == Err::<
                Seq<char>,
                ApiProblem,
            >(e@),
        },
{
    proof {
        authorization_is_a_name();
        reveal_strlit("Bearer ");
    }
    let name = HeaderName::from_static("authorization");
    let text = match first_value(headers, &name) {
        Some(value) => match value.to_str() {
            Ok(text) => text,
            Err(_) => return Err(ApiError::unauthorized("missing authorization header")),
        },
        None => return Err(ApiError::unauthorized("missing authorization header")),
    };
    proof {
        encode_utf8_decode_utf8(text@);
    }
    if !starts_with_text(text, "Bearer ") {
        return Err(ApiError::unauthorized("invalid authorization scheme"));
    }
    let chars = chars_of(text);
    let token = text_between(&chars, 7, chars.len());
    proof {
        assert(text@.subrange(7, text@.len() as int) =~= text@.skip(7));
    }
    Ok(token)
}

/// Whether a request goes on, given whether its token is valid.
pub fn admit_token(valid: bool) -> (outcome: Result<(), ApiError>)
    ensures
        match outcome {
            Ok(_) => valid,
            Err(e) => !valid && e@ == unauthorized("invalid or expired token"@),
        },
{
    if valid {
        Ok(())
    } else {
        Err(ApiError::unauthorized("invalid or expired token"))
    }
}

/// The names and values of the headers that are put on answers can be header
/// names and values.
proof fn admin_header_texts()
    ensures
        is_plain_name("x-frame-options"@),
        is_visible_text("DENY"@),
        is_plain_name("x-content-type-options"@),
        is_visible_text("nosniff"@),
        is_plain_name("referrer-policy"@),
        is_visible_text("same-origin"@),
        is_plain_name("content-security-policy"@),
        is_visible_text("default-src 'self'; script-src 'self' 'unsafe-inline' https://cdn.tailwindcss.com https://cdn.jsdelivr.net https://cdn.jsdelivr.net/npm/chart.js; style-src 'self' 'unsafe-inline'; img-src 'self' data:; connect-src 'self'; font-src 'self' data:; object-src 'none'; base-uri 'self'; frame-ancestors 'none'"@),
{
    assert(is_plain_name("x-frame-options"@)) by {
        reveal_strlit("x-frame-options");
        reveal_with_fuel(holds_between, 6);
        assert(holds_between("x-frame-options"@, 0, 15, |c: char| is_name_char(c)));
        holds_everywhere("x-frame-options"@, 0, 15, |c: char| is_name_char(c));
    }
    assert(is_visible_text("DENY"@)) by {
        reveal_strlit("DENY");
        reveal_with_fuel(holds_between, 4);
        assert(holds_between("DENY"@, 0, 4, |c: char| is_visible(c)));
        holds_everywhere("DENY"@, 0, 4, |c: char| is_visible(c));
    }
    assert(is_plain_name("x-content-type-options"@)) by {
        reveal_strlit("x-content-type-options");
        reveal_with_fuel(holds_between, 7);
        assert(holds_between("x-content-type-options"@, 0, 22, |c: char| is_name_char(c)));
        holds_everywhere("x-content-type-options"@, 0, 22, |c: char| is_name_char(c));
    }
    assert(is_visible_text("nosniff"@)) by {
        reveal_strlit("nosniff");
        reveal_with_fuel(holds_between, 5);
        assert(holds_between("nosniff"@, 0, 7, |c: char| is_visible(c)));
        holds_everywhere("nosniff"@, 0, 7, |c: char| is_visible(c));
    }
    assert(is_plain_name("referrer-policy"@)) by {
        reveal_strlit("referrer-policy");
        reveal_with_fuel(holds_between, 6);
        assert(holds_between("referrer-policy"@, 0, 15, |c: char| is_name_char(c)));
        holds_everywhere("referrer-policy"@, 0, 15, |c: char| is_name_char(c));
    }
    assert(is_visible_text("same-origin"@)) by {
        reveal_strlit("same-origin");
        reveal_with_fuel(holds_between, 6);
        assert(holds_between("same-origin"@, 0, 11, |c: char| is_visible(c)));
        holds_everywhere("same-origin"@, 0, 11, |c: char| is_visible(c));
    }
    assert(is_plain_name("content-security-policy"@)) by {
        reveal_strlit("content-security-policy");
        reveal_with_fuel(holds_between, 7);
        assert(holds_between("content-security-policy"@, 0, 23, |c: char| is_name_char(c)));
        holds_everywhere("content-security-policy"@, 0, 23, |c: char| is_name_char(c));
    }
    assert(is_visible_text("default-src 'self'; script-src 'self' 'unsafe-inline' https://cdn.tailwindcss.com https://cdn.jsdelivr.net https://cdn.jsdelivr.net/npm/chart.js; style-src 'self' 'unsafe-inline'; img-src 'self' data:; connect-src 'self'; font-src 'self' data:; object-src 'none'; base-uri 'self'; frame-ancestors 'none'"@)) by {
        reveal_strlit("default-src 'self'; script-src 'self' 'unsafe-inline' https://cdn.tailwindcss.com https://cdn.jsdelivr.net https://cdn.jsdelivr.net/npm/chart.js; style-src 'self' 'unsafe-inline'; img-src 'self' data:; connect-src 'self'; font-src 'self' data:; object-src 'none'; base-uri 'self'; frame-ancestors 'none'");
        reveal_with_fuel(holds_between, 11);
        assert(holds_between("default-src 'self'; script-src 'self' 'unsafe-inline' https://cdn.tailwindcss.com https://cdn.jsdelivr.net https://cdn.jsdelivr.net/npm/chart.js; style-src 'self' 'unsafe-inline'; img-src 'self' data:; connect-src 'self'; font-src 'self' data:; object-src 'none'; base-uri 'self'; frame-ancestors 'none'"@, 0, 303, |c: char| is_visible(c)));
        holds_everywhere("default-src 'self'; script-src 'self' 'unsafe-inline' https://cdn.tailwindcss.com https://cdn.jsdelivr.net https://cdn.jsdelivr.net/npm/chart.js; style-src 'self' 'unsafe-inline'; img-src 'self' data:; connect-src 'self'; font-src 'self' data:; object-src 'none'; base-uri 'self'; frame-ancestors 'none'"@, 0, 303, |c: char| is_visible(c));
    }
}

/// Headers with the first so many of those that make browsers careful with the
/// admin interface.
pub open spec fn admin_lists_to(lists: Map<Seq<char>, Seq<Seq<u8>>>, count: int) -> Map<Seq<char>, Seq<Seq<u8>>> {
    let step1 = with_header(lists, "x-frame-options"@, "DENY"@);
    let step2 = with_header(step1, "x-content-type-options"@, "nosniff"@);
    let step3 = with_header(step2, "referrer-policy"@, "same-origin"@);
    let step4 = with_header(step3, "content-security-policy"@, "default-src 'self'; script-src 'self' 'unsafe-inline' https://cdn.tailwindcss.com https://cdn.jsdelivr.net https://cdn.jsdelivr.net/npm/chart.js; style-src 'self' 'unsafe-inline'; img-src 'self' data:; connect-src 'self'; font-src 'self' data:; object-src 'none'; base-uri 'self'; frame-ancestors 'none'"@);
    if count <= 0 {
        lists
    } else if count == 1 {
        step1
    } else if count == 2 {
        step2
    } else if count == 3 {
        step3
    } else {
        step4
    }
}

/// Headers with those that make browsers careful with the admin interface.
pub open spec fn admin_lists(lists: Map<Seq<char>, Seq<Seq<u8>>>) -> Map<Seq<char>, Seq<Seq<u8>>> {
    admin_lists_to(lists, 4)
}

/// Headers that have the first so many of those that make browsers careful are
/// on the way, and the others fit if all did at first.
proof fn admin_lists_are_on_the_way(lists: Map<Seq<char>, Seq<Seq<u8>>>, count: int)
    requires
        0 <= count <= 4,
    ensures
        on_the_way(lists, admin_lists(lists), admin_lists_to(lists, count)),
        has_room(lists, 4) ==> has_room(admin_lists_to(lists, count), 4 - count),
{
    reveal_strlit("x-frame-options");
    reveal_strlit("x-content-type-options");
    reveal_strlit("referrer-policy");
    reveal_strlit("content-security-policy");
    assert("x-frame-options"@[0] == 'x');
    assert("x-frame-options"@.len() == 15);
    assert("x-content-type-options"@.len() == 22);
    assert("referrer-policy"@[0] == 'r');
    assert("referrer-policy"@.len() == 15);
    assert("content-security-policy"@.len() == 23);
}

/// Puts the headers on an answer that make browsers careful. This can fail only
/// where four more names are not sure to fit, and may then have changed some of
/// these headers already.
pub fn set_security_headers(headers: &mut HeaderMap) -> (outcome: Result<(), ProxyError>)
    ensures
        match outcome {
            Ok(_) => header_lists(*final(headers)) == admin_lists(header_lists(*old(headers))),
            Err(e) => {
                &&& e@ == ProxyProblem::TooManyHeaders
                &&& !has_room(header_lists(*old(headers)), 4)
                &&& on_the_way(
                    header_lists(*old(headers)),
                    admin_lists(header_lists(*old(headers))),
                    header_lists(*final(headers)),
                )
            },
        },
{
    let ghost lists = header_lists(*headers);
    proof {
        admin_header_texts();
        admin_lists_are_on_the_way(lists, 0);
    }
    match set_header(headers, "x-frame-options", "DENY") {
        Ok(_) => {},
        Err(e) => return Err(e),
    }
    proof {
        admin_lists_are_on_the_way(lists, 1);
    }
    match set_header(headers, "x-content-type-options", "nosniff") {
        Ok(_) => {},
        Err(e) => return Err(e),
    }
    proof {
        admin_lists_are_on_the_way(lists, 2);
    }
    match set_header(headers, "referrer-policy", "same-origin") {
        Ok(_) => {},
        Err(e) => return Err(e),
    }
    proof {
        admin_lists_are_on_the_way(lists, 3);
    }
    set_header(headers, "content-security-policy", "default-src 'self'; script-src 'self' 'unsafe-inline' https://cdn.tailwindcss.com https://cdn.jsdelivr.net https://cdn.jsdelivr.net/npm/chart.js; style-src 'self' 'unsafe-inline'; img-src 'self' data:; connect-src 'self'; font-src 'self' data:; object-src 'none'; base-uri 'self'; frame-ancestors 'none'")
}

/// Which attack logs are asked for.
#[derive(Debug, Clone, Copy, PartialEq, Eq, Structural)]
pub enum LogSelection {
    All,
    Latest(i64),
}

/// Which attack logs are asked for: all of them, so many of the latest, or 100
/// where no number is given.
pub open spec fn selected_logs(limit: Option<Seq<char>>) -> LogSelection {
    match limit {
        Some(text) => if text == "all"@ {
            LogSelection::All
        } else {
            match signed_value(text, 10) {
                Some(n) if i64::MIN <= n <= i64::MAX => LogSelection::Latest(n as i64),
                _ => LogSelection::Latest(100),
            }
        },
        None => LogSelection::Latest(100),
    }
}

/// Which attack logs are asked for.
pub fn select_logs(limit: Option<&str>) -> (selection: LogSelection)
    ensures
        selection == selected_logs(opt_str(limit)),
{
    match limit {
        Some(text) => {
            if same_text(text, "all") {
                return LogSelection::All;
            }
            match parse_signed(text) {
                Some(n) => LogSelection::Latest(n),
                None => LogSelection::Latest(100),
            }
        },
        None => LogSelection::Latest(100),
    }
}

/// The number of logs that are read: 100 where the number asked for is not
/// positive.
pub fn sanitize_limit(limit: i64) -> (sanitized: i64)
    ensures
        sanitized == (if limit <= 0 {
            100
        } else {
            limit
        }),
        sanitized > 0,
{
    if limit <= 0 {
        100
    } else {
        limit
    }
}

/// What was looked for, if it was found.
pub fn found_or<T>(found: Option<T>, message: &str) -> (outcome: Result<T, ApiError>)
    ensures
        match outcome {
            Ok(value) => found == Some(value),
            Err(e) => found is None && e@ == not_found(message@),
        },
{
    match found {
        Some(value) => Ok(value),
        None => Err(ApiError::not_found(message)),
    }
}

/// The status that answers a deletion: 204, if something was deleted.
pub fn deletion_status(deleted: bool, message: &str) -> (outcome: Result<u16, ApiError>)
    ensures
        match outcome {
            Ok(status) => deleted && status == 204,
            Err(e) => !deleted && e@ == not_found(message@),
        },
{
    if deleted {
        Ok(204)
    } else {
        Err(ApiError::not_found(message))
    }
}

/// Whether a summary shows what it may of a user.
pub open spec fn summarizes(summary: UserSummary, user: User) -> bool {
    &&& summary.id == user.id
    &&& summary.username == user.username
    &&& summary.role == user.role
    &&& summary.created_at == user.created_at
}

/// What is shown of a user.
pub fn summarize_user(user: User) -> (summary: UserSummary)
    ensures
        summarizes(summary, user),
{
    UserSummary { id: user.id, username: user.username, role: user.role, created_at: user.created_at }
}

/// What is shown of users, in the same order.
pub fn summarize_users(users: Vec<User>) -> (summaries: Vec<UserSummary>)
    ensures
        summaries@.len() == users@.len(),
        forall|i: int| 0 <= i < users@.len() ==> summarizes(#[trigger] summaries@[i], users@[i]),
{
    let ghost all = users@;
    let mut rest = users;
    let mut summaries: Vec<UserSummary> = Vec::new();
    while rest.len() > 0
        invariant
            rest@.len() + summaries@.len() == all.len(),
            rest@ =~= all.skip(summaries@.len() as int),
            forall|i: int| 0 <= i < summaries@.len() ==> summarizes(#[trigger] summaries@[i], all[i]),
        decreases rest@.len(),
    {
        let user = rest.remove(0);
        summaries.push(summarize_user(user));
    }
    summaries
}

/// A user who is to be stored, with the hash of the password.
pub fn new_user(username: String, password: &str, role: UserRole) -> (user: NewUser)
    ensures
        user.username == username,
        user.password_hash@ == password_hash(password@),
        user.role == role,
{
    NewUser { username, password_hash: hash_password(password), role }
}

/// What is to change of a stored user.
#[derive(Debug, Clone)]
pub struct UserUpdate {
    pub password_hash: Option<String>,
    pub role: Option<String>,
}

/// What is to change of a stored user: the hash of the password and the name of
/// the role, where they are given.
pub fn user_update(password: Option<&str>, role: Option<UserRole>) -> (update: UserUpdate)
    ensures
        opt_text(update.password_hash) == (match password {
            Some(p) => Some(password_hash(p@)),
            None => None,
        }),
        opt_text(update.role) == (match role {
            Some(r) => Some(role_name(r)),
            None => None,
        }),
{
    let password_hash = match password {
        Some(p) => Some(hash_password(p)),
        None => None,
    };
    let role = match role {
        Some(r) => Some(r.as_str().to_string()),
        None => None,
    };
    UserUpdate { password_hash, role }
}

/// The user `admin`, who is to be stored if there is none of that name.
pub fn default_admin_user(existing: Option<&User>) -> (user: Option<NewUser>)
    ensures
        match user {
            Some(u) => {
                &&& existing is None
                &&& u.username@ == "admin"@
                &&& u.password_hash@ == password_hash("admin123"@)
                &&& u.role is Admin
            },
            None => existing is Some,
        },
{
    if existing.is_some() {
        return None;
    }
    Some(new_user("admin".to_string(), "admin123", UserRole::Admin))
}

/// Whether a stored user is the one that was to be stored.
pub open spec fn stored_as(user: User, new: NewUser) -> bool {
    &&& user.username@ == new.username@
    &&& user.password_hash@ == new.password_hash@
    &&& user.role@ == role_name(new.role)
}

/// A user who was created with a password can log in with it, and with no
/// password that has another hash.
pub proof fn created_user_can_log_in(user: User, new: NewUser, password: Seq<char>, other: Seq<char>)
    requires
        new.password_hash@ == password_hash(password),
        stored_as(user, new),
    ensures
        knows_password(user, password),
        knows_password(user, other) <==> password_hash(other) == password_hash(password),
{
}

/// Whether a configuration that was sent can be accepted.
pub fn accept_config(config: &Config) -> (outcome: Result<(), ApiError>)
    ensures
        match outcome {
            Ok(_) => config_problem(config@) is None,
            Err(e) => match config_problem(config@) {
                Some(problem) => e@ == bad_request(problem_text(problem)),
                None => false,
            },
        },
{
    match load_config_from_value(config) {
        Ok(_) => Ok(()),
        Err(e) => Err(ApiError::bad_request(e.message())),
    }
}

/// The configuration that takes effect when one was accepted: the environment
/// overrides it.
pub fn effective_config(config: Config, env: &RuntimeEnv) -> (outcome: Result<Config, ApiError>)
    ensures
        match outcome {
            Ok(effective) => overridden(config@, *env).problem is None && effective@ == overridden(config@, *env).config,
            Err(e) => match overridden(config@, *env).problem {
                Some(problem) => e@ == bad_request(problem_text(problem)),
                None => false,
            },
        },
{
    let mut effective = config;
    match apply_runtime_env_overrides(&mut effective, env) {
        Ok(_) => Ok(effective),
        Err(e) => Err(ApiError::bad_request(e.message())),
    }
}

/// The compiled rules, if rules that were sent can be accepted.
pub fn accept_rules(rules: &[Rule]) -> (outcome: Result<Vec<CompiledRule>, ApiError>)
    ensures
        match outcome {
            Ok(compiled) => rules_problem(rules@) is None && all_compiled_as(rules@, compiled@),
            Err(e) => match rules_problem(rules@) {
                Some(problem) => e@ == bad_request(problem_text(problem)),
                None => false,
            },
        },
{
    match load_rules_from_value(rules) {
        Ok(_) => {},
        Err(e) => return Err(ApiError::bad_request(e.message())),
    }
    match compile_rules(rules) {
        Ok(compiled) => Ok(compiled),
        Err(e) => Err(ApiError::bad_request(e.message())),
    }
}

} // verus!
