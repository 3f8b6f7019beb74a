//! The configuration: what makes it valid, how the environment overrides it,
//! and where its files are. Paths are texts as Unix has them: a slash stands
//! between components, and a path that begins with one is absolute.
use crate::models::{opt_text, CompiledRule, Config, ConfigView, Rule, SecurityPolicies, WafMode};
use crate::number::{at_most, parse_unsigned, unsigned_value};
use crate::outside::{matched_texts, pattern_texts, url_parsed};
use crate::text::{
    ascii_lower, begins_with, blank_text, chars_of, ends_with_text, is_blank, lower_text, same_text,
    starts_with_text, text_between, trim, trim_text,
};
use vstd::prelude::*;

verus! {

/// Why a configuration is refused.
#[derive(Debug, Clone)]
pub enum ConfigError {
    InvalidTargetUrl(String),
    SamePorts,
    EmptyInterceptorHost,
    EmptyTlsCertPath,
    EmptyTlsKeyPath,
    NoRules,
    InvalidRegex(String),
    NotUnicode(String),
    InvalidMode,
    InvalidPort(String),
    UnresolvedDataDir(String),
    FilesNotFound { manifest_dir: String, data_dir: String },
    UnresolvedManifestDir(String),
    UnresolvedWorkingDir(String),
    UnresolvedExecutableDir(String),
    DataDirNotFound { working_dir: String, manifest_dir: String },
}

/// What an error says.
pub enum ConfigProblem {
    InvalidTargetUrl(Seq<char>),
    SamePorts,
    EmptyInterceptorHost,
    EmptyTlsCertPath,
    EmptyTlsKeyPath,
    NoRules,
    InvalidRegex(Seq<char>),
    NotUnicode(Seq<char>),
    InvalidMode,
    InvalidPort(Seq<char>),
    UnresolvedDataDir(Seq<char>),
    FilesNotFound { manifest_dir: Seq<char>, data_dir: Seq<char> },
    UnresolvedManifestDir(Seq<char>),
    UnresolvedWorkingDir(Seq<char>),
    UnresolvedExecutableDir(Seq<char>),
    DataDirNotFound { working_dir: Seq<char>, manifest_dir: Seq<char> },
}

impl View for ConfigError {
    type V = ConfigProblem;

    open spec fn view(&self) -> ConfigProblem {
        match self {
            ConfigError::InvalidTargetUrl(url) => ConfigProblem::InvalidTargetUrl(url@),
            ConfigError::SamePorts => ConfigProblem::SamePorts,
            ConfigError::EmptyInterceptorHost => ConfigProblem::EmptyInterceptorHost,
            ConfigError::EmptyTlsCertPath => ConfigProblem::EmptyTlsCertPath,
            ConfigError::EmptyTlsKeyPath => ConfigProblem::EmptyTlsKeyPath,
            ConfigError::NoRules => ConfigProblem::NoRules,
            ConfigError::InvalidRegex(id) => ConfigProblem::InvalidRegex(id@),
            ConfigError::NotUnicode(key) => ConfigProblem::NotUnicode(key@),
            ConfigError::InvalidMode => ConfigProblem::InvalidMode,
            ConfigError::InvalidPort(key) => ConfigProblem::InvalidPort(key@),
            ConfigError::UnresolvedDataDir(dir) => ConfigProblem::UnresolvedDataDir(dir@),
            ConfigError::FilesNotFound { manifest_dir, data_dir } => ConfigProblem::FilesNotFound {
                manifest_dir: manifest_dir@,
                data_dir: data_dir@,
            },
            ConfigError::UnresolvedManifestDir(dir) => ConfigProblem::UnresolvedManifestDir(dir@),
            ConfigError::UnresolvedWorkingDir(dir) => ConfigProblem::UnresolvedWorkingDir(dir@),
            ConfigError::UnresolvedExecutableDir(dir) => ConfigProblem::UnresolvedExecutableDir(dir@),
            ConfigError::DataDirNotFound { working_dir, manifest_dir } => ConfigProblem::DataDirNotFound {
                working_dir: working_dir@,
                manifest_dir: manifest_dir@,
            },
        }
    }
}

/// The words in which a problem is told.
pub open spec fn problem_text(problem: ConfigProblem) -> Seq<char> {
    match problem {
        ConfigProblem::InvalidTargetUrl(url) => "target_url '"@ + url + "' is not a valid URL"@,
        ConfigProblem::SamePorts => "admin_port and interceptor_port must be different"@,
        ConfigProblem::EmptyInterceptorHost => "interceptor_host must not be empty"@,
        ConfigProblem::EmptyTlsCertPath => "tls_cert_path must not be empty"@,
        ConfigProblem::EmptyTlsKeyPath => "tls_key_path must not be empty"@,
        ConfigProblem::NoRules => "rules list must contain at least one rule"@,
        ConfigProblem::InvalidRegex(id) => "invalid regex for rule '"@ + id + "'"@,
        ConfigProblem::NotUnicode(key) => "environment variable '"@ + key + "' is not valid Unicode"@,
        ConfigProblem::InvalidMode => "WAF_MODE must be either 'active' or 'passive'"@,
        ConfigProblem::InvalidPort(key) => "environment variable '"@ + key + "' must be a valid TCP port"@,
        ConfigProblem::UnresolvedDataDir(dir) => "failed to canonicalize '"@ + dir + "'"@,
        ConfigProblem::FilesNotFound { manifest_dir, data_dir } =>
            "runtime files were not found in explicit env paths, '/app/config', '"@ + manifest_dir + "' or '"@
            + data_dir + "'"@,
        ConfigProblem::UnresolvedManifestDir(dir) => "failed to canonicalize manifest data directory '"@ + dir + "'"@,
        ConfigProblem::UnresolvedWorkingDir(dir) => "failed to canonicalize cwd data directory '"@ + dir + "'"@,
        ConfigProblem::UnresolvedExecutableDir(dir) =>
            "failed to canonicalize executable-relative data directory '"@ + dir + "'"@,
        ConfigProblem::DataDirNotFound { working_dir, manifest_dir } =>
            "data directory was not found in '"@ + working_dir + "', '"@ + manifest_dir + "' or near executable"@,
    }
}

impl ConfigError {
    /// The words in which the error is told.
    pub fn message(&self) -> (text: String)
        ensures
            text@ == problem_text(self@),
    {
        match self {
            ConfigError::InvalidTargetUrl(url) => quoting("target_url '", url.as_str(), "' is not a valid URL"),
            ConfigError::SamePorts => "admin_port and interceptor_port must be different".to_string(),
            ConfigError::EmptyInterceptorHost => "interceptor_host must not be empty".to_string(),
            ConfigError::EmptyTlsCertPath => "tls_cert_path must not be empty".to_string(),
            ConfigError::EmptyTlsKeyPath => "tls_key_path must not be empty".to_string(),
            ConfigError::NoRules => "rules list must contain at least one rule".to_string(),
            ConfigError::InvalidRegex(id) => quoting("invalid regex for rule '", id.as_str(), "'"),
            ConfigError::NotUnicode(key) => quoting(
                "environment variable '",
                key.as_str(),
                "' is not valid Unicode",
            ),
            ConfigError::InvalidMode => "WAF_MODE must be either 'active' or 'passive'".to_string(),
            ConfigError::InvalidPort(key) => quoting(
                "environment variable '",
                key.as_str(),
                "' must be a valid TCP port",
            ),
            ConfigError::UnresolvedDataDir(dir) => quoting("failed to canonicalize '", dir.as_str(), "'"),
            ConfigError::FilesNotFound { manifest_dir, data_dir } => {
                let mut text = quoting(
                    "runtime files were not found in explicit env paths, '/app/config', '",
                    manifest_dir.as_str(),
                    "' or '",
                );
                text.append(data_dir.as_str());
                text.append("'");
                text
            },
            ConfigError::UnresolvedManifestDir(dir) => quoting(
                "failed to canonicalize manifest data directory '",
                dir.as_str(),
                "'",
            ),
            ConfigError::UnresolvedWorkingDir(dir) => quoting(
                "failed to canonicalize cwd data directory '",
                dir.as_str(),
                "'",
            ),
            ConfigError::UnresolvedExecutableDir(dir) => quoting(
                "failed to canonicalize executable-relative data directory '",
                dir.as_str(),
                "'",
            ),
            ConfigError::DataDirNotFound { working_dir, manifest_dir } => {
                let mut text = quoting("data directory was not found in '", working_dir.as_str(), "', '");
                text.append(manifest_dir.as_str());
                text.append("' or near executable");
                text
            },
        }
    }
}

/// A text between two others.
pub(crate) fn quoting(before: &str, quoted: &str, after: &str) -> (text: String)
    ensures
        text@ == before@ + quoted@ + after@,
{
    let mut text = before.to_string();
    text.append(quoted);
    text.append(after);
    text
}

/// The first thing that is wrong with a configuration, if anything is.
pub open spec fn config_problem(config: ConfigView) -> Option<ConfigProblem> {
    if url_parsed(config.target_url) is None {
        Some(ConfigProblem::InvalidTargetUrl(config.target_url))
    } else if config.admin_port == config.interceptor_port {
        Some(ConfigProblem::SamePorts)
    } else if is_blank(config.interceptor_host) {
        Some(ConfigProblem::EmptyInterceptorHost)
    } else if is_blank(config.tls_cert_path) {
        Some(ConfigProblem::EmptyTlsCertPath)
    } else if is_blank(config.tls_key_path) {
        Some(ConfigProblem::EmptyTlsKeyPath)
    } else {
        None
    }
}

/// What a check comes to: the problem it found, if any.
pub open spec fn problem_of<T>(outcome: Result<T, ConfigError>) -> Option<ConfigProblem> {
    match outcome {
        Ok(_) => None,
        Err(e) => Some(e@),
    }
}

/// The part of the check of a configuration that follows the look at its URL.
pub fn validate_parsed_config(config: &Config, parsed: bool) -> (outcome: Result<(), ConfigError>)
    ensures
        problem_of(outcome) == (if !parsed {
            Some(ConfigProblem::InvalidTargetUrl(config.target_url@))
        } else if config.admin_port == config.interceptor_port {
            Some(ConfigProblem::SamePorts)
        } else if is_blank(config.interceptor_host@) {
            Some(ConfigProblem::EmptyInterceptorHost)
        } else if is_blank(config.tls_cert_path@) {
            Some(ConfigProblem::EmptyTlsCertPath)
        } else if is_blank(config.tls_key_path@) {
            Some(ConfigProblem::EmptyTlsKeyPath)
        } else {
            None
        }),
{
    if !parsed {
        return Err(ConfigError::InvalidTargetUrl(config.target_url.clone()));
    }
    if config.admin_port == config.interceptor_port {
        return Err(ConfigError::SamePorts);
    }
    if blank_text(config.interceptor_host.as_str()) {
        return Err(ConfigError::EmptyInterceptorHost);
    }
    if blank_text(config.tls_cert_path.as_str()) {
        return Err(ConfigError::EmptyTlsCertPath);
    }
    if blank_text(config.tls_key_path.as_str()) {
        return Err(ConfigError::EmptyTlsKeyPath);
    }
    Ok(())
}

/// Whether a configuration is valid: its URL parses, its two ports differ, and
/// neither its host nor its two TLS paths are blank.
pub fn validate_config_structure(config: &Config) -> (outcome: Result<(), ConfigError>)
    ensures
        problem_of(outcome) == config_problem(config@),
{
    validate_parsed_config(config, url::Url::parse(config.target_url.as_str()).is_ok())
}

/// Whether a configuration that was sent is valid.
pub fn load_config_from_value(config: &Config) -> (outcome: Result<(), ConfigError>)
    ensures
        problem_of(outcome) == config_problem(config@),
{
    validate_config_structure(config)
}

/// The configuration that was read, if it is valid.
pub fn load_config(config: Config) -> (loaded: Result<Config, ConfigError>)
    ensures
        match loaded {
            Ok(c) => c == config && config_problem(config@) is None,
            Err(e) => config_problem(config@) == Some(e@),
        },
{
    match validate_config_structure(&config) {
        Ok(_) => Ok(config),
        Err(e) => Err(e),
    }
}

/// The id of the first rule whose expression does not compile.
pub open spec fn first_bad_rule(rules: Seq<Rule>) -> Option<Seq<char>>
    decreases rules.len(),
{
    if rules.len() == 0 {
        None
    } else if pattern_texts(rules[0].regex@) is None {
        Some(rules[0].id@)
    } else {
        first_bad_rule(rules.drop_first())
    }
}

/// The first thing that is wrong with a list of rules, if anything is.
pub open spec fn rules_problem(rules: Seq<Rule>) -> Option<ConfigProblem> {
    if rules.len() == 0 {
        Some(ConfigProblem::NoRules)
    } else {
        match first_bad_rule(rules) {
            Some(id) => Some(ConfigProblem::InvalidRegex(id)),
            None => None,
        }
    }
}

/// Whether a rule is compiled: the compiled rule has its id, name and severity,
/// and finds a match where the rule's expression does.
pub open spec fn compiled_as(rule: Rule, compiled: CompiledRule) -> bool {
    &&& compiled.id@ == rule.id@
    &&& compiled.name@ == rule.name@
    &&& compiled.severity == rule.severity
    &&& pattern_texts(rule.regex@) == Some(matched_texts(compiled.regex))
}

/// Whether rules are compiled, one by one.
pub open spec fn all_compiled_as(rules: Seq<Rule>, compiled: Seq<CompiledRule>) -> bool {
    &&& compiled.len() == rules.len()
    &&& forall|i: int| 0 <= i < rules.len() ==> compiled_as(#[trigger] rules[i], compiled[i])
}

/// The rules with their expressions compiled.
pub fn compile_rules(rules: &[Rule]) -> (outcome: Result<Vec<CompiledRule>, ConfigError>)
    ensures
        match outcome {
            Ok(compiled) => first_bad_rule(rules@) is None && all_compiled_as(rules@, compiled@),
            Err(e) => match first_bad_rule(rules@) {
                Some(id) => e@ == ConfigProblem::InvalidRegex(id),
                None => false,
            },
        },
{
    let mut compiled: Vec<CompiledRule> = Vec::new();
    let mut i: usize = 0;
    proof {
        assert(rules@.skip(0) =~= rules@);
    }
    while i < rules.len()
        invariant
            i <= rules@.len(),
            first_bad_rule(rules@) == first_bad_rule(rules@.skip(i as int)),
            all_compiled_as(rules@.take(i as int), compiled@),
        decreases rules@.len() - i,
    {
        let rule = &rules[i];
        proof {
            assert(rules@.skip(i as int).drop_first() =~= rules@.skip(i + 1));
        }
        match regex::Regex::new(rule.regex.as_str()) {
            Ok(regex) => {
                compiled.push(
                    CompiledRule { id: rule.id.clone(), name: rule.name.clone(), severity: rule.severity, regex },
                );
            },
            Err(_) => {
                return Err(ConfigError::InvalidRegex(rule.id.clone()));
            },
        }
        i += 1;
        proof {
            assert forall|j: int| 0 <= j < i implies compiled_as(#[trigger] rules@.take(i as int)[j], compiled@[j]) by {
                if j < i - 1 {
                    assert(rules@.take(i - 1)[j] == rules@[j]);
                }
            }
        }
    }
    proof {
        assert(rules@.take(rules@.len() as int) =~= rules@);
    }
    Ok(compiled)
}

/// Whether a list of rules is valid: it is not empty, and every expression
/// compiles.
pub fn validate_rules(rules: &[Rule]) -> (outcome: Result<(), ConfigError>)
    ensures
        problem_of(outcome) == rules_problem(rules@),
{
    if rules.len() == 0 {
        return Err(ConfigError::NoRules);
    }
    match compile_rules(rules) {
        Ok(_) => Ok(()),
        Err(e) => Err(e),
    }
}

/// Whether a list of rules that was sent is valid.
pub fn load_rules_from_value(rules: &[Rule]) -> (outcome: Result<(), ConfigError>)
    ensures
        problem_of(outcome) == rules_problem(rules@),
{
    validate_rules(rules)
}

/// The rules that were read, if they are valid.
pub fn load_rules(rules: Vec<Rule>) -> (loaded: Result<Vec<Rule>, ConfigError>)
    ensures
        match loaded {
            Ok(r) => r == rules && rules_problem(rules@) is None,
            Err(e) => rules_problem(rules@) == Some(e@),
        },
{
    match validate_rules(rules.as_slice()) {
        Ok(_) => Ok(rules),
        Err(e) => Err(e),
    }
}

/// Any policies that were sent are valid.
pub fn load_security_policies_from_value(policies: &SecurityPolicies) -> (outcome: Result<(), ConfigError>)
    ensures
        outcome is Ok,
{
    Ok(())
}

/// Rules that are valid compile.
pub proof fn valid_rules_compile(rules: Seq<Rule>)
    requires
        rules_problem(rules) is None,
    ensures
        first_bad_rule(rules) is None,
{
}

/// What the analyzer works with.
#[derive(Debug, Clone)]
pub struct SharedState {
    pub config: Config,
    pub rules: Vec<Rule>,
    pub compiled_rules: Vec<CompiledRule>,
    pub security_policies: SecurityPolicies,
}

impl SharedState {
    /// Whether the compiled rules are the rules, compiled.
    pub open spec fn is_consistent(self) -> bool {
        all_compiled_as(self.rules@, self.compiled_rules@)
    }

    /// The state with this configuration and these rules and policies, if the
    /// rules compile.
    pub fn new(config: Config, rules: Vec<Rule>, security_policies: SecurityPolicies) -> (outcome: Result<
        SharedState,
        ConfigError,
    >)
        ensures
            match outcome {
                Ok(state) => {
                    &&& first_bad_rule(rules@) is None
                    &&& state.config == config
                    &&& state.rules == rules
                    &&& state.security_policies == security_policies
                    &&& state.is_consistent()
                },
                Err(e) => match first_bad_rule(rules@) {
                    Some(id) => e@ == ConfigProblem::InvalidRegex(id),
                    None => false,
                },
            },
    {
        match compile_rules(rules.as_slice()) {
            Ok(compiled_rules) => Ok(SharedState { config, rules, compiled_rules, security_policies }),
            Err(e) => Err(e),
        }
    }
}

/// What a reading of an environment variable found.
#[derive(Debug, Clone)]
pub enum EnvValue {
    Present(String),
    Absent,
    NotUnicode,
}

/// An environment variable, and what a reading of it found.
#[derive(Debug, Clone)]
pub struct EnvReading {
    pub key: String,
    pub value: EnvValue,
}

/// What is taken from the first of some environment variables that is there:
/// its value if that is not blank.
pub open spec fn env_value(readings: Seq<EnvReading>) -> Result<Option<Seq<char>>, ConfigProblem>
    decreases readings.len(),
{
    if readings.len() == 0 {
        Ok(None)
    } else {
        match readings[0].value {
            EnvValue::Present(value) => if is_blank(value@) {
                Ok(None)
            } else {
                Ok(Some(value@))
            },
            EnvValue::Absent => env_value(readings.drop_first()),
            EnvValue::NotUnicode => Err(ConfigProblem::NotUnicode(readings[0].key@)),
        }
    }
}

/// What is taken from the first of some environment variables that is there.
pub fn get_env_value(readings: &[EnvReading]) -> (found: Result<Option<String>, ConfigError>)
    ensures
        match found {
            Ok(value) => env_value(readings@) == Ok::<Option<Seq<char>>, ConfigProblem>(opt_text(value)),
            Err(e) => env_value(readings@) == Err::<Option<Seq<char>>, ConfigProblem>(e@),
        },
{
    let mut i: usize = 0;
    proof {
        assert(readings@.skip(0) =~= readings@);
    }
    while i < readings.len()
        invariant
            i <= readings@.len(),
            env_value(readings@) == env_value(readings@.skip(i as int)),
        decreases readings@.len() - i,
    {
        let reading = &readings[i];
        proof {
            assert(readings@.skip(i as int)[0] == *reading);
            assert(readings@.skip(i as int).drop_first() =~= readings@.skip(i + 1));
        }
        match &reading.value {
            EnvValue::Present(value) => {
                if blank_text(value.as_str()) {
                    return Ok(None);
                }
                return Ok(Some(value.clone()));
            },
            EnvValue::Absent => {},
            EnvValue::NotUnicode => {
                return Err(ConfigError::NotUnicode(reading.key.clone()));
            },
        }
        i += 1;
    }
    Ok(None)
}

/// What is taken from one environment variable.
pub open spec fn env_text(key: Seq<char>, value: EnvValue) -> Result<Option<Seq<char>>, ConfigProblem> {
    match value {
        EnvValue::Present(value) => if is_blank(value@) {
            Ok(None)
        } else {
            Ok(Some(value@))
        },
        EnvValue::Absent => Ok(None),
        EnvValue::NotUnicode => Err(ConfigProblem::NotUnicode(key)),
    }
}

/// What is taken from one environment variable.
fn single_env_value(key: &str, value: &EnvValue) -> (found: Result<Option<String>, ConfigError>)
    ensures
        match found {
            Ok(text) => env_text(key@, *value) == Ok::<Option<Seq<char>>, ConfigProblem>(opt_text(text)),
            Err(e) => env_text(key@, *value) == Err::<Option<Seq<char>>, ConfigProblem>(e@),
        },
{
    let value = match value {
        EnvValue::Present(text) => EnvValue::Present(text.clone()),
        EnvValue::Absent => EnvValue::Absent,
        EnvValue::NotUnicode => EnvValue::NotUnicode,
    };
    let readings: Vec<EnvReading> = vec![EnvReading { key: key.to_string(), value }];
    proof {
        reveal_with_fuel(env_value, 2);
    }
    get_env_value(readings.as_slice())
}

/// The mode that a text names.
pub open spec fn mode_named(text: Seq<char>) -> Option<WafMode> {
    if ascii_lower(trim(text)) == "active"@ {
        Some(WafMode::Active)
    } else if ascii_lower(trim(text)) == "passive"@ {
        Some(WafMode::Passive)
    } else {
        None
    }
}

/// The mode that a text names.
pub fn parse_waf_mode(value: &str) -> (mode: Result<WafMode, ConfigError>)
    ensures
        match mode {
            Ok(m) => mode_named(value@) == Some(m),
            Err(e) => mode_named(value@) is None && e@ == ConfigProblem::InvalidMode,
        },
{
    let trimmed = trim_text(value);
    let name = lower_text(trimmed.as_str());
    if same_text(name.as_str(), "active") {
        Ok(WafMode::Active)
    } else if same_text(name.as_str(), "passive") {
        Ok(WafMode::Passive)
    } else {
        Err(ConfigError::InvalidMode)
    }
}

/// The port that a text gives in decimal.
pub open spec fn port_named(text: Seq<char>) -> Option<int> {
    at_most(unsigned_value(trim(text), 10), 65535)
}

/// The port that a text gives in decimal.
pub fn parse_port(value: &str, env_name: &str) -> (port: Result<u16, ConfigError>)
    ensures
        match port {
            Ok(p) => port_named(value@) == Some(p as int),
            Err(e) => port_named(value@) is None && e@ == ConfigProblem::InvalidPort(env_name@),
        },
{
    let trimmed = trim_text(value);
    match parse_unsigned(trimmed.as_str(), 10, 65535) {
        Some(p) => Ok(p as u16),
        None => Err(ConfigError::InvalidPort(env_name.to_string())),
    }
}

/// The URL that a text stands for: `http://` is put in front where no scheme of
/// HTTP is given.
pub open spec fn target_named(text: Seq<char>) -> Seq<char> {
    if begins_with(trim(text), "http://"@) || begins_with(trim(text), "https://"@) {
        trim(text)
    } else {
        "http://"@ + trim(text)
    }
}

/// The URL that a text stands for.
pub fn normalize_target_url(value: &str) -> (url: String)
    ensures
        url@ == target_named(value@),
{
    let trimmed = trim_text(value);
    if starts_with_text(trimmed.as_str(), "http://") || starts_with_text(trimmed.as_str(), "https://") {
        trimmed
    } else {
        let mut url = "http://".to_string();
        url.append(trimmed.as_str());
        url
    }
}

/// The environment variables that override the configuration, as they were
/// read.
#[derive(Debug, Clone)]
pub struct RuntimeEnv {
    pub waf_mode: EnvValue,
    pub target_url: EnvValue,
    pub admin_port: EnvValue,
    pub tls_private: EnvValue,
    pub tls_public: EnvValue,
}

/// A configuration after some overrides, with the problem that stopped them, if
/// one did.
pub struct Overriding {
    pub config: ConfigView,
    pub problem: Option<ConfigProblem>,
}

/// The override of the mode.
pub open spec fn mode_override(config: ConfigView, value: EnvValue) -> Overriding {
    match env_text("WAF_MODE"@, value) {
        Err(problem) => Overriding { config, problem: Some(problem) },
        Ok(None) => Overriding { config, problem: None },
        Ok(Some(text)) => match mode_named(text) {
            Some(mode) => Overriding { config: ConfigView { mode, ..config }, problem: None },
            None => Overriding { config, problem: Some(ConfigProblem::InvalidMode) },
        },
    }
}

/// The override of the target.
pub open spec fn target_override(config: ConfigView, value: EnvValue) -> Overriding {
    match env_text("TARGET_URL"@, value) {
        Err(problem) => Overriding { config, problem: Some(problem) },
        Ok(None) => Overriding { config, problem: None },
        Ok(Some(text)) => Overriding {
            config: ConfigView { target_url: target_named(text), ..config },
            problem: None,
        },
    }
}

/// The override of the admin port.
pub open spec fn port_override(config: ConfigView, value: EnvValue) -> Overriding {
    match env_text("ADMIN_PORT"@, value) {
        Err(problem) => Overriding { config, problem: Some(problem) },
        Ok(None) => Overriding { config, problem: None },
        Ok(Some(text)) => match port_named(text) {
            Some(port) => Overriding { config: ConfigView { admin_port: port as u16, ..config }, problem: None },
            None => Overriding { config, problem: Some(ConfigProblem::InvalidPort("ADMIN_PORT"@)) },
        },
    }
}

/// The override of the path of the private key.
pub open spec fn key_override(config: ConfigView, value: EnvValue) -> Overriding {
    match env_text("TLS_PRIVATE"@, value) {
        Err(problem) => Overriding { config, problem: Some(problem) },
        Ok(None) => Overriding { config, problem: None },
        Ok(Some(text)) => Overriding { config: ConfigView { tls_key_path: text, ..config }, problem: None },
    }
}

/// The override of the path of the certificate.
pub open spec fn cert_override(config: ConfigView, value: EnvValue) -> Overriding {
    match env_text("TLS_PUBLIC"@, value) {
        Err(problem) => Overriding { config, problem: Some(problem) },
        Ok(None) => Overriding { config, problem: None },
        Ok(Some(text)) => Overriding { config: ConfigView { tls_cert_path: text, ..config }, problem: None },
    }
}

/// All overrides, in order, up to the first problem; at the end the
/// configuration is checked.
pub open spec fn overridden(config: ConfigView, env: RuntimeEnv) -> Overriding {
    let mode = mode_override(config, env.waf_mode);
    let target = target_override(mode.config, env.target_url);
    let port = port_override(target.config, env.admin_port);
    let key = key_override(port.config, env.tls_private);
    let cert = cert_override(key.config, env.tls_public);
    if mode.problem is Some {
        mode
    } else if target.problem is Some {
        target
    } else if port.problem is Some {
        port
    } else if key.problem is Some {
        key
    } else if cert.problem is Some {
        cert
    } else {
        Overriding { config: cert.config, problem: config_problem(cert.config) }
    }
}

/// Overrides the configuration by what the environment says, and checks it. On
/// an error the configuration keeps the overrides that came before it.
pub fn apply_runtime_env_overrides(config: &mut Config, env: &RuntimeEnv) -> (outcome: Result<(), ConfigError>)
    ensures
        final(config)@ == overridden(old(config)@, *env).config,
        problem_of(outcome) == overridden(old(config)@, *env).problem,
{
    match single_env_value("WAF_MODE", &env.waf_mode) {
        Err(e) => return Err(e),
        Ok(None) => {},
        Ok(Some(text)) => match parse_waf_mode(text.as_str()) {
            Ok(mode) => config.mode = mode,
            Err(e) => return Err(e),
        },
    }
    match single_env_value("TARGET_URL", &env.target_url) {
        Err(e) => return Err(e),
        Ok(None) => {},
        Ok(Some(text)) => config.target_url = normalize_target_url(text.as_str()),
    }
    match single_env_value("ADMIN_PORT", &env.admin_port) {
        Err(e) => return Err(e),
        Ok(None) => {},
        Ok(Some(text)) => match parse_port(text.as_str(), "ADMIN_PORT") {
            Ok(port) => config.admin_port = port,
            Err(e) => return Err(e),
        },
    }
    match single_env_value("TLS_PRIVATE", &env.tls_private) {
        Err(e) => return Err(e),
        Ok(None) => {},
        Ok(Some(text)) => config.tls_key_path = text,
    }
    match single_env_value("TLS_PUBLIC", &env.tls_public) {
        Err(e) => return Err(e),
        Ok(None) => {},
        Ok(Some(text)) => config.tls_cert_path = text,
    }
    validate_config_structure(config)
}

/// A configuration that comes out of the overrides without a problem is valid.
pub proof fn overridden_is_valid(config: ConfigView, env: RuntimeEnv)
    requires
        overridden(config, env).problem is None,
    ensures
        config_problem(overridden(config, env).config) is None,
{
}

/// An environment that sets nothing leaves the configuration as it is.
pub proof fn empty_env_overrides_nothing(config: ConfigView, env: RuntimeEnv)
    requires
        env.waf_mode is Absent,
        env.target_url is Absent,
        env.admin_port is Absent,
        env.tls_private is Absent,
        env.tls_public is Absent,
    ensures
        overridden(config, env).config == config,
        overridden(config, env).problem == config_problem(config),
{
}

/// The environment reaches no further than the mode, the target, the admin port
/// and the two TLS paths.
pub proof fn overrides_keep_the_rest(config: ConfigView, env: RuntimeEnv)
    ensures
        overridden(config, env).config.is_enabled == config.is_enabled,
        overridden(config, env).config.interceptor_port == config.interceptor_port,
        overridden(config, env).config.interceptor_host == config.interceptor_host,
{
}

/// Where the files of the application are.
#[derive(Debug, Clone)]
pub struct AppFiles {
    pub config_path: String,
    pub rules_path: String,
    pub security_policies_path: String,
    pub db_path: String,
    pub config_dir: String,
    pub db_dir: String,
}

/// Where the files of the application are, as texts.
pub struct AppFilesView {
    pub config_path: Seq<char>,
    pub rules_path: Seq<char>,
    pub security_policies_path: Seq<char>,
    pub db_path: Seq<char>,
    pub config_dir: Seq<char>,
    pub db_dir: Seq<char>,
}

impl View for AppFiles {
    type V = AppFilesView;

    open spec fn view(&self) -> AppFilesView {
        AppFilesView {
            config_path: self.config_path@,
            rules_path: self.rules_path@,
            security_policies_path: self.security_policies_path@,
            db_path: self.db_path@,
            config_dir: self.config_dir@,
            db_dir: self.db_dir@,
        }
    }
}

/// The environment variables that say where the files are, as they were read.
#[derive(Debug, Clone)]
pub struct PathEnv {
    pub config_path: EnvValue,
    pub rules_path: EnvValue,
    pub security_policies_path: EnvValue,
    pub db_path: EnvValue,
}

/// A text, or another where there is none.
pub open spec fn text_or(text: Option<Seq<char>>, other: Seq<char>) -> Seq<char> {
    match text {
        Some(t) => t,
        None => other,
    }
}

/// A text, or another where there is none.
fn text_or_else(text: Option<String>, other: &str) -> (chosen: String)
    ensures
        chosen@ == text_or(opt_text(text), other@),
{
    match text {
        Some(t) => t,
        None => other.to_string(),
    }
}

/// A path without what does not count at its end: slashes, and dots behind
/// slashes that stand for the directory itself.
pub open spec fn without_tail(path: Seq<char>) -> Seq<char>
    decreases path.len(),
{
    if path.len() > 1 && (path.last() == '/' || (path.last() == '.' && path[path.len() - 2] == '/')) {
        without_tail(path.drop_last())
    } else {
        path
    }
}

/// A path up to its last slash.
pub open spec fn up_to_slash(path: Seq<char>) -> Seq<char>
    decreases path.len(),
{
    if path.len() == 0 || path.last() == '/' {
        path
    } else {
        up_to_slash(path.drop_last())
    }
}

/// The directory that holds a file: the file's path without its last component,
/// as Unix reads paths. That is nothing for a bare file name. The root and the
/// empty path are in no directory.
pub open spec fn parent_of(path: Seq<char>) -> Option<Seq<char>> {
    let whole = without_tail(path);
    if whole.len() == 0 || whole == seq!['/'] {
        None
    } else {
        Some(without_tail(up_to_slash(whole)))
    }
}

/// How much of a path stands before what does not count at its end.
fn tail_start(chars: &Vec<char>, to: usize) -> (end: usize)
    requires
        to <= chars@.len(),
    ensures
        end <= to,
        chars@.take(end as int) == without_tail(chars@.take(to as int)),
{
    let mut end: usize = to;
    while end > 1 && (chars[end - 1] == '/' || (chars[end - 1] == '.' && chars[end - 2] == '/'))
        invariant
            end <= to <= chars@.len(),
            without_tail(chars@.take(end as int)) == without_tail(chars@.take(to as int)),
        decreases end,
    {
        proof {
            assert(chars@.take(end as int).drop_last() =~= chars@.take(end - 1));
        }
        end -= 1;
    }
    end
}

/// The directory that holds a file.
pub fn parent_dir(path: &str) -> (parent: Option<String>)
    ensures
        opt_text(parent) == parent_of(path@),
{
    let chars = chars_of(path);
    let total: usize = chars.len();
    let whole = tail_start(&chars, total);
    proof {
        assert(chars@.take(total as int) =~= path@);
        if whole == 1 && chars@[0] == '/' {
            assert(chars@.take(1) =~= seq!['/']);
        }
        if whole > 0 && chars@.take(whole as int) == seq!['/'] {
            assert(chars@.take(whole as int)[0] == '/');
        }
    }
    if whole == 0 || (whole == 1 && chars[0] == '/') {
        return None;
    }
    let mut end: usize = whole;
    while end > 0 && chars[end - 1] != '/'
        invariant
            end <= whole <= chars@.len(),
            up_to_slash(chars@.take(end as int)) == up_to_slash(chars@.take(whole as int)),
        decreases end,
    {
        proof {
            assert(chars@.take(end as int).drop_last() =~= chars@.take(end - 1));
        }
        end -= 1;
    }
    let dir = tail_start(&chars, end);
    proof {
        assert(chars@.subrange(0, dir as int) =~= chars@.take(dir as int));
    }
    Some(text_between(&chars, 0, dir))
}

/// The files where the environment says that they are: nowhere, if it names none
/// of them; else a file that it does not name has its place in the container.
/// The directories are those that hold the configuration and the database, or
/// the current one where a path is in no directory.
pub open spec fn explicit_files(env: PathEnv) -> Result<Option<AppFilesView>, ConfigProblem> {
    match (
        env_text("WAF_CONFIG_PATH"@, env.config_path),
        env_text("WAF_RULES_PATH"@, env.rules_path),
        env_text("WAF_SEC_POLICIES_PATH"@, env.security_policies_path),
        env_text("WAF_DB_PATH"@, env.db_path),
    ) {
        (Err(problem), _, _, _) => Err(problem),
        (_, Err(problem), _, _) => Err(problem),
        (_, _, Err(problem), _) => Err(problem),
        (_, _, _, Err(problem)) => Err(problem),
        (Ok(None), Ok(None), Ok(None), Ok(None)) => Ok(None),
        (Ok(config), Ok(rules), Ok(policies), Ok(db)) => {
            let config_path = text_or(config, "/app/config/config.json"@);
            let db_path = text_or(db, "/var/lib/rust-waf/waf.db"@);
            Ok(
                Some(
                    AppFilesView {
                        config_path,
                        rules_path: text_or(rules, "/app/config/rules.json"@),
                        security_policies_path: text_or(policies, "/app/config/sec_policies.json"@),
                        db_path,
                        config_dir: text_or(parent_of(config_path), "."@),
                        db_dir: text_or(parent_of(db_path), "."@),
                    },
                ),
            )
        },
    }
}

/// What optional files hold.
pub open spec fn opt_files(files: Option<AppFiles>) -> Option<AppFilesView> {
    match files {
        Some(f) => Some(f@),
        None => None,
    }
}

/// The files where the environment says that they are.
pub fn resolve_explicit_app_files(env: &PathEnv) -> (found: Result<Option<AppFiles>, ConfigError>)
    ensures
        match found {
            Ok(files) => explicit_files(*env) == Ok::<Option<AppFilesView>, ConfigProblem>(opt_files(files)),
            Err(e) => explicit_files(*env) == Err::<Option<AppFilesView>, ConfigProblem>(e@),
        },
{
    let config = match single_env_value("WAF_CONFIG_PATH", &env.config_path) {
        Ok(text) => text,
        Err(e) => return Err(e),
    };
    let rules = match single_env_value("WAF_RULES_PATH", &env.rules_path) {
        Ok(text) => text,
        Err(e) => return Err(e),
    };
    let policies = match single_env_value("WAF_SEC_POLICIES_PATH", &env.security_policies_path) {
        Ok(text) => text,
        Err(e) => return Err(e),
    };
    let db = match single_env_value("WAF_DB_PATH", &env.db_path) {
        Ok(text) => text,
        Err(e) => return Err(e),
    };
    if config.is_none() && rules.is_none() && policies.is_none() && db.is_none() {
        return Ok(None);
    }
    let config_path = text_or_else(config, "/app/config/config.json");
    let db_path = text_or_else(db, "/var/lib/rust-waf/waf.db");
    Ok(
        Some(
            AppFiles {
                rules_path: text_or_else(rules, "/app/config/rules.json"),
                security_policies_path: text_or_else(policies, "/app/config/sec_policies.json"),
                config_dir: text_or_else(parent_dir(config_path.as_str()), "."),
                db_dir: text_or_else(parent_dir(db_path.as_str()), "."),
                config_path,
                db_path,
            },
        ),
    )
}

/// The path of a file in a directory, as Unix writes it.
pub open spec fn path_in(dir: Seq<char>, name: Seq<char>) -> Seq<char> {
    if dir.len() == 0 || dir.last() == '/' {
        dir + name
    } else {
        dir + "/"@ + name
    }
}

/// The path of a file in a directory.
pub fn join_path(dir: &str, name: &str) -> (path: String)
    ensures
        path@ == path_in(dir@, name@),
{
    let mut path = dir.to_string();
    if !dir.is_empty() && !ends_with_text(dir, "/") {
        path.append("/");
    }
    proof {
        reveal_strlit("/");
        if dir@.len() > 0 {
            assert(dir@.subrange(dir@.len() - 1, dir@.len() as int)[0] == dir@.last());
            assert(dir@.last() == '/' ==> dir@.subrange(dir@.len() - 1, dir@.len() as int) =~= "/"@);
        }
    }
    path.append(name);
    path
}

/// Where a file is that the configuration names: relative paths start from a
/// base directory. Absolute, as on Unix, is what begins with a slash.
pub open spec fn runtime_path(base: Seq<char>, path: Seq<char>) -> Seq<char> {
    if begins_with(path, "/"@) {
        path
    } else {
        path_in(base, path)
    }
}

/// Where a file is that the configuration names.
pub fn resolve_runtime_path(base: &str, path: &str) -> (resolved: String)
    ensures
        resolved@ == runtime_path(base@, path@),
{
    if starts_with_text(path, "/") {
        path.to_string()
    } else {
        join_path(base, path)
    }
}

/// The files in one directory, which also holds the database.
pub open spec fn files_in(dir: Seq<char>) -> AppFilesView {
    AppFilesView {
        config_path: path_in(dir, "config.json"@),
        rules_path: path_in(dir, "rules.json"@),
        security_policies_path: path_in(dir, "sec_policies.json"@),
        db_path: path_in(dir, "waf.db"@),
        config_dir: dir,
        db_dir: dir,
    }
}

/// The files in one directory, which also holds the database.
fn app_files_in(dir: String) -> (files: AppFiles)
    ensures
        files@ == files_in(dir@),
{
    AppFiles {
        config_path: join_path(dir.as_str(), "config.json"),
        rules_path: join_path(dir.as_str(), "rules.json"),
        security_policies_path: join_path(dir.as_str(), "sec_policies.json"),
        db_path: join_path(dir.as_str(), "waf.db"),
        config_dir: dir.clone(),
        db_dir: dir,
    }
}

/// What was found in the working directory.
#[derive(Debug, Clone)]
pub enum DataDir {
    /// It lacks one of the configuration files.
    Incomplete,
    /// It has them all; this is its absolute path.
    Complete(String),
    /// It has them all, but its absolute path could not be found out.
    Unresolved,
}

/// What was found in the directories that are looked through when the
/// environment names no file.
#[derive(Debug, Clone)]
pub struct SearchedDirs {
    /// Whether `/app/config` has all configuration files.
    pub container_complete: bool,
    /// The data directory beside the manifest.
    pub manifest_dir: String,
    /// Whether that has all configuration files.
    pub manifest_complete: bool,
    /// The directory `data` in the working directory.
    pub data_dir: DataDir,
}

/// Where the files are when the environment names none: in the first directory
/// that has all configuration files.
pub open spec fn searched_files(dirs: SearchedDirs) -> Result<AppFilesView, ConfigProblem> {
    if dirs.container_complete {
        Ok(
            AppFilesView {
                config_path: "/app/config/config.json"@,
                rules_path: "/app/config/rules.json"@,
                security_policies_path: "/app/config/sec_policies.json"@,
                db_path: "/var/lib/rust-waf/waf.db"@,
                config_dir: "/app/config"@,
                db_dir: "/var/lib/rust-waf"@,
            },
        )
    } else if dirs.manifest_complete {
        Ok(files_in(dirs.manifest_dir@))
    } else {
        match dirs.data_dir {
            DataDir::Complete(dir) => Ok(files_in(dir@)),
            DataDir::Unresolved => Err(ConfigProblem::UnresolvedDataDir("data"@)),
            DataDir::Incomplete => Err(
                ConfigProblem::FilesNotFound { manifest_dir: dirs.manifest_dir@, data_dir: "data"@ },
            ),
        }
    }
}

/// Where the files are: where the environment says, and else in the first of
/// the searched directories that has all configuration files.
pub open spec fn located_files(env: PathEnv, dirs: SearchedDirs) -> Result<AppFilesView, ConfigProblem> {
    match explicit_files(env) {
        Ok(Some(files)) => Ok(files),
        Ok(None) => searched_files(dirs),
        Err(problem) => Err(problem),
    }
}

/// Where the files are.
pub fn resolve_app_files(env: &PathEnv, dirs: &SearchedDirs) -> (found: Result<AppFiles, ConfigError>)
    ensures
        match found {
            Ok(files) => located_files(*env, *dirs) == Ok::<AppFilesView, ConfigProblem>(files@),
            Err(e) => located_files(*env, *dirs) == Err::<AppFilesView, ConfigProblem>(e@),
        },
{
    match resolve_explicit_app_files(env) {
        Ok(Some(files)) => return Ok(files),
        Ok(None) => {},
        Err(e) => return Err(e),
    }
    if dirs.container_complete {
        return Ok(
            AppFiles {
                config_path: "/app/config/config.json".to_string(),
                rules_path: "/app/config/rules.json".to_string(),
                security_policies_path: "/app/config/sec_policies.json".to_string(),
                db_path: "/var/lib/rust-waf/waf.db".to_string(),
                config_dir: "/app/config".to_string(),
                db_dir: "/var/lib/rust-waf".to_string(),
            },
        );
    }
    if dirs.manifest_complete {
        return Ok(app_files_in(dirs.manifest_dir.clone()));
    }
    match &dirs.data_dir {
        DataDir::Complete(dir) => Ok(app_files_in(dir.clone())),
        DataDir::Unresolved => Err(ConfigError::UnresolvedDataDir("data".to_string())),
        DataDir::Incomplete => Err(
            ConfigError::FilesNotFound { manifest_dir: dirs.manifest_dir.clone(), data_dir: "data".to_string() },
        ),
    }
}

impl AppFiles {
    /// The files in one directory, which also holds the database.
    pub fn new(data_dir: String) -> (files: AppFiles)
        ensures
            files@ == files_in(data_dir@),
    {
        app_files_in(data_dir)
    }
}

/// A directory that may hold the data.
#[derive(Debug, Clone)]
pub struct DataDirCandidate {
    pub dir: String,
    /// Whether it has all configuration files.
    pub complete: bool,
    /// Its absolute path, if that could be found out.
    pub resolved: Option<String>,
}

/// What is taken of a directory that has all configuration files.
pub open spec fn taken_dir(candidate: DataDirCandidate, problem: ConfigProblem) -> Result<Seq<char>, ConfigProblem> {
    match opt_text(candidate.resolved) {
        Some(path) => Ok(path),
        None => Err(problem),
    }
}

/// The directory that holds the data: the first that has all configuration
/// files, of the one beside the manifest, the one in the working directory and
/// the one near the executable.
pub open spec fn data_dir_among(
    manifest: DataDirCandidate,
    working: DataDirCandidate,
    executable: Option<DataDirCandidate>,
) -> Result<Seq<char>, ConfigProblem> {
    if manifest.complete {
        taken_dir(manifest, ConfigProblem::UnresolvedManifestDir(manifest.dir@))
    } else if working.complete {
        taken_dir(working, ConfigProblem::UnresolvedWorkingDir(working.dir@))
    } else {
        match executable {
            Some(e) if e.complete => taken_dir(e, ConfigProblem::UnresolvedExecutableDir(e.dir@)),
            _ => Err(
                ConfigProblem::DataDirNotFound { working_dir: working.dir@, manifest_dir: manifest.dir@ },
            ),
        }
    }
}

/// What a directory or an error comes to.
pub open spec fn dir_outcome(outcome: Result<String, ConfigError>) -> Result<Seq<char>, ConfigProblem> {
    match outcome {
        Ok(dir) => Ok(dir@),
        Err(e) => Err(e@),
    }
}

/// The directory that holds the data.
pub fn resolve_data_dir(
    manifest: DataDirCandidate,
    working: DataDirCandidate,
    executable: Option<DataDirCandidate>,
) -> (outcome: Result<String, ConfigError>)
    ensures
        dir_outcome(outcome) == data_dir_among(manifest, working, executable),
{
    if manifest.complete {
        return match manifest.resolved {
            Some(path) => Ok(path),
            None => Err(ConfigError::UnresolvedManifestDir(manifest.dir)),
        };
    }
    if working.complete {
        return match working.resolved {
            Some(path) => Ok(path),
            None => Err(ConfigError::UnresolvedWorkingDir(working.dir)),
        };
    }
    if let Some(near) = executable {
        if near.complete {
            return match near.resolved {
                Some(path) => Ok(path),
                None => Err(ConfigError::UnresolvedExecutableDir(near.dir)),
            };
        }
    }
    Err(ConfigError::DataDirNotFound { working_dir: working.dir, manifest_dir: manifest.dir })
}

/// The target always has a scheme of HTTP.
pub proof fn target_has_a_scheme(text: Seq<char>)
    ensures
        begins_with(target_named(text), "http://"@) || begins_with(target_named(text), "https://"@),
{
    if !begins_with(trim(text), "http://"@) && !begins_with(trim(text), "https://"@) {
        let target = target_named(text);
        assert(target.subrange(0, "http://"@.len() as int) =~= "http://"@);
    }
}

/// The directory that holds a file is the one that the file's path was made
/// with. This is about directories whose paths have nothing at their ends that
/// does not count, and about bare file names.
pub proof fn file_is_in_its_directory(dir: Seq<char>, name: Seq<char>)
    requires
        dir.len() > 0,
        without_tail(dir) == dir,
        name.len() > 0,
        !name.contains('/'),
        name != seq!['.'],
    ensures
        parent_of(path_in(dir, name)) == Some(dir),
{
    reveal_strlit("/");
    let path = path_in(dir, name);
    let front = if dir.last() == '/' {
        dir
    } else {
        dir.push('/')
    };
    assert(path =~= front + name);
    assert forall|i: int| 0 <= i < name.len() implies #[trigger] name[i] != '/' by {
        assert(name.contains(name[i]));
    }
    assert(path.last() == name.last());
    if name.len() == 1 {
        assert(name.last() == '.' ==> name =~= seq!['.']);
    } else {
        assert(path[path.len() - 2] == name[name.len() - 2]);
    }
    assert(without_tail(path) == path);
    up_to_slash_behind(front, name);
    if dir.last() != '/' {
        assert(front.drop_last() =~= dir);
    }
}

/// A path up to its last slash, given what stands behind that slash.
proof fn up_to_slash_behind(front: Seq<char>, name: Seq<char>)
    requires
        front.len() > 0,
        front.last() == '/',
        forall|i: int| 0 <= i < name.len() ==> #[trigger] name[i] != '/',
    ensures
        up_to_slash(front + name) == front,
    decreases name.len(),
{
    if name.len() == 0 {
        assert(front + name =~= front);
    } else {
        assert((front + name).drop_last() =~= front + name.drop_last());
        up_to_slash_behind(front, name.drop_last());
    }
}

} // verus!
