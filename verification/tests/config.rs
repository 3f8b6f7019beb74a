//! The configuration and what overrides it.
use rust_waf::config::{
    apply_runtime_env_overrides, compile_rules, get_env_value, join_path, load_config,
    load_config_from_value, load_rules, load_rules_from_value, load_security_policies_from_value,
    normalize_target_url, parent_dir, parse_port, parse_waf_mode, resolve_app_files, resolve_data_dir,
    resolve_explicit_app_files, resolve_runtime_path,
    validate_parsed_config, AppFiles, ConfigError, DataDir, DataDirCandidate, EnvReading, EnvValue, PathEnv, RuntimeEnv,
    SearchedDirs,
};
use rust_waf::models::{
    AccessListType, Config, EndpointPolicy, GlobalDefaults, Rule, SecurityPolicies, Severity, UserRole, WafMode,
};
use rust_waf::text_map::TextMap;
use std::path::Path;

fn config() -> Config {
    Config {
        mode: WafMode::Active,
        is_enabled: true,
        target_url: "http://localhost:3000".to_string(),
        admin_port: 8081,
        interceptor_port: 443,
        interceptor_host: "0.0.0.0".to_string(),
        tls_cert_path: "cert.pem".to_string(),
        tls_key_path: "key.pem".to_string(),
    }
}

fn rule(id: &str, regex: &str) -> Rule {
    Rule { id: id.to_string(), name: "name".to_string(), regex: regex.to_string(), severity: Severity::Low }
}

fn present(value: &str) -> EnvValue {
    EnvValue::Present(value.to_string())
}

fn no_env() -> RuntimeEnv {
    RuntimeEnv {
        waf_mode: EnvValue::Absent,
        target_url: EnvValue::Absent,
        admin_port: EnvValue::Absent,
        tls_private: EnvValue::Absent,
        tls_public: EnvValue::Absent,
    }
}

#[test]
fn valid_config_is_loaded_unchanged() {
    let loaded = load_config(config()).expect("valid");
    assert_eq!(loaded.target_url, "http://localhost:3000");
    assert_eq!(loaded.admin_port, 8081);
    assert!(load_config_from_value(&config()).is_ok());
}

#[test]
fn each_problem_of_a_config_is_told() {
    let mut bad = config();
    bad.target_url = "nowhere".to_string();
    assert_eq!(load_config(bad).unwrap_err().message(), "target_url 'nowhere' is not a valid URL");
    let mut bad = config();
    bad.admin_port = 443;
    assert_eq!(
        load_config_from_value(&bad).unwrap_err().message(),
        "admin_port and interceptor_port must be different"
    );
    let mut bad = config();
    bad.interceptor_host = " \t".to_string();
    assert_eq!(load_config_from_value(&bad).unwrap_err().message(), "interceptor_host must not be empty");
    let mut bad = config();
    bad.tls_cert_path = String::new();
    assert_eq!(load_config_from_value(&bad).unwrap_err().message(), "tls_cert_path must not be empty");
    let mut bad = config();
    bad.tls_key_path = "\u{a0}".to_string();
    assert_eq!(load_config_from_value(&bad).unwrap_err().message(), "tls_key_path must not be empty");
}

#[test]
fn the_url_is_looked_at_first() {
    let mut bad = config();
    bad.admin_port = 443;
    assert!(matches!(validate_parsed_config(&bad, false), Err(ConfigError::InvalidTargetUrl(_))));
    assert!(matches!(validate_parsed_config(&bad, true), Err(ConfigError::SamePorts)));
}

#[test]
fn rules_must_be_there_and_compile() {
    assert_eq!(load_rules(vec![]).unwrap_err().message(), "rules list must contain at least one rule");
    let rules = vec![rule("1", "a+"), rule("2", "("), rule("3", "[")];
    assert_eq!(load_rules_from_value(&rules).unwrap_err().message(), "invalid regex for rule '2'");
    assert_eq!(load_rules(vec![rule("1", "a+")]).expect("valid").len(), 1);
}

#[test]
fn valid_rules_always_compile() {
    let rules = vec![rule("1", "(?i)select"), rule("2", "<script")];
    assert!(load_rules_from_value(&rules).is_ok());
    let compiled = compile_rules(&rules).expect("valid");
    assert_eq!(compiled.len(), 2);
    assert_eq!(compiled[1].id, "2");
    assert_eq!(compiled[1].name, "name");
    assert_eq!(compiled[1].severity, Severity::Low);
    assert!(compiled[0].regex.is_match("SELECT"));
    assert!(!compiled[1].regex.is_match("SELECT"));
    let copy = compiled[0].clone();
    assert!(copy.regex.is_match("select") && copy.id == "1");
    assert!(compile_rules(&[]).expect("nothing to compile").is_empty());
    assert_eq!(compile_rules(&[rule("x", "(")]).unwrap_err().message(), "invalid regex for rule 'x'");
}

#[test]
fn any_policies_are_accepted() {
    let policies = SecurityPolicies {
        global_defaults: GlobalDefaults { allowed_methods: vec![], allowed_headers: vec![], max_body_size_kb: 0 },
        endpoints: TextMap::new(),
    };
    assert!(load_security_policies_from_value(&policies).is_ok());
}

#[test]
fn default_endpoint_policy_limits_nothing_of_its_own() {
    let policy = EndpointPolicy::default();
    assert!(policy.allowed_methods.is_empty() && policy.allowed_headers.is_empty());
    assert!(policy.mandatory_headers.is_empty());
    assert_eq!((policy.max_body_size_kb, policy.max_params, policy.description), (None, None, None));
}

#[test]
fn names_of_lists_and_roles() {
    assert_eq!(AccessListType::White.as_str(), "white");
    assert_eq!(AccessListType::Black.as_str(), "black");
    assert_eq!(UserRole::Admin.as_str(), "admin");
    assert_eq!(UserRole::Analyst.as_str(), "analyst");
}

#[test]
fn environment_overrides_what_it_sets() {
    let mut c = config();
    let env = RuntimeEnv {
        waf_mode: present(" Passive "),
        target_url: present(" shop:3000 "),
        admin_port: present(" 9000 "),
        tls_private: present("/etc/key.pem"),
        tls_public: present("/etc/cert.pem"),
    };
    apply_runtime_env_overrides(&mut c, &env).expect("valid");
    assert_eq!(c.mode, WafMode::Passive);
    assert_eq!(c.target_url, "http://shop:3000");
    assert_eq!(c.admin_port, 9000);
    assert_eq!(c.tls_key_path, "/etc/key.pem");
    assert_eq!(c.tls_cert_path, "/etc/cert.pem");
    assert_eq!(c.interceptor_port, 443);
    assert_eq!(c.interceptor_host, "0.0.0.0");
    assert!(c.is_enabled);
}

#[test]
fn empty_environment_overrides_nothing() {
    let mut c = config();
    let env = RuntimeEnv { waf_mode: present("  "), ..no_env() };
    apply_runtime_env_overrides(&mut c, &env).expect("valid");
    assert_eq!(c.mode, WafMode::Active);
    assert_eq!(c.target_url, "http://localhost:3000");
}

#[test]
fn overrides_stop_at_the_first_problem() {
    let mut c = config();
    let env = RuntimeEnv {
        waf_mode: present("passive"),
        target_url: present("https://shop"),
        admin_port: present("70000"),
        tls_private: present("other.pem"),
        ..no_env()
    };
    let error = apply_runtime_env_overrides(&mut c, &env).unwrap_err();
    assert_eq!(error.message(), "environment variable 'ADMIN_PORT' must be a valid TCP port");
    assert_eq!(c.mode, WafMode::Passive);
    assert_eq!(c.target_url, "https://shop");
    assert_eq!(c.admin_port, 8081);
    assert_eq!(c.tls_key_path, "key.pem");
}

#[test]
fn overridden_config_is_checked() {
    let mut c = config();
    let env = RuntimeEnv { admin_port: present("443"), ..no_env() };
    assert!(matches!(apply_runtime_env_overrides(&mut c, &env), Err(ConfigError::SamePorts)));
    let mut c = config();
    let env = RuntimeEnv { tls_public: EnvValue::NotUnicode, ..no_env() };
    assert_eq!(
        apply_runtime_env_overrides(&mut c, &env).unwrap_err().message(),
        "environment variable 'TLS_PUBLIC' is not valid Unicode"
    );
    let env = RuntimeEnv { waf_mode: present("off"), ..no_env() };
    assert_eq!(
        apply_runtime_env_overrides(&mut c, &env).unwrap_err().message(),
        "WAF_MODE must be either 'active' or 'passive'"
    );
}

#[test]
fn first_variable_that_is_there_counts() {
    let readings = [
        EnvReading { key: "A".to_string(), value: EnvValue::Absent },
        EnvReading { key: "B".to_string(), value: present("b") },
        EnvReading { key: "C".to_string(), value: EnvValue::NotUnicode },
    ];
    assert_eq!(get_env_value(&readings).unwrap().as_deref(), Some("b"));
    assert_eq!(get_env_value(&readings[..1]).unwrap(), None);
    assert_eq!(
        get_env_value(&readings[2..]).unwrap_err().message(),
        "environment variable 'C' is not valid Unicode"
    );
    let blank = [
        EnvReading { key: "A".to_string(), value: present(" ") },
        EnvReading { key: "B".to_string(), value: present("b") },
    ];
    assert_eq!(get_env_value(&blank).unwrap(), None);
}

#[test]
fn modes_and_ports_are_read() {
    assert_eq!(parse_waf_mode("ACTIVE").unwrap(), WafMode::Active);
    assert!(parse_waf_mode("").is_err());
    assert_eq!(parse_port("65535", "P").unwrap(), 65535);
    assert_eq!(parse_port("+80", "P").unwrap(), 80);
    assert_eq!(parse_port("0", "P").unwrap(), 0);
    for bad in ["65536", "-1", "", "8o", "99999999999999999999999"] {
        assert_eq!(
            parse_port(bad, "P").unwrap_err().message(),
            "environment variable 'P' must be a valid TCP port"
        );
    }
}

#[test]
fn target_always_gets_a_scheme() {
    assert_eq!(normalize_target_url(" https://a "), "https://a");
    assert_eq!(normalize_target_url("http://a"), "http://a");
    assert_eq!(normalize_target_url("ftp://a"), "http://ftp://a");
    assert_eq!(normalize_target_url(""), "http://");
}

fn no_paths() -> PathEnv {
    PathEnv {
        config_path: EnvValue::Absent,
        rules_path: EnvValue::Absent,
        security_policies_path: EnvValue::Absent,
        db_path: EnvValue::Absent,
    }
}

#[test]
fn explicit_paths_have_defaults() {
    assert!(resolve_explicit_app_files(&no_paths()).unwrap().is_none());
    let env = PathEnv { rules_path: present("/etc/rules.json"), ..no_paths() };
    let files = resolve_explicit_app_files(&env).unwrap().expect("one path is given");
    assert_eq!(files.config_path, "/app/config/config.json");
    assert_eq!(files.rules_path, "/etc/rules.json");
    assert_eq!(files.security_policies_path, "/app/config/sec_policies.json");
    assert_eq!(files.db_path, "/var/lib/rust-waf/waf.db");
    assert_eq!(files.config_dir, "/app/config");
    assert_eq!(files.db_dir, "/var/lib/rust-waf");
    let env = PathEnv { db_path: EnvValue::NotUnicode, ..no_paths() };
    assert_eq!(
        resolve_explicit_app_files(&env).unwrap_err().message(),
        "environment variable 'WAF_DB_PATH' is not valid Unicode"
    );
}

#[test]
fn explicit_directories_are_those_of_the_files() {
    let env = PathEnv { config_path: present("/etc/waf/config.json"), ..no_paths() };
    let files = resolve_explicit_app_files(&env).unwrap().expect("one path is given");
    assert_eq!(files.config_path, "/etc/waf/config.json");
    assert_eq!(files.rules_path, "/app/config/rules.json");
    assert_eq!(files.security_policies_path, "/app/config/sec_policies.json");
    assert_eq!(files.db_path, "/var/lib/rust-waf/waf.db");
    assert_eq!(files.config_dir, "/etc/waf");
    assert_eq!(files.db_dir, "/var/lib/rust-waf");

    let env = PathEnv { config_path: present("/"), db_path: present("waf.db"), ..no_paths() };
    let files = resolve_explicit_app_files(&env).unwrap().expect("two paths are given");
    assert_eq!(files.config_dir, ".");
    assert_eq!(files.db_dir, "");
}

#[test]
fn parents_are_those_of_the_standard_library() {
    for path in [
        "", "/", "//", "/.", ".", "..", "./", "./.", "a", "a/", "a/.", "a/./", "a/b", "a//b", "a/./b", "./b", "././b",
        "/a", "/a/", "//a", "///a", "/./a", "a/..", "/..", "a/../b", "a/.b", "a/b.", "/a/b/c", "/a/b/c//./", "...",
    ] {
        let expected = Path::new(path).parent().map(|parent| parent.to_str().unwrap().to_string());
        assert_eq!(parent_dir(path), expected, "{path}");
    }
    assert_eq!(parent_dir(&join_path("/data", "waf.db")).as_deref(), Some("/data"));
}

fn nothing_found() -> SearchedDirs {
    SearchedDirs {
        container_complete: false,
        manifest_dir: "/src/data".to_string(),
        manifest_complete: false,
        data_dir: DataDir::Incomplete,
    }
}

#[test]
fn directories_are_searched_in_order() {
    let all = SearchedDirs {
        container_complete: true,
        manifest_complete: true,
        data_dir: DataDir::Complete("/work/data".to_string()),
        ..nothing_found()
    };
    let files = resolve_app_files(&no_paths(), &all).unwrap();
    assert_eq!(files.config_path, "/app/config/config.json");
    assert_eq!(files.db_path, "/var/lib/rust-waf/waf.db");
    assert_eq!(files.db_dir, "/var/lib/rust-waf");
    let files = resolve_app_files(&no_paths(), &SearchedDirs { container_complete: false, ..all.clone() }).unwrap();
    assert_eq!(files.rules_path, "/src/data/rules.json");
    assert_eq!(files.db_path, "/src/data/waf.db");
    let files = resolve_app_files(
        &no_paths(),
        &SearchedDirs { container_complete: false, manifest_complete: false, ..all.clone() },
    )
    .unwrap();
    assert_eq!(files.security_policies_path, "/work/data/sec_policies.json");
    let explicit = PathEnv { config_path: present("/explicit/config.json"), ..no_paths() };
    assert_eq!(resolve_app_files(&explicit, &all).unwrap().config_path, "/explicit/config.json");
}

#[test]
fn missing_files_are_told() {
    assert_eq!(
        resolve_app_files(&no_paths(), &nothing_found()).unwrap_err().message(),
        "runtime files were not found in explicit env paths, '/app/config', '/src/data' or 'data'"
    );
    let unresolved = SearchedDirs { data_dir: DataDir::Unresolved, ..nothing_found() };
    assert_eq!(resolve_app_files(&no_paths(), &unresolved).unwrap_err().message(), "failed to canonicalize 'data'");
}

#[test]
fn paths_are_joined_with_one_slash() {
    assert_eq!(join_path("/a", "b"), "/a/b");
    assert_eq!(join_path("/a/", "b"), "/a/b");
    assert_eq!(join_path("", "b"), "b");
}

#[test]
fn relative_paths_start_from_the_base() {
    assert_eq!(resolve_runtime_path("/srv/waf", "data/cert.pem"), "/srv/waf/data/cert.pem");
    assert_eq!(resolve_runtime_path("/srv/waf", "/etc/cert.pem"), "/etc/cert.pem");
}

fn candidate(dir: &str, complete: bool, resolved: Option<&str>) -> DataDirCandidate {
    DataDirCandidate { dir: dir.to_string(), complete, resolved: resolved.map(str::to_string) }
}

#[test]
fn data_directory_is_the_first_complete_one() {
    let found = |m: bool, w: bool, e: Option<bool>| {
        resolve_data_dir(
            candidate("m", m, Some("/m")),
            candidate("w", w, Some("/w")),
            e.map(|e| candidate("e", e, Some("/e"))),
        )
    };
    assert_eq!(found(true, true, Some(true)).unwrap(), "/m");
    assert_eq!(found(false, true, Some(true)).unwrap(), "/w");
    assert_eq!(found(false, false, Some(true)).unwrap(), "/e");
    assert_eq!(
        found(false, false, Some(false)).unwrap_err().message(),
        "data directory was not found in 'w', 'm' or near executable"
    );
    assert!(found(false, false, None).is_err());
}

#[test]
fn data_directory_must_resolve() {
    let none = || candidate("x", false, None);
    assert_eq!(
        resolve_data_dir(candidate("m", true, None), none(), None).unwrap_err().message(),
        "failed to canonicalize manifest data directory 'm'"
    );
    assert_eq!(
        resolve_data_dir(none(), candidate("w", true, None), None).unwrap_err().message(),
        "failed to canonicalize cwd data directory 'w'"
    );
    assert_eq!(
        resolve_data_dir(none(), none(), Some(candidate("e", true, None))).unwrap_err().message(),
        "failed to canonicalize executable-relative data directory 'e'"
    );
}
