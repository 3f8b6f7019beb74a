//! What makes a configuration valid, how the environment overrides it, where its
//! files are, and what the admin interface answers.
use crate::admin::{
    admin_lists, bad_request, expiry, knows_password, not_found, password_hash, selected_logs, summarizes, token_in,
    unauthorized, ApiProblem, LogSelection,
};
use crate::config::{
    all_compiled_as, config_problem, data_dir_among, env_text, env_value, explicit_files, file_is_in_its_directory,
    files_in, first_bad_rule, located_files, mode_named, overridden, parent_of, path_in, port_named, rules_problem,
    runtime_path, target_named, up_to_slash, without_tail, AppFilesView, ConfigProblem, DataDir, DataDirCandidate,
    EnvReading, EnvValue, PathEnv, RuntimeEnv, SearchedDirs,
};
use crate::headers::{is_visible_ascii, values_under};
use crate::models::{
    list_name, role_name, AccessListType, CompiledRule, ConfigView, Rule, User, UserRole, UserSummary, WafMode,
};
use crate::number::{
    decimal, decimal_reads_back, digits_value_is_natural, hex, padded, signed_value, unsigned_value,
};
use crate::outside::{matched_texts, pattern_texts, sha256, url_parsed};
use crate::text::{ascii_lower, begins_with, is_blank, trim};
use vstd::prelude::*;
use vstd::utf8::*;

verus! {

/// A configuration is valid exactly if its target is a URL, its two ports
/// differ, and neither its host nor its two TLS paths are blank.
pub proof fn valid_configurations_are_these(config: ConfigView)
    ensures
        config_problem(config) is None <==> {
            &&& url_parsed(config.target_url) is Some
            &&& config.admin_port != config.interceptor_port
            &&& !is_blank(config.interceptor_host)
            &&& !is_blank(config.tls_cert_path)
            &&& !is_blank(config.tls_key_path)
        },
        config_problem(config) matches Some(problem) ==> match problem {
            ConfigProblem::InvalidTargetUrl(url) => url == config.target_url && url_parsed(url) is None,
            ConfigProblem::SamePorts => config.admin_port == config.interceptor_port,
            ConfigProblem::EmptyInterceptorHost => is_blank(config.interceptor_host),
            ConfigProblem::EmptyTlsCertPath => is_blank(config.tls_cert_path),
            ConfigProblem::EmptyTlsKeyPath => is_blank(config.tls_key_path),
            _ => false,
        },
{
}

/// Rules are valid exactly if there are some and every expression compiles; else
/// it is told that there are none, or which is the first that does not compile.
pub proof fn valid_rules_are_these(rules: Seq<Rule>)
    ensures
        rules_problem(rules) is None <==> rules.len() > 0 && forall|i: int|
            0 <= i < rules.len() ==> pattern_texts((#[trigger] rules[i]).regex@) is Some,
        rules.len() == 0 ==> rules_problem(rules) == Some(ConfigProblem::NoRules),
        rules.len() > 0 && rules_problem(rules) is Some ==> exists|i: int|
            {
                &&& 0 <= i < rules.len()
                &&& rules_problem(rules) == Some(ConfigProblem::InvalidRegex((#[trigger] rules[i]).id@))
                &&& pattern_texts(rules[i].regex@) is None
                &&& forall|j: int| 0 <= j < i ==> pattern_texts((#[trigger] rules[j]).regex@) is Some
            },
{
    first_bad_is_first(rules);
}

/// The first rule that does not compile.
proof fn first_bad_is_first(rules: Seq<Rule>)
    ensures
        match first_bad_rule(rules) {
            None => forall|i: int| 0 <= i < rules.len() ==> pattern_texts((#[trigger] rules[i]).regex@) is Some,
            Some(id) => exists|i: int|
                {
                    &&& 0 <= i < rules.len()
                    &&& id == (#[trigger] rules[i]).id@
                    &&& pattern_texts(rules[i].regex@) is None
                    &&& forall|j: int| 0 <= j < i ==> pattern_texts((#[trigger] rules[j]).regex@) is Some
                },
        },
    decreases rules.len(),
{
    if rules.len() > 0 {
        let rest = rules.drop_first();
        first_bad_is_first(rest);
        if pattern_texts(rules[0].regex@) is None {
            assert(rules[0].id@ == rules[0].id@);
        } else {
            match first_bad_rule(rest) {
                None => {
                    assert forall|i: int| 0 <= i < rules.len() implies pattern_texts(
                        (#[trigger] rules[i]).regex@,
                    ) is Some by {
                        if i > 0 {
                            assert(rest[i - 1] == rules[i]);
                        }
                    }
                },
                Some(id) => {
                    let i = choose|i: int|
                        {
                            &&& 0 <= i < rest.len()
                            &&& id == (#[trigger] rest[i]).id@
                            &&& pattern_texts(rest[i].regex@) is None
                            &&& forall|j: int| 0 <= j < i ==> pattern_texts((#[trigger] rest[j]).regex@) is Some
                        };
                    assert(rules[i + 1] == rest[i]);
                    assert forall|j: int| 0 <= j < i + 1 implies pattern_texts(
                        (#[trigger] rules[j]).regex@,
                    ) is Some by {
                        if j > 0 {
                            assert(rest[j - 1] == rules[j]);
                        }
                    }
                },
            }
        }
    }
}

/// Compiled rules are the rules, one for one, and find a match where the rules'
/// expressions do.
pub proof fn compiled_rules_are_the_rules(rules: Seq<Rule>, compiled: Seq<CompiledRule>, at: int)
    requires
        all_compiled_as(rules, compiled),
    ensures
        compiled.len() == rules.len(),
        0 <= at < rules.len() ==> {
            &&& compiled[at].id@ == rules[at].id@
            &&& compiled[at].name@ == rules[at].name@
            &&& compiled[at].severity == rules[at].severity
            &&& pattern_texts(rules[at].regex@) == Some(matched_texts(compiled[at].regex))
        },
{
}

/// A variable that is there counts if it is not blank; one that is not there
/// does not count; one that is no Unicode is an error.
pub proof fn variables_count_if_not_blank(key: Seq<char>, value: String)
    ensures
        is_blank(value@) ==> env_text(key, EnvValue::Present(value)) == Ok::<Option<Seq<char>>, ConfigProblem>(None),
        !is_blank(value@) ==> env_text(key, EnvValue::Present(value)) == Ok::<Option<Seq<char>>, ConfigProblem>(
            Some(value@),
        ),
        env_text(key, EnvValue::Absent) == Ok::<Option<Seq<char>>, ConfigProblem>(None),
        env_text(key, EnvValue::NotUnicode) == Err::<Option<Seq<char>>, ConfigProblem>(ConfigProblem::NotUnicode(key)),
{
}

/// Of several variables the first that is there decides.
pub proof fn first_variable_decides(absent: Seq<EnvReading>, reading: EnvReading, more: Seq<EnvReading>)
    requires
        forall|i: int| 0 <= i < absent.len() ==> (#[trigger] absent[i]).value is Absent,
    ensures
        !(reading.value is Absent) ==> env_value(absent + seq![reading] + more) == env_text(
            reading.key@,
            reading.value,
        ),
        env_value(absent) == Ok::<Option<Seq<char>>, ConfigProblem>(None),
    decreases absent.len(),
{
    let all = absent + seq![reading] + more;
    if absent.len() == 0 {
        assert(all[0] == reading);
    } else {
        let rest = absent.drop_first();
        assert forall|i: int| 0 <= i < rest.len() implies (#[trigger] rest[i]).value is Absent by {
            assert(rest[i] == absent[i + 1]);
        }
        first_variable_decides(rest, reading, more);
        assert(all[0] == absent[0]);
        assert(all.drop_first() =~= rest + seq![reading] + more);
        assert(absent[0].value is Absent);
    }
}

/// The mode is named `active` or `passive`, case and white space around it
/// aside.
pub proof fn modes_have_these_names(text: Seq<char>)
    ensures
        mode_named(text) == Some(WafMode::Active) <==> ascii_lower(trim(text)) == "active"@,
        mode_named(text) == Some(WafMode::Passive) <==> ascii_lower(trim(text)) == "passive"@,
{
    reveal_strlit("active");
    reveal_strlit("passive");
    assert("active"@.len() == 6 && "passive"@.len() == 7);
}

/// A port is a decimal number up to 65535, white space around it aside.
pub proof fn ports_are_these_numbers(text: Seq<char>, port: int)
    ensures
        port_named(text) == Some(port) <==> unsigned_value(trim(text), 10) == Some(port) && port <= 65535,
{
}

/// A target that names a scheme of HTTP is taken as it is, and another gets
/// `http://` in front, white space around it aside.
pub proof fn targets_are_taken_like_this(text: Seq<char>)
    ensures
        begins_with(trim(text), "http://"@) || begins_with(trim(text), "https://"@) ==> target_named(text) == trim(text),
        !begins_with(trim(text), "http://"@) && !begins_with(trim(text), "https://"@) ==> target_named(text)
            == "http://"@ + trim(text),
{
}

/// What a variable says, if it says anything that counts.
pub open spec fn says(value: EnvValue) -> Option<Seq<char>> {
    match value {
        EnvValue::Present(text) => if is_blank(text@) {
            None
        } else {
            Some(text@)
        },
        _ => None,
    }
}

/// When the overrides succeed, each of these fields has what its own variable
/// says, or what it had where that says nothing; all other fields stay.
pub proof fn each_variable_overrides_its_field(config: ConfigView, env: RuntimeEnv)
    requires
        overridden(config, env).problem is None,
    ensures
        ({
            let after = overridden(config, env).config;
            &&& says(env.waf_mode) is None ==> after.mode == config.mode
            &&& says(env.waf_mode) is Some ==> mode_named(says(env.waf_mode)->0) == Some(after.mode)
            &&& says(env.target_url) is None ==> after.target_url == config.target_url
            &&& says(env.target_url) is Some ==> after.target_url == target_named(says(env.target_url)->0)
            &&& says(env.admin_port) is None ==> after.admin_port == config.admin_port
            &&& says(env.admin_port) is Some ==> port_named(says(env.admin_port)->0) == Some(after.admin_port as int)
            &&& says(env.tls_private) is None ==> after.tls_key_path == config.tls_key_path
            &&& says(env.tls_private) is Some ==> after.tls_key_path == says(env.tls_private)->0
            &&& says(env.tls_public) is None ==> after.tls_cert_path == config.tls_cert_path
            &&& says(env.tls_public) is Some ==> after.tls_cert_path == says(env.tls_public)->0
            &&& after.is_enabled == config.is_enabled
            &&& after.interceptor_port == config.interceptor_port
            &&& after.interceptor_host == config.interceptor_host
            &&& config_problem(after) is None
        }),
{
    if let Some(text) = says(env.admin_port) {
        if let Some(value) = unsigned_value(trim(text), 10) {
            digits_value_is_natural(trim(text), 10);
            digits_value_is_natural(trim(text).drop_first(), 10);
        }
    }
}

/// The overrides fail exactly if a variable is no Unicode, names no mode or no
/// port, or the configuration that comes out is not valid.
pub proof fn overrides_fail_for_these_reasons(config: ConfigView, env: RuntimeEnv)
    ensures
        overridden(config, env).problem is Some <==> {
            ||| env.waf_mode is NotUnicode
            ||| env.target_url is NotUnicode
            ||| env.admin_port is NotUnicode
            ||| env.tls_private is NotUnicode
            ||| env.tls_public is NotUnicode
            ||| says(env.waf_mode) is Some && mode_named(says(env.waf_mode)->0) is None
            ||| says(env.admin_port) is Some && port_named(says(env.admin_port)->0) is None
            ||| config_problem(overridden(config, env).config) is Some
        },
{
}

/// Of the variables that cannot be taken, the first is told: the mode, the
/// target, the port, the private key, the certificate, in this order. Those
/// before it have been taken, and those behind it have not.
pub proof fn first_bad_variable_is_told(config: ConfigView, env: RuntimeEnv)
    ensures
        ({
            let mode_is_bad = env.waf_mode is NotUnicode || says(env.waf_mode) is Some && mode_named(
                says(env.waf_mode)->0,
            ) is None;
            let port_is_bad = env.admin_port is NotUnicode || says(env.admin_port) is Some && port_named(
                says(env.admin_port)->0,
            ) is None;
            let done = overridden(config, env);
            &&& mode_is_bad ==> done.config == config && done.problem == Some(
                if env.waf_mode is NotUnicode {
                    ConfigProblem::NotUnicode("WAF_MODE"@)
                } else {
                    ConfigProblem::InvalidMode
                },
            )
            &&& !mode_is_bad && env.target_url is NotUnicode ==> done.config.target_url == config.target_url
                && done.problem == Some(ConfigProblem::NotUnicode("TARGET_URL"@))
            &&& !mode_is_bad && !(env.target_url is NotUnicode) && port_is_bad ==> done.config.admin_port
                == config.admin_port && done.problem == Some(
                if env.admin_port is NotUnicode {
                    ConfigProblem::NotUnicode("ADMIN_PORT"@)
                } else {
                    ConfigProblem::InvalidPort("ADMIN_PORT"@)
                },
            )
            &&& !mode_is_bad && !(env.target_url is NotUnicode) && !port_is_bad && env.tls_private is NotUnicode
                ==> done.problem == Some(ConfigProblem::NotUnicode("TLS_PRIVATE"@))
            &&& !mode_is_bad && !(env.target_url is NotUnicode) && !port_is_bad && !(env.tls_private is NotUnicode)
                && env.tls_public is NotUnicode ==> done.problem == Some(ConfigProblem::NotUnicode("TLS_PUBLIC"@))
            &&& mode_is_bad || env.target_url is NotUnicode || port_is_bad || env.tls_private is NotUnicode
                ==> done.config.tls_key_path == config.tls_key_path && done.config.tls_cert_path
                == config.tls_cert_path
            &&& env.tls_public is NotUnicode ==> done.config.tls_cert_path == config.tls_cert_path
            &&& mode_is_bad || env.target_url is NotUnicode || port_is_bad ==> done.config.admin_port
                == config.admin_port
            &&& !mode_is_bad && says(env.waf_mode) is Some ==> mode_named(says(env.waf_mode)->0) == Some(
                done.config.mode,
            )
            &&& !mode_is_bad && says(env.waf_mode) is None ==> done.config.mode == config.mode
        }),
{
}

/// Where the variables that name files cannot be read, the first of them is told.
pub proof fn first_unreadable_name_is_told(env: PathEnv)
    ensures
        ({
            let found = explicit_files(env);
            &&& env.config_path is NotUnicode ==> found == Err::<Option<AppFilesView>, ConfigProblem>(
                ConfigProblem::NotUnicode("WAF_CONFIG_PATH"@),
            )
            &&& !(env.config_path is NotUnicode) && env.rules_path is NotUnicode ==> found == Err::<
                Option<AppFilesView>,
                ConfigProblem,
            >(ConfigProblem::NotUnicode("WAF_RULES_PATH"@))
            &&& !(env.config_path is NotUnicode) && !(env.rules_path is NotUnicode)
                && env.security_policies_path is NotUnicode ==> found == Err::<Option<AppFilesView>, ConfigProblem>(
                ConfigProblem::NotUnicode("WAF_SEC_POLICIES_PATH"@),
            )
            &&& !(env.config_path is NotUnicode) && !(env.rules_path is NotUnicode) && !(
            env.security_policies_path is NotUnicode) && env.db_path is NotUnicode ==> found == Err::<
                Option<AppFilesView>,
                ConfigProblem,
            >(ConfigProblem::NotUnicode("WAF_DB_PATH"@))
        }),
{
}

/// A variable that names a file says where it is; where some do and others do
/// not, the others are in the container. The directories are those that hold the
/// configuration and the database.
pub proof fn named_files_are_where_they_are_named(env: PathEnv)
    requires
        !(env.config_path is NotUnicode),
        !(env.rules_path is NotUnicode),
        !(env.security_policies_path is NotUnicode),
        !(env.db_path is NotUnicode),
    ensures
        ({
            let none = says(env.config_path) is None && says(env.rules_path) is None && says(
                env.security_policies_path,
            ) is None && says(env.db_path) is None;
            &&& none ==> explicit_files(env) == Ok::<Option<AppFilesView>, ConfigProblem>(None)
            &&& !none ==> explicit_files(env) is Ok && explicit_files(env)->Ok_0 is Some && {
                let files = explicit_files(env)->Ok_0->0;
                &&& files.config_path == (if says(env.config_path) is Some {
                    says(env.config_path)->0
                } else {
                    "/app/config/config.json"@
                })
                &&& files.rules_path == (if says(env.rules_path) is Some {
                    says(env.rules_path)->0
                } else {
                    "/app/config/rules.json"@
                })
                &&& files.security_policies_path == (if says(env.security_policies_path) is Some {
                    says(env.security_policies_path)->0
                } else {
                    "/app/config/sec_policies.json"@
                })
                &&& files.db_path == (if says(env.db_path) is Some {
                    says(env.db_path)->0
                } else {
                    "/var/lib/rust-waf/waf.db"@
                })
                &&& files.config_dir == (if parent_of(files.config_path) is Some {
                    parent_of(files.config_path)->0
                } else {
                    "."@
                })
                &&& files.db_dir == (if parent_of(files.db_path) is Some {
                    parent_of(files.db_path)->0
                } else {
                    "."@
                })
            }
        }),
{
}

/// What counts at the end of a path: slashes do not, nor does a dot behind one;
/// anything else does.
pub proof fn tails_of_paths_do_not_count(path: Seq<char>)
    requires
        path.len() > 0,
    ensures
        without_tail(path + seq!['/']) == without_tail(path),
        without_tail(path + seq!['/', '.']) == without_tail(path),
        path[path.len() - 1] != '/' && path[path.len() - 1] != '.' ==> without_tail(path) == path,
        parent_of(seq!['/']) is None,
        parent_of(Seq::<char>::empty()) is None,
{
    let once = path + seq!['/'];
    let dotted = path + seq!['/', '.'];
    assert(once.drop_last() =~= path);
    assert(dotted.drop_last() =~= once);
    assert(dotted.last() == '.');
    assert(dotted[dotted.len() - 2] == '/');
    assert(once.last() == '/');
    assert(without_tail(dotted) == without_tail(dotted.drop_last()));
    assert(without_tail(once) == without_tail(once.drop_last()));
}

/// A bare file name is in the directory that has no name, and a file in the root
/// is in the root.
pub proof fn bare_names_are_in_no_named_directory(name: Seq<char>)
    requires
        name.len() > 0,
        !name.contains('/'),
        name != seq!['.'],
    ensures
        parent_of(name) == Some(Seq::<char>::empty()),
        parent_of(seq!['/'] + name) == Some(seq!['/']),
{
    assert(without_tail(seq!['/']) == seq!['/']);
    file_is_in_its_directory(seq!['/'], name);
    assert(path_in(seq!['/'], name) =~= seq!['/'] + name);
    assert forall|i: int| 0 <= i < name.len() implies #[trigger] name[i] != '/' by {
        assert(name.contains(name[i]));
    }
    assert(name[name.len() - 1] != '/');
    if name.len() > 1 {
        assert(name[name.len() - 2] != '/');
    }
    assert(without_tail(name) == name);
    assert(name != seq!['/']) by {
        assert(name[0] != seq!['/'][0]);
    }
    no_slash_no_directory(name);
}

/// A text without slashes has nothing up to its last slash.
proof fn no_slash_no_directory(name: Seq<char>)
    requires
        forall|i: int| 0 <= i < name.len() ==> #[trigger] name[i] != '/',
    ensures
        up_to_slash(name) == Seq::<char>::empty(),
    decreases name.len(),
{
    if name.len() > 0 {
        assert(name[name.len() - 1] != '/');
        let rest = name.drop_last();
        assert forall|i: int| 0 <= i < rest.len() implies #[trigger] rest[i] != '/' by {
            assert(rest[i] == name[i]);
        }
        no_slash_no_directory(rest);
    } else {
        assert(name =~= Seq::<char>::empty());
    }
}

/// A file in a directory has the directory's path, a slash where none is there
/// yet, and its name. A path that begins with a slash needs no directory.
pub proof fn paths_are_made_like_this(dir: Seq<char>, name: Seq<char>)
    ensures
        path_in(dir + seq!['/'], name) == dir + seq!['/'] + name,
        path_in(Seq::<char>::empty(), name) == name,
        dir.len() > 0 && dir[dir.len() - 1] != '/' ==> path_in(dir, name) == dir + seq!['/'] + name,
        name.len() > 0 && name[0] == '/' ==> runtime_path(dir, name) == name,
        !(name.len() > 0 && name[0] == '/') ==> runtime_path(dir, name) == path_in(dir, name),
{
    reveal_strlit("/");
    assert("/"@ =~= seq!['/']);
    assert((dir + seq!['/']).last() == '/');
    assert(Seq::<char>::empty() + name =~= name);
    if name.len() > 0 {
        assert(name.subrange(0, 1)[0] == name[0]);
        assert(name[0] == '/' ==> name.subrange(0, 1) =~= "/"@);
    }
}

/// The files are where the environment says; else in the container, beside the
/// manifest or in the working directory, whichever is the first that has them.
pub proof fn files_are_looked_for_in_this_order(env: PathEnv, dirs: SearchedDirs)
    ensures
        explicit_files(env) matches Err(problem) ==> located_files(env, dirs) == Err::<AppFilesView, ConfigProblem>(
            problem,
        ),
        explicit_files(env) matches Ok(Some(files)) ==> located_files(env, dirs) == Ok::<AppFilesView, ConfigProblem>(
            files,
        ),
        explicit_files(env) == Ok::<Option<AppFilesView>, ConfigProblem>(None) ==> {
            let found = located_files(env, dirs);
            &&& dirs.container_complete ==> found is Ok && found->Ok_0.config_path == "/app/config/config.json"@
                && found->Ok_0.rules_path == "/app/config/rules.json"@ && found->Ok_0.security_policies_path
                == "/app/config/sec_policies.json"@ && found->Ok_0.db_path == "/var/lib/rust-waf/waf.db"@
                && found->Ok_0.config_dir == "/app/config"@ && found->Ok_0.db_dir == "/var/lib/rust-waf"@
            &&& !dirs.container_complete && dirs.manifest_complete ==> found == Ok::<AppFilesView, ConfigProblem>(
                files_in(dirs.manifest_dir@),
            )
            &&& !dirs.container_complete && !dirs.manifest_complete ==> match dirs.data_dir {
                DataDir::Complete(dir) => found == Ok::<AppFilesView, ConfigProblem>(files_in(dir@)),
                DataDir::Unresolved => found == Err::<AppFilesView, ConfigProblem>(
                    ConfigProblem::UnresolvedDataDir("data"@),
                ),
                DataDir::Incomplete => found == Err::<AppFilesView, ConfigProblem>(
                    ConfigProblem::FilesNotFound { manifest_dir: dirs.manifest_dir@, data_dir: "data"@ },
                ),
            }
        },
{
}

/// A directory that holds everything has these files in it.
pub proof fn directories_hold_these_files(dir: Seq<char>)
    ensures
        files_in(dir).config_path == path_in(dir, "config.json"@),
        files_in(dir).rules_path == path_in(dir, "rules.json"@),
        files_in(dir).security_policies_path == path_in(dir, "sec_policies.json"@),
        files_in(dir).db_path == path_in(dir, "waf.db"@),
        files_in(dir).config_dir == dir,
        files_in(dir).db_dir == dir,
{
}

/// The data directory is the first that has all files, of the one beside the
/// manifest, the one in the working directory and the one near the executable,
/// by its absolute path.
pub proof fn data_directory_is_the_first_complete(
    manifest: DataDirCandidate,
    working: DataDirCandidate,
    near: DataDirCandidate,
    path: Seq<char>,
)
    ensures
        data_dir_among(manifest, working, Some(near)) == Ok::<Seq<char>, ConfigProblem>(path) <==> {
            ||| manifest.complete && manifest.resolved is Some && manifest.resolved->0@ == path
            ||| !manifest.complete && working.complete && working.resolved is Some && working.resolved->0@ == path
            ||| !manifest.complete && !working.complete && near.complete && near.resolved is Some && near.resolved->0@
                == path
        },
        manifest.complete || working.complete ==> data_dir_among(manifest, working, None) == data_dir_among(
            manifest,
            working,
            Some(near),
        ),
        !manifest.complete && !working.complete ==> data_dir_among(manifest, working, None) is Err,
{
}

/// Where there is no data directory, it is told which has no absolute path, or
/// where it was looked for.
pub proof fn missing_data_directories_are_told(
    manifest: DataDirCandidate,
    working: DataDirCandidate,
    near: DataDirCandidate,
)
    requires
        data_dir_among(manifest, working, Some(near)) is Err,
    ensures
        ({
            let problem = data_dir_among(manifest, working, Some(near))->Err_0;
            &&& manifest.complete ==> problem == ConfigProblem::UnresolvedManifestDir(manifest.dir@)
            &&& !manifest.complete && working.complete ==> problem == ConfigProblem::UnresolvedWorkingDir(working.dir@)
            &&& !manifest.complete && !working.complete && near.complete ==> problem
                == ConfigProblem::UnresolvedExecutableDir(near.dir@)
            &&& !manifest.complete && !working.complete && !near.complete ==> problem
                == ConfigProblem::DataDirNotFound { working_dir: working.dir@, manifest_dir: manifest.dir@ }
            &&& !manifest.complete && !working.complete ==> data_dir_among(manifest, working, None) == Err::<
                Seq<char>,
                ConfigProblem,
            >(ConfigProblem::DataDirNotFound { working_dir: working.dir@, manifest_dir: manifest.dir@ })
        }),
{
}

/// A password is stored as the SHA-256 digest of its UTF-8 encoding, in
/// hexadecimal, and a user knows it exactly if that is what is stored.
pub proof fn passwords_are_stored_as_digests(user: User, password: Seq<char>)
    ensures
        password_hash(password) == hex(sha256(encode_utf8(password))),
        knows_password(user, password) <==> user.password_hash@ == hex(sha256(encode_utf8(password))),
{
}

/// A login lasts 28800 seconds.
pub proof fn logins_last_eight_hours(now: i64)
    ensures
        expiry(now) == now + 28800,
{
}

/// A token is what follows `Bearer ` in the first value of the header, if that
/// is visible ASCII; anything else is answered with 401.
pub proof fn tokens_follow_their_scheme(token: Seq<char>, values: Seq<Seq<u8>>, text: Seq<char>)
    ensures
        values.len() > 0 && values[0] == encode_utf8("Bearer "@ + token) && is_visible_ascii(values[0]) ==> token_in(
            values,
        ) == Ok::<Seq<char>, ApiProblem>(token),
        values.len() == 0 || !is_visible_ascii(values[0]) ==> token_in(values) == Err::<Seq<char>, ApiProblem>(
            ApiProblem { status: 401, message: "missing authorization header"@ },
        ),
        values.len() > 0 && values[0] == encode_utf8(text) && is_visible_ascii(values[0]) && !begins_with(
            text,
            "Bearer "@,
        ) ==> token_in(values) == Err::<Seq<char>, ApiProblem>(
            ApiProblem { status: 401, message: "invalid authorization scheme"@ },
        ),
{
    let whole = "Bearer "@ + token;
    encode_utf8_decode_utf8(whole);
    encode_utf8_decode_utf8(text);
    reveal_strlit("Bearer ");
    assert(whole.subrange(0, 7) =~= "Bearer "@);
    assert(whole.skip(7) =~= token);
}

/// Errors are answered with these statuses.
pub proof fn errors_have_these_statuses(message: Seq<char>)
    ensures
        unauthorized(message).status == 401,
        not_found(message).status == 404,
        bad_request(message).status == 400,
        unauthorized(message).message == message,
        not_found(message).message == message,
        bad_request(message).message == message,
{
}

/// As many logs are given as are asked for, all of them for `all`, and 100 where
/// no number is given.
pub proof fn logs_are_given_as_asked(text: Seq<char>, count: i64)
    ensures
        selected_logs(None) == LogSelection::Latest(100),
        selected_logs(Some("all"@)) == LogSelection::All,
        text != "all"@ && signed_value(text, 10) == Some(count as int) ==> selected_logs(Some(text))
            == LogSelection::Latest(count),
        text != "all"@ && signed_value(text, 10) is None ==> selected_logs(Some(text)) == LogSelection::Latest(100),
        selected_logs(Some(text)) is All ==> text == "all"@,
{
}

/// What is shown of a user is the id, the name, the role and the time of
/// creation.
pub proof fn summaries_show_these_fields(summary: UserSummary, user: User)
    ensures
        summarizes(summary, user) <==> summary.id == user.id && summary.username == user.username && summary.role
            == user.role && summary.created_at == user.created_at,
{
}

/// Roles and access lists are stored under these names.
pub proof fn roles_and_lists_have_these_names()
    ensures
        role_name(UserRole::Admin) == "admin"@,
        role_name(UserRole::Analyst) == "analyst"@,
        list_name(AccessListType::White) == "white"@,
        list_name(AccessListType::Black) == "black"@,
{
}

/// Answers of the admin interface have these four headers set to these values,
/// and all others as they were.
pub proof fn admin_answers_have_these_headers(lists: Map<Seq<char>, Seq<Seq<u8>>>, name: Seq<char>)
    ensures
        values_under(admin_lists(lists), "x-frame-options"@) == seq![encode_utf8("DENY"@)],
        values_under(admin_lists(lists), "x-content-type-options"@) == seq![encode_utf8("nosniff"@)],
        values_under(admin_lists(lists), "referrer-policy"@) == seq![encode_utf8("same-origin"@)],
        values_under(admin_lists(lists), "content-security-policy"@) == seq![
            encode_utf8("default-src 'self'; script-src 'self' 'unsafe-inline' https://cdn.tailwindcss.com https://cdn.jsdelivr.net https://cdn.jsdelivr.net/npm/chart.js; style-src 'self' 'unsafe-inline'; img-src 'self' data:; connect-src 'self'; font-src 'self' data:; object-src 'none'; base-uri 'self'; frame-ancestors 'none'"@),
        ],
        name != "x-frame-options"@ && name != "x-content-type-options"@ && name != "referrer-policy"@ && name
            != "content-security-policy"@ ==> values_under(admin_lists(lists), name) == values_under(lists, name),
{
    reveal_strlit("x-frame-options");
    reveal_strlit("x-content-type-options");
    reveal_strlit("referrer-policy");
    reveal_strlit("content-security-policy");
    assert("x-frame-options"@[0] == 'x');
    assert("x-frame-options"@.len() == 15);
    assert("x-content-type-options"@.len() == 22);
    assert("referrer-policy"@[0] == 'r');
    assert("referrer-policy"@.len() == 15);
    assert("content-security-policy"@.len() == 23);
}

/// A number in decimal has no zero in front, unless it is zero; filled up to a
/// width it has zeros in front, as many as it takes.
pub proof fn numbers_are_written_like_this(n: nat, width: nat)
    ensures
        n > 0 ==> decimal(n)[0] != '0',
        decimal(0) == seq!['0'],
        padded(n, width).len() == (if decimal(n).len() < width {
            width
        } else {
            decimal(n).len()
        }),
        padded(n, width).skip(padded(n, width).len() - decimal(n).len()) == decimal(n),
        forall|i: int| 0 <= i < padded(n, width).len() - decimal(n).len() ==> #[trigger] padded(n, width)[i] == '0',
    decreases n,
{
    decimal_reads_back(n);
    if n >= 10 {
        numbers_are_written_like_this(n / 10, width);
        decimal_reads_back(n / 10);
        assert(decimal(n)[0] == decimal(n / 10)[0]);
    }
    assert(padded(n, width).skip(padded(n, width).len() - decimal(n).len()) =~= decimal(n));
}

} // verus!
