//! How values are seen and written, and the words in which faults are told.
use crate::admin::{bad_request, not_found, unauthorized, ApiError};
use crate::analyzer::entry_list;
use crate::config::{problem_of, problem_text, AppFiles, ConfigError};
use crate::forward::{first_of, opt_str};
use crate::headers::{
    has_room, is_plain_name, is_value_text, is_visible_ascii, is_visible_text, no_headers, on_the_way, values_among,
    values_under,
};
use crate::models::{
    decision_view, header_texts, opt_text, AnalysisDecision, AnalysisRequest, Config, IpAccessEntry,
    NormalizedRequest,
};
use crate::moment::{clock_text, parts, Moment};
use crate::number::{digit_value, padded};
use crate::outside::{json_char, json_escaped, json_opt_string, json_string, url_host, url_place, url_port, url_scheme};
use crate::proxy::{proxy_problem_text, with_header, ProxyError};
use crate::text_map::with_values;
use crate::words::texts;
use vstd::prelude::*;
use vstd::utf8::*;

verus! {

/// Nothing of a request is lost in its view.
pub proof fn requests_are_seen_whole(request: AnalysisRequest, at: int)
    ensures
        request@.source_ip == request.source_ip@,
        request@.method == request.method@,
        request@.path == request.path@,
        request@.query == opt_text(request.query),
        request@.body == opt_text(request.body),
        request@.headers == header_texts(request.headers),
        request@.headers.len() == request.headers@.len(),
        0 <= at < request.headers@.len() ==> request@.headers[at] == (
            request.headers@[at].0,
            request.headers@[at].1@,
        ),
{
}

/// Nothing of a request whose encodings are undone is lost in its view.
pub proof fn normalized_requests_are_seen_whole(request: NormalizedRequest, at: int, i: int)
    ensures
        request@.path == request.path@,
        request@.query == opt_text(request.query),
        request@.body == texts(request.body@),
        request@.headers.len() == request.headers@.len(),
        0 <= at < request.headers@.len() ==> request@.headers[at] == (
            request.headers@[at].0,
            texts(request.headers@[at].1@),
        ),
        texts(request.body@).len() == request.body@.len(),
        0 <= i < request.body@.len() ==> texts(request.body@)[i] == request.body@[i]@,
{
}

/// Nothing of a decision is lost in its view.
pub proof fn decisions_are_seen_whole(decision: AnalysisDecision)
    ensures
        decision@.action == decision.action,
        decision@.reason == decision.reason,
        decision@.matched_rule_id == opt_text(decision.matched_rule_id),
        decision@.message == decision.message@,
        decision_view(Some(decision)) == Some(decision@),
        decision_view(None) is None,
{
}

/// Nothing of a configuration is lost in its view.
pub proof fn configurations_are_seen_whole(config: Config)
    ensures
        config@.mode == config.mode,
        config@.is_enabled == config.is_enabled,
        config@.target_url == config.target_url@,
        config@.admin_port == config.admin_port,
        config@.interceptor_port == config.interceptor_port,
        config@.interceptor_host == config.interceptor_host@,
        config@.tls_cert_path == config.tls_cert_path@,
        config@.tls_key_path == config.tls_key_path@,
{
}

/// Nothing of the places of the files is lost in their view.
pub proof fn files_are_seen_whole(files: AppFiles)
    ensures
        files@.config_path == files.config_path@,
        files@.rules_path == files.rules_path@,
        files@.security_policies_path == files.security_policies_path@,
        files@.db_path == files.db_path@,
        files@.config_dir == files.config_dir@,
        files@.db_dir == files.db_dir@,
{
}

/// What is there is seen, and where nothing is there, nothing is seen.
pub proof fn optional_values_are_seen(text: String, part: &str, entry: &IpAccessEntry, m: Moment)
    ensures
        opt_text(Some(text)) == Some(text@),
        opt_text(None) is None,
        opt_str(Some(part)) == Some(part@),
        opt_str(None) is None,
        entry_list(Some(entry)) == Some(entry.list_type@),
        entry_list(None) is None,
        parts(Some(m)) == Some((m.seconds, m.nanos)),
        parts(None) is None,
{
}

/// An outcome has a problem just if it is an error.
pub proof fn errors_have_their_problems<T>(value: T, error: ConfigError)
    ensures
        problem_of(Ok::<T, ConfigError>(value)) is None,
        problem_of(Err::<T, ConfigError>(error)) == Some(error@),
{
}

/// The values of a map are seen one by one, under the keys that they are under.
pub proof fn values_are_seen_one_by_one<V, W>(entries: Seq<(Seq<char>, V)>, seen: spec_fn(V) -> W, at: int)
    ensures
        with_values(entries, seen).len() == entries.len(),
        0 <= at < entries.len() ==> with_values(entries, seen)[at] == (entries[at].0, seen(entries[at].1)),
{
}

/// Setting a header leaves the value alone under its name, and all other headers
/// as they are.
pub proof fn headers_are_set_one_by_one(
    lists: Map<Seq<char>, Seq<Seq<u8>>>,
    name: Seq<char>,
    value: Seq<char>,
    other: Seq<char>,
)
    ensures
        values_under(with_header(lists, name, value), name) == seq![encode_utf8(value)],
        other != name ==> values_under(with_header(lists, name, value), other) == values_under(lists, other),
{
}

/// What stands under a name is what was put there, whatever was put under others
/// and until it is taken away.
pub proof fn values_stand_under_their_names(
    lists: Map<Seq<char>, Seq<Seq<u8>>>,
    name: Seq<char>,
    values: Seq<Seq<u8>>,
    other: Seq<char>,
)
    ensures
        values_under(lists.insert(name, values), name) == values,
        values_under(lists.remove(name), name).len() == 0,
        values_under(no_headers(), name).len() == 0,
        other != name ==> values_under(lists.insert(name, values), other) == values_under(lists, other),
        other != name ==> values_under(lists.remove(name), other) == values_under(lists, other),
{
}

/// The values under a name are told piece by piece: those among the first
/// headers, then those among the rest.
pub proof fn values_are_told_piecewise(a: Seq<(Seq<char>, Seq<u8>)>, b: Seq<(Seq<char>, Seq<u8>)>, name: Seq<char>)
    ensures
        values_among(a + b, name) == values_among(a, name) + values_among(b, name),
    decreases b.len(),
{
    if b.len() == 0 {
        assert(a + b =~= a);
        assert(values_among(b, name) =~= Seq::<Seq<u8>>::empty());
    } else {
        values_are_told_piecewise(a, b.drop_last(), name);
        assert((a + b).drop_last() =~= a + b.drop_last());
        assert((a + b).last() == b.last());
    }
}

/// A header is among the values of its own name, and of no other.
pub proof fn value_of_one_header(pair: (Seq<char>, Seq<u8>), name: Seq<char>)
    ensures
        pair.0 == name ==> values_among(seq![pair], name) == seq![pair.1],
        pair.0 != name ==> values_among(seq![pair], name).len() == 0,
{
    assert(seq![pair].drop_last() =~= Seq::empty());
    assert(values_among(Seq::empty(), name) =~= Seq::<Seq<u8>>::empty());
}

/// A value is visible if each of its parts is; of the bytes, those from the
/// space to the tilde and the tab are.
pub proof fn values_are_visible_byte_by_byte(a: Seq<u8>, b: Seq<u8>, byte: u8)
    ensures
        is_visible_ascii(a + b) <==> is_visible_ascii(a) && is_visible_ascii(b),
        is_visible_ascii(seq![byte]) <==> (0x20 <= byte <= 0x7e || byte == 0x09),
        is_visible_ascii(Seq::empty()),
{
    if is_visible_ascii(a + b) {
        assert forall|i: int| 0 <= i < a.len() implies 32 <= #[trigger] a[i] < 127 || a[i] == 9 by {
            assert((a + b)[i] == a[i]);
        }
        assert forall|i: int| 0 <= i < b.len() implies 32 <= #[trigger] b[i] < 127 || b[i] == 9 by {
            assert((a + b)[a.len() + i] == b[i]);
        }
    }
    assert(seq![byte][0] == byte);
}

/// A text can be a value if each of its parts can: no character in it is a
/// control character but the tab.
pub proof fn texts_are_values_piecewise(a: Seq<char>, b: Seq<char>, c: char)
    ensures
        is_value_text(a + b) <==> is_value_text(a) && is_value_text(b),
        is_value_text(seq![c]) <==> (c as u32 >= 0x20 && c as u32 != 0x7f || c as u32 == 0x09),
        is_value_text(Seq::empty()),
{
    if is_value_text(a + b) {
        assert forall|i: int| 0 <= i < a.len() implies (' ' <= #[trigger] a[i] && a[i] != '\u{7f}') || a[i] == '\t' by {
            assert((a + b)[i] == a[i]);
        }
        assert forall|i: int| 0 <= i < b.len() implies (' ' <= #[trigger] b[i] && b[i] != '\u{7f}') || b[i] == '\t' by {
            assert((a + b)[a.len() + i] == b[i]);
        }
    }
    assert(seq![c][0] == c);
}

/// The texts that are put into headers here are visible, and the names are of
/// small letters, digits and hyphens, at most a thousand.
pub proof fn texts_of_headers_are_these(text: Seq<char>, at: int)
    requires
        0 <= at < text.len(),
    ensures
        is_visible_text(text) ==> (0x20 <= text[at] as u32 <= 0x7e || text[at] as u32 == 0x09),
        is_plain_name(text) ==> text.len() <= 1000 && (0x61 <= text[at] as u32 <= 0x7a || 0x30 <= text[at] as u32
            <= 0x39 || text[at] as u32 == 0x2d),
{
}

/// There is room for some more names just if there are at most 6554 with them.
pub proof fn room_is_for_so_many_names(lists: Map<Seq<char>, Seq<Seq<u8>>>, more: int)
    requires
        lists.dom().finite(),
    ensures
        has_room(lists, more) <==> lists.dom().len() + more <= 6554,
{
}

/// Where setting headers stops on the way, each name has the values that it had,
/// or the first of those that it was to have.
pub proof fn stopping_leaves_old_or_new_values(
    from: Map<Seq<char>, Seq<Seq<u8>>>,
    to: Map<Seq<char>, Seq<Seq<u8>>>,
    now: Map<Seq<char>, Seq<Seq<u8>>>,
    name: Seq<char>,
)
    ensures
        on_the_way(from, to, from),
        on_the_way(from, to, to),
        on_the_way(from, to, now) ==> values_under(now, name) == values_under(from, name) || values_under(
            now,
            name,
        ).is_prefix_of(values_under(to, name)),
{
}

/// The first of some values is the one in front of all others.
pub proof fn first_value_is_in_front(first: Seq<u8>, rest: Seq<Seq<u8>>)
    ensures
        first_of(seq![first] + rest) == Some(first),
        first_of(Seq::empty()) is None,
{
}

/// Clocks show hours and minutes, two digits each, and do not show seconds or
/// days.
pub proof fn clocks_show_hours_and_minutes(day: int, hour: nat, minute: nat, second: nat, m: Moment)
    requires
        hour < 24,
        minute < 60,
        second < 60,
        m.seconds == day * 86400 + hour * 3600 + minute * 60 + second,
    ensures
        clock_text(m) == padded(hour, 2) + ":"@ + padded(minute, 2),
{
    let within = (hour * 3600 + minute * 60 + second) as int;
    assert(m.seconds as int % 86400 == within) by (nonlinear_arith)
        requires
            m.seconds == day * 86400 + within,
            0 <= within < 86400,
    ;
}

/// Texts are written in JSON between quotes, piece by piece. A quote and a
/// backslash have a backslash put before them, and every character from the
/// space on that is neither stays as it is.
pub proof fn json_texts_are_written_piecewise(a: Seq<char>, b: Seq<char>, c: char)
    ensures
        json_string(a) == seq!['"'] + json_escaped(a) + seq!['"'],
        json_opt_string(Some(a)) == json_string(a),
        json_opt_string(None) == "null"@,
        json_escaped(a + b) == json_escaped(a) + json_escaped(b),
        json_escaped(seq!['"']) == seq!['\\', '"'],
        json_escaped(seq!['\\']) == seq!['\\', '\\'],
        c as u32 >= 0x20 && c != '"' && c != '\\' ==> json_escaped(seq![c]) == seq![c],
    decreases b.len(),
{
    json_of_one(c);
    json_of_one('"');
    json_of_one('\\');
    if b.len() == 0 {
        assert(a + b =~= a);
        assert(json_escaped(a) + json_escaped(b) =~= json_escaped(a));
    } else {
        json_texts_are_written_piecewise(a, b.drop_last(), c);
        assert((a + b).drop_last() =~= a + b.drop_last());
        assert((a + b).last() == b.last());
        assert(json_escaped(a + b) =~= json_escaped(a) + json_escaped(b));
    }
}

/// The characters before the space are written with a letter of their own where
/// they have one, and else by their number.
pub proof fn control_characters_are_escaped_in_json(c: char)
    requires
        (c as u32) < 0x20,
    ensures
        c as u32 == 0x08 ==> json_escaped(seq![c]) == seq!['\\', 'b'],
        c as u32 == 0x09 ==> json_escaped(seq![c]) == seq!['\\', 't'],
        c as u32 == 0x0a ==> json_escaped(seq![c]) == seq!['\\', 'n'],
        c as u32 == 0x0c ==> json_escaped(seq![c]) == seq!['\\', 'f'],
        c as u32 == 0x0d ==> json_escaped(seq![c]) == seq!['\\', 'r'],
        c as u32 != 0x08 && c as u32 != 0x09 && c as u32 != 0x0a && c as u32 != 0x0c && c as u32 != 0x0d ==> {
            let written = json_escaped(seq![c]);
            &&& written.len() == 6
            &&& written.take(4) == seq!['\\', 'u', '0', '0']
            &&& digit_value(written[4], 16) == Some(c as int / 16)
            &&& digit_value(written[5], 16) == Some(c as int % 16)
        },
{
    json_of_one(c);
    let written = json_escaped(seq![c]);
    if written.len() == 6 {
        assert(written.take(4) =~= seq!['\\', 'u', '0', '0']);
    }
}

/// How a character is written in JSON.
proof fn json_of_one(c: char)
    ensures
        json_escaped(seq![c]) == json_char(c),
{
    assert(seq![c].drop_last() =~= Seq::<char>::empty());
    assert(json_escaped(Seq::<char>::empty()) =~= Seq::<char>::empty());
    assert(Seq::<char>::empty() + json_char(c) =~= json_char(c));
}

/// The scheme of a URL is what stands in front of its first colon.
pub proof fn schemes_end_at_the_colon(scheme: Seq<char>, rest: Seq<char>)
    requires
        !scheme.contains(':'),
    ensures
        url_scheme(scheme + seq![':'] + rest) == scheme,
        url_scheme(scheme) == scheme,
    decreases scheme.len(),
{
    let url = scheme + seq![':'] + rest;
    if scheme.len() == 0 {
        assert(url[0] == ':');
        assert(url_scheme(url) =~= scheme);
        assert(url_scheme(scheme) =~= scheme);
    } else {
        assert(scheme.contains(scheme[0]));
        assert(url[0] == scheme[0]);
        let less = scheme.drop_first();
        assert forall|i: int| 0 <= i < less.len() implies less[i] != ':' by {
            assert(scheme.contains(scheme[i + 1]));
        }
        schemes_end_at_the_colon(less, rest);
        assert(url.drop_first() =~= less + seq![':'] + rest);
        assert(seq![scheme[0]] + less =~= scheme);
    }
}

/// Two URLs are at one place just if scheme, host and port are the same.
pub proof fn places_are_schemes_hosts_and_ports(a: Seq<char>, b: Seq<char>)
    ensures
        url_place(a) == url_place(b) <==> url_scheme(a) == url_scheme(b) && url_host(a) == url_host(b) && url_port(a)
            == url_port(b),
{
}

/// Faults of the configuration are told in these words.
pub proof fn faults_of_the_configuration_are_told(a: String, b: String)
    ensures
        problem_text(ConfigError::InvalidTargetUrl(a)@) == "target_url '"@ + a@ + "' is not a valid URL"@,
        problem_text(ConfigError::SamePorts@) == "admin_port and interceptor_port must be different"@,
        problem_text(ConfigError::EmptyInterceptorHost@) == "interceptor_host must not be empty"@,
        problem_text(ConfigError::EmptyTlsCertPath@) == "tls_cert_path must not be empty"@,
        problem_text(ConfigError::EmptyTlsKeyPath@) == "tls_key_path must not be empty"@,
        problem_text(ConfigError::NoRules@) == "rules list must contain at least one rule"@,
        problem_text(ConfigError::InvalidRegex(a)@) == "invalid regex for rule '"@ + a@ + "'"@,
        problem_text(ConfigError::NotUnicode(a)@) == "environment variable '"@ + a@ + "' is not valid Unicode"@,
        problem_text(ConfigError::InvalidMode@) == "WAF_MODE must be either 'active' or 'passive'"@,
        problem_text(ConfigError::InvalidPort(a)@) == "environment variable '"@ + a@ + "' must be a valid TCP port"@,
        problem_text(ConfigError::UnresolvedDataDir(a)@) == "failed to canonicalize '"@ + a@ + "'"@,
        problem_text(ConfigError::FilesNotFound { manifest_dir: a, data_dir: b }@)
            == "runtime files were not found in explicit env paths, '/app/config', '"@ + a@ + "' or '"@ + b@ + "'"@,
        problem_text(ConfigError::UnresolvedManifestDir(a)@) == "failed to canonicalize manifest data directory '"@
            + a@ + "'"@,
        problem_text(ConfigError::UnresolvedWorkingDir(a)@) == "failed to canonicalize cwd data directory '"@ + a@
            + "'"@,
        problem_text(ConfigError::UnresolvedExecutableDir(a)@)
            == "failed to canonicalize executable-relative data directory '"@ + a@ + "'"@,
        problem_text(ConfigError::DataDirNotFound { working_dir: a, manifest_dir: b }@)
            == "data directory was not found in '"@ + a@ + "', '"@ + b@ + "' or near executable"@,
{
}

/// Faults of passing a request on are told in these words.
pub proof fn faults_of_the_passage_are_told(a: String)
    ensures
        proxy_problem_text(ProxyError::InvalidTargetUrl(a)@) == "failed to parse target URL '"@ + a@ + "'"@,
        proxy_problem_text(ProxyError::InvalidUpstreamUrl(a)@) == "failed to build upstream URL for '"@ + a@ + "'"@,
        proxy_problem_text(ProxyError::InvalidForwardedHost@) == "failed to set x-forwarded-host header"@,
        proxy_problem_text(ProxyError::InvalidForwardedFor(a)@) == "failed to build x-forwarded-for header '"@ + a@
            + "'"@,
        proxy_problem_text(ProxyError::InvalidCookie(a)@) == "failed to build hardened Set-Cookie header '"@ + a@
            + "'"@,
        proxy_problem_text(ProxyError::UnserializedPayload@) == "failed to serialize attack payload"@,
        proxy_problem_text(ProxyError::UnserializedPreview@) == "failed to serialize blocked request preview"@,
        proxy_problem_text(ProxyError::TooManyHeaders@) == "too many distinct header names"@,
{
}

/// Errors that are sent have these statuses, and the words that are given.
pub proof fn errors_are_sent_like_this(error: ApiError, message: Seq<char>)
    ensures
        error@.status == error.status,
        error@.message == error.message@,
        unauthorized(message).status == 401,
        unauthorized(message).message == message,
        not_found(message).status == 404,
        not_found(message).message == message,
        bad_request(message).status == 400,
        bad_request(message).message == message,
{
}

} // verus!
