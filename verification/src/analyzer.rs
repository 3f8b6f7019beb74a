//! Deciding on a request.
use crate::config::{all_compiled_as, compiled_as, SharedState};
use crate::models::{
    decision_view, list_name, AccessListType, AnalysisDecision, AnalysisRequest, CompiledRule, DecisionAction,
    DecisionReason, DecisionView, IpAccessEntry, NormalizedRequest, NormalizedView, RequestView, Rule, WafMode,
};
use crate::normalize::{
    inspected_header, normalize_request, request_form, should_inspect_header_for_signatures,
};
use crate::outside::matched_texts;
use crate::policy::{check_policies, phrase, policy_verdict, refusal};
use crate::text::same_text;
use crate::words::texts;
use vstd::prelude::*;

verus! {

/// The decision to let a request pass.
pub open spec fn acceptance(reason: DecisionReason, message: Seq<char>) -> DecisionView {
    DecisionView { action: DecisionAction::Allow, reason, matched_rule_id: None, message }
}

/// What the access lists say about an address, given the name of the list that
/// it is on. An address on no list, or on one of another name, is left to the
/// checks that follow.
pub open spec fn ip_verdict(source_ip: Seq<char>, list: Option<Seq<char>>) -> Option<DecisionView> {
    match list {
        Some(name) => if name == "black"@ {
            Some(refusal(DecisionReason::IpBlacklist, "source IP '"@ + source_ip + "' is blacklisted"@))
        } else if name == "white"@ {
            Some(
                acceptance(
                    DecisionReason::IpWhitelist,
                    "source IP '"@ + source_ip + "' is explicitly whitelisted"@,
                ),
            )
        } else {
            None
        },
        None => None,
    }
}

/// The name of the list that an entry is on.
pub open spec fn entry_list(entry: Option<&IpAccessEntry>) -> Option<Seq<char>> {
    match entry {
        Some(e) => Some(e.list_type@),
        None => None,
    }
}

/// Whether an expression finds a match in one of some texts.
pub open spec fn matches_any(found: Set<Seq<char>>, list: Seq<Seq<char>>) -> bool {
    exists|i: int| 0 <= i < list.len() && found.contains(#[trigger] list[i])
}

/// Whether an expression finds a match in one of some texts.
fn any_match(rule: &CompiledRule, list: &Vec<String>) -> (b: bool)
    ensures
        b == matches_any(matched_texts(rule.regex), texts(list@)),
{
    let mut i: usize = 0;
    while i < list.len()
        invariant
            i <= list@.len(),
            forall|j: int| 0 <= j < i ==> !matched_texts(rule.regex).contains(#[trigger] texts(list@)[j]),
        decreases list@.len() - i,
    {
        if rule.regex.is_match(list[i].as_str()) {
            proof {
                assert(matched_texts(rule.regex).contains(texts(list@)[i as int]));
            }
            return true;
        }
        i += 1;
    }
    false
}

/// Where in the headers an expression finds its first match. Only some headers
/// are looked at; in each the name comes before the forms of the value.
pub open spec fn header_component(
    found: Set<Seq<char>>,
    headers: Seq<(Seq<char>, Seq<Seq<char>>)>,
) -> Option<Seq<char>>
    decreases headers.len(),
{
    if headers.len() == 0 {
        None
    } else if inspected_header(headers[0].0) && found.contains(headers[0].0) {
        Some("header-name"@)
    } else if inspected_header(headers[0].0) && matches_any(found, headers[0].1) {
        Some("header-value"@)
    } else {
        header_component(found, headers.drop_first())
    }
}

/// Where in a request an expression finds its first match: in the path, the
/// query, the headers or the body, looked at in this order.
pub open spec fn matched_component(found: Set<Seq<char>>, request: NormalizedView) -> Option<Seq<char>> {
    if found.contains(request.path) {
        Some("path"@)
    } else if request.query matches Some(q) && found.contains(q) {
        Some("query"@)
    } else if header_component(found, request.headers) is Some {
        header_component(found, request.headers)
    } else if matches_any(found, request.body) {
        Some("body"@)
    } else {
        None
    }
}

/// Where in a request a rule finds its first match.
pub fn match_rule_against_request(rule: &CompiledRule, request: &NormalizedRequest) -> (component: Option<&'static str>)
    ensures
        match component {
            Some(name) => matched_component(matched_texts(rule.regex), request@) == Some(name@),
            None => matched_component(matched_texts(rule.regex), request@) is None,
        },
{
    if rule.regex.is_match(request.path.as_str()) {
        return Some("path");
    }
    if let Some(query) = &request.query {
        if rule.regex.is_match(query.as_str()) {
            return Some("query");
        }
    }
    let ghost found = matched_texts(rule.regex);
    let ghost all = request@.headers;
    let mut i: usize = 0;
    proof {
        assert(all.skip(0) =~= all);
    }
    while i < request.headers.len()
        invariant
            i <= request.headers@.len(),
            found == matched_texts(rule.regex),
            all == request@.headers,
            header_component(found, all) == header_component(found, all.skip(i as int)),
            matched_component(found, request@) == (if header_component(found, all) is Some {
                header_component(found, all)
            } else if matches_any(found, request@.body) {
                Some("body"@)
            } else {
                None
            }),
        decreases request.headers@.len() - i,
    {
        let name = request.headers.key_at(i);
        let values = request.headers.value_at(i);
        proof {
            assert(all.skip(i as int)[0] == (name@, texts(values@)));
            assert(all.skip(i as int).drop_first() =~= all.skip(i + 1));
        }
        if should_inspect_header_for_signatures(name) {
            if rule.regex.is_match(name) {
                return Some("header-name");
            }
            if any_match(rule, values) {
                return Some("header-value");
            }
        }
        i += 1;
    }
    if any_match(rule, &request.body) {
        return Some("body");
    }
    None
}

/// The decision to block because a rule matched.
pub open spec fn rule_refusal(rule: CompiledRule, component: Seq<char>) -> DecisionView {
    DecisionView {
        action: DecisionAction::Block,
        reason: DecisionReason::SignatureMatch,
        matched_rule_id: Some(rule.id@),
        message: "request matched signature '"@ + rule.id@ + ": "@ + rule.name@ + "' in "@ + component,
    }
}

/// The decision to block because a rule matched.
pub fn signature_decision(rule: &CompiledRule, component: &str) -> (decision: AnalysisDecision)
    ensures
        decision@ == rule_refusal(*rule, component@),
{
    let mut message = phrase("request matched signature '", rule.id.as_str(), ": ", rule.name.as_str(), "' in ");
    message.append(component);
    AnalysisDecision {
        action: DecisionAction::Block,
        reason: DecisionReason::SignatureMatch,
        matched_rule_id: Some(rule.id.clone()),
        message,
    }
}

/// What the rules say about a request: the first one that matches decides.
pub open spec fn signature_verdict(rules: Seq<CompiledRule>, request: NormalizedView) -> Option<DecisionView>
    decreases rules.len(),
{
    if rules.len() == 0 {
        None
    } else {
        match matched_component(matched_texts(rules[0].regex), request) {
            Some(component) => Some(rule_refusal(rules[0], component)),
            None => signature_verdict(rules.drop_first(), request),
        }
    }
}

/// A decision to block, made one to record if the firewall is passive.
pub open spec fn in_mode(decision: DecisionView, mode: WafMode) -> DecisionView {
    if decision.action is Block && mode is Passive {
        DecisionView { action: DecisionAction::Log, message: "passive mode: "@ + decision.message, ..decision }
    } else {
        decision
    }
}

/// What is decided on a request. A firewall that is switched off lets
/// everything pass. Else the access lists come first, whatever the mode; then
/// the policies, then the rules, both subject to the mode.
pub open spec fn verdict(state: SharedState, list: Option<Seq<char>>, request: RequestView) -> DecisionView {
    if !state.config.is_enabled {
        acceptance(DecisionReason::WafDisabled, "WAF is disabled; request allowed"@)
    } else if let Some(decision) = ip_verdict(request.source_ip, list) {
        decision
    } else if let Some(decision) = policy_verdict(state.security_policies, request) {
        in_mode(decision, state.config.mode)
    } else if let Some(decision) = signature_verdict(state.compiled_rules@, request_form(request)) {
        in_mode(decision, state.config.mode)
    } else {
        acceptance(DecisionReason::Passed, "request passed all analyzer stages"@)
    }
}

/// Decides on requests by what the shared state says.
#[derive(Debug, Clone)]
pub struct Analyzer {
    pub state: SharedState,
}

impl Analyzer {
    /// An analyzer that decides by this state.
    pub fn new(state: SharedState) -> (analyzer: Analyzer)
        ensures
            analyzer.state == state,
    {
        Analyzer { state }
    }

    /// Whether the entry of the access lists for a request's address is needed
    /// to decide on the request.
    pub fn needs_ip_access_entry(&self) -> (b: bool)
        ensures
            b == self.state.config.is_enabled,
    {
        self.state.config.is_enabled
    }

    /// Decides on a request, given the entry of the access lists for its
    /// address.
    pub fn analyze(&self, request: &AnalysisRequest, entry: Option<&IpAccessEntry>) -> (decision: AnalysisDecision)
        ensures
            decision@ == verdict(self.state, entry_list(entry), request@),
    {
        if !self.state.config.is_enabled {
            return AnalysisDecision {
                action: DecisionAction::Allow,
                reason: DecisionReason::WafDisabled,
                matched_rule_id: None,
                message: "WAF is disabled; request allowed".to_string(),
            };
        }
        if let Some(decision) = self.check_ip_access(request, entry) {
            return decision;
        }
        if let Some(decision) = self.check_security_policies(request) {
            return self.apply_mode(decision, &self.state.config.mode);
        }
        if let Some(decision) = self.check_signatures(request) {
            return self.apply_mode(decision, &self.state.config.mode);
        }
        AnalysisDecision {
            action: DecisionAction::Allow,
            reason: DecisionReason::Passed,
            matched_rule_id: None,
            message: "request passed all analyzer stages".to_string(),
        }
    }

    /// What the access lists say about a request.
    pub fn check_ip_access(&self, request: &AnalysisRequest, entry: Option<&IpAccessEntry>) -> (decision: Option<
        AnalysisDecision,
    >)
        ensures
            decision_view(decision) == ip_verdict(request.source_ip@, entry_list(entry)),
    {
        if let Some(entry) = entry {
            let list = entry.list_type.as_str();
            let ip = request.source_ip.as_str();
            if same_text(list, "black") {
                let mut message = "source IP '".to_string();
                message.append(ip);
                message.append("' is blacklisted");
                return Some(
                    AnalysisDecision {
                        action: DecisionAction::Block,
                        reason: DecisionReason::IpBlacklist,
                        matched_rule_id: None,
                        message,
                    },
                );
            }
            if same_text(list, "white") {
                let mut message = "source IP '".to_string();
                message.append(ip);
                message.append("' is explicitly whitelisted");
                return Some(
                    AnalysisDecision {
                        action: DecisionAction::Allow,
                        reason: DecisionReason::IpWhitelist,
                        matched_rule_id: None,
                        message,
                    },
                );
            }
        }
        None
    }

    /// What the policies say about a request.
    pub fn check_security_policies(&self, request: &AnalysisRequest) -> (decision: Option<AnalysisDecision>)
        ensures
            decision_view(decision) == policy_verdict(self.state.security_policies, request@),
    {
        check_policies(&self.state.security_policies, request)
    }

    /// What the rules say about a request.
    pub fn check_signatures(&self, request: &AnalysisRequest) -> (decision: Option<AnalysisDecision>)
        ensures
            decision_view(decision) == signature_verdict(self.state.compiled_rules@, request_form(request@)),
    {
        let normalized = normalize_request(request);
        let rules = &self.state.compiled_rules;
        let mut i: usize = 0;
        proof {
            assert(rules@.skip(0) =~= rules@);
        }
        while i < rules.len()
            invariant
                i <= rules@.len(),
                signature_verdict(rules@, normalized@) == signature_verdict(rules@.skip(i as int), normalized@),
                normalized@ == request_form(request@),
                rules == &self.state.compiled_rules,
            decreases rules@.len() - i,
        {
            let rule = &rules[i];
            proof {
                assert(rules@.skip(i as int)[0] == *rule);
                assert(rules@.skip(i as int).drop_first() =~= rules@.skip(i + 1));
            }
            if let Some(component) = match_rule_against_request(rule, &normalized) {
                return Some(signature_decision(rule, component));
            }
            i += 1;
        }
        None
    }

    /// A decision to block, made one to record if the mode is passive.
    pub fn apply_mode(&self, decision: AnalysisDecision, mode: &WafMode) -> (applied: AnalysisDecision)
        ensures
            applied@ == in_mode(decision@, *mode),
    {
        if decision.action != DecisionAction::Block {
            return decision;
        }
        match mode {
            WafMode::Active => decision,
            WafMode::Passive => {
                let mut message = "passive mode: ".to_string();
                message.append(decision.message.as_str());
                AnalysisDecision {
                    action: DecisionAction::Log,
                    reason: decision.reason,
                    matched_rule_id: decision.matched_rule_id,
                    message,
                }
            },
        }
    }
}

/// A firewall that is switched off lets every request pass, whatever list its
/// address is on.
pub proof fn disabled_allows_everything(state: SharedState, list: Option<Seq<char>>, request: RequestView)
    requires
        !state.config.is_enabled,
    ensures
        verdict(state, list, request).action is Allow,
        verdict(state, list, request).reason is WafDisabled,
{
}

/// A request from an address on the white list passes, whatever the policies and
/// rules say, and one from an address on the black list is blocked, whatever
/// the mode.
pub proof fn access_lists_decide_first(state: SharedState, list: AccessListType, request: RequestView)
    requires
        state.config.is_enabled,
    ensures
        list is White ==> verdict(state, Some(list_name(list)), request).action is Allow && verdict(
            state,
            Some(list_name(list)),
            request,
        ).reason is IpWhitelist,
        list is Black ==> verdict(state, Some(list_name(list)), request).action is Block && verdict(
            state,
            Some(list_name(list)),
            request,
        ).reason is IpBlacklist,
{
    reveal_strlit("white");
    reveal_strlit("black");
    assert("white"@[0] != "black"@[0]);
}

/// A state with another mode.
pub open spec fn with_mode(state: SharedState, mode: WafMode) -> SharedState {
    SharedState { config: crate::models::Config { mode, ..state.config }, ..state }
}

/// In passive mode a request is treated as in active mode, except that what the
/// policies or the rules would block is recorded and let through. Only the
/// black list still blocks.
pub proof fn passive_records_what_active_blocks(state: SharedState, list: Option<Seq<char>>, request: RequestView)
    ensures
        ({
            let active = verdict(with_mode(state, WafMode::Active), list, request);
            let passive = verdict(with_mode(state, WafMode::Passive), list, request);
            &&& passive == (if active.reason is IpBlacklist {
                active
            } else {
                in_mode(active, WafMode::Passive)
            })
            &&& passive.action is Block ==> passive.reason is IpBlacklist
            &&& !(active.action is Log)
        }),
{
    rules_only_block(state.compiled_rules@, request_form(request));
}

/// What the rules say is to block, for the reason that a rule matched.
pub proof fn rules_only_block(rules: Seq<CompiledRule>, request: NormalizedView)
    ensures
        signature_verdict(rules, request) matches Some(d) ==> d.action is Block && d.reason is SignatureMatch,
    decreases rules.len(),
{
    if rules.len() > 0 {
        rules_only_block(rules.drop_first(), request);
    }
}

/// The rules say something about a request exactly if one of them matches it.
pub proof fn rules_speak_if_one_matches(rules: Seq<CompiledRule>, request: NormalizedView)
    ensures
        signature_verdict(rules, request) is Some <==> exists|i: int|
            0 <= i < rules.len() && matched_component(matched_texts((#[trigger] rules[i]).regex), request) is Some,
    decreases rules.len(),
{
    if rules.len() > 0 {
        let rest = rules.drop_first();
        rules_speak_if_one_matches(rest, request);
        if signature_verdict(rest, request) is Some {
            let i = choose|i: int|
                0 <= i < rest.len() && matched_component(matched_texts((#[trigger] rest[i]).regex), request) is Some;
            assert(rules[i + 1] == rest[i]);
        }
        if exists|i: int|
            0 <= i < rules.len() && matched_component(matched_texts((#[trigger] rules[i]).regex), request) is Some {
            let i = choose|i: int|
                0 <= i < rules.len() && matched_component(matched_texts((#[trigger] rules[i]).regex), request) is Some;
            if i > 0 {
                assert(rest[i - 1] == rules[i]);
            }
        }
    }
}

/// A request that a rule matches is passed by no enabled firewall, unless its
/// address is on the white list.
pub proof fn matched_request_never_passes(
    state: SharedState,
    list: Option<Seq<char>>,
    request: RequestView,
    at: int,
)
    requires
        state.config.is_enabled,
        list != Some("white"@),
        0 <= at < state.compiled_rules@.len(),
        matched_component(matched_texts(state.compiled_rules@[at].regex), request_form(request)) is Some,
    ensures
        !(verdict(state, list, request).action is Allow),
{
    rules_speak_if_one_matches(state.compiled_rules@, request_form(request));
    rules_only_block(state.compiled_rules@, request_form(request));
}

/// A request passes all stages exactly if the firewall is on, its address is on
/// neither list, and neither the policies nor the rules object.
pub proof fn passed_means_no_objection(state: SharedState, list: Option<Seq<char>>, request: RequestView)
    ensures
        verdict(state, list, request).reason is Passed <==> (state.config.is_enabled && list != Some("white"@) && list
            != Some("black"@) && policy_verdict(state.security_policies, request) is None && signature_verdict(
            state.compiled_rules@,
            request_form(request),
        ) is None),
{
    rules_only_block(state.compiled_rules@, request_form(request));
}

/// A request that a rule matches is blocked in active mode, if the policies did
/// not block it already, and recorded in passive mode. Its address must be on
/// neither list.
pub proof fn matched_request_is_stopped_or_recorded(
    state: SharedState,
    list: Option<Seq<char>>,
    request: RequestView,
    at: int,
)
    requires
        state.config.is_enabled,
        list != Some("white"@),
        list != Some("black"@),
        0 <= at < state.compiled_rules@.len(),
        matched_component(matched_texts(state.compiled_rules@[at].regex), request_form(request)) is Some,
    ensures
        state.config.mode is Active ==> verdict(state, list, request).action is Block,
        state.config.mode is Passive ==> verdict(state, list, request).action is Log,
{
    rules_speak_if_one_matches(state.compiled_rules@, request_form(request));
    rules_only_block(state.compiled_rules@, request_form(request));
}

/// What rules say about a request depends on their expressions, ids and names
/// alone, however they were compiled.
pub proof fn rules_decide_however_compiled(
    rules: Seq<Rule>,
    a: Seq<CompiledRule>,
    b: Seq<CompiledRule>,
    request: NormalizedView,
)
    requires
        all_compiled_as(rules, a),
        all_compiled_as(rules, b),
    ensures
        signature_verdict(a, request) == signature_verdict(b, request),
    decreases rules.len(),
{
    if rules.len() > 0 {
        assert(compiled_as(rules[0], a[0]));
        assert(compiled_as(rules[0], b[0]));
        assert forall|i: int| 0 <= i < rules.drop_first().len() implies compiled_as(
            #[trigger] rules.drop_first()[i],
            a.drop_first()[i],
        ) && compiled_as(rules.drop_first()[i], b.drop_first()[i]) by {
            assert(compiled_as(rules[i + 1], a[i + 1]));
        }
        rules_decide_however_compiled(rules.drop_first(), a.drop_first(), b.drop_first(), request);
    }
}

} // verus!
