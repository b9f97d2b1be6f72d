//! Configuration: the settings that `wg config` changes, and how secrets
//! are shown.
use vstd::prelude::*;
use vstd::string::*;
use crate::fmt::{decimal, push_u64};
use crate::graph::strs;

verus! {

/// How a secret is shown: tokens of at most 12 characters are fully hidden,
/// longer ones keep their first and last four characters.
pub open spec fn masked(token: Seq<char>) -> Seq<char> {
    if token.len() <= 12 {
        "********"@
    } else {
        token.subrange(0, 4) + "..."@ + token.subrange(token.len() - 4, token.len() as int)
    }
}

/// Mask a secret token for display. Works on characters, not bytes.
pub fn mask_token(token: &str) -> (r: String)
    ensures
        r@ == masked(token@),
{
    let n = token.unicode_len();
    if n <= 12 {
        "********".to_string()
    } else {
        let mut out = token.substring_char(0, 4).to_string();
        out.append("...");
        out.append(token.substring_char(n - 4, n));
        out
    }
}


/// The agent section of the configuration.
#[derive(Debug, Clone)]
pub struct AgentSettings {
    pub executor: String,
    pub model: String,
    pub interval: u64,
}

/// The coordinator section of the configuration.
#[derive(Debug, Clone)]
pub struct CoordinatorSettings {
    pub max_agents: usize,
    pub interval: u64,
    pub poll_interval: u64,
    pub executor: String,
}

/// The identity section of the configuration.
#[derive(Debug, Clone)]
pub struct IdentitySettings {
    pub auto_reward: bool,
    pub auto_assign: bool,
    pub assigner_model: Option<String>,
    pub evaluator_model: Option<String>,
    pub evolver_model: Option<String>,
    pub assigner_agent: Option<String>,
    pub evaluator_agent: Option<String>,
    pub evolver_agent: Option<String>,
    pub retention_heuristics: Option<String>,
    pub auto_triage: bool,
    pub triage_model: Option<String>,
    pub triage_timeout: Option<u64>,
    pub triage_max_log_bytes: Option<usize>,
}

/// The settings `wg config` changes.
#[derive(Debug, Clone)]
pub struct Config {
    pub agent: AgentSettings,
    pub coordinator: CoordinatorSettings,
    pub identity: IdentitySettings,
}

/// The values to set; `None` leaves a setting as it is.
#[derive(Debug, Clone)]
pub struct ConfigUpdate {
    pub executor: Option<String>,
    pub model: Option<String>,
    pub interval: Option<u64>,
    pub max_agents: Option<usize>,
    pub coordinator_interval: Option<u64>,
    pub poll_interval: Option<u64>,
    pub coordinator_executor: Option<String>,
    pub auto_reward: Option<bool>,
    pub auto_assign: Option<bool>,
    pub assigner_model: Option<String>,
    pub evaluator_model: Option<String>,
    pub evolver_model: Option<String>,
    pub assigner_agent: Option<String>,
    pub evaluator_agent: Option<String>,
    pub evolver_agent: Option<String>,
    pub retention_heuristics: Option<String>,
    pub auto_triage: Option<bool>,
    pub triage_model: Option<String>,
    pub triage_timeout: Option<u64>,
    pub triage_max_log_bytes: Option<usize>,
}

pub open spec fn opt_text(o: Option<String>) -> Option<Seq<char>> {
    match o {
        Some(s) => Some(s@),
        None => None,
    }
}

/// The line reporting a text setting, when it is set.
pub open spec fn text_line(key: Seq<char>, o: Option<String>) -> Seq<Seq<char>> {
    match o {
        Some(v) => seq!["Set "@ + key + " = \""@ + v@ + "\""@],
        None => Seq::empty(),
    }
}

/// The line reporting a number setting, when it is set.
pub open spec fn number_line(key: Seq<char>, o: Option<nat>) -> Seq<Seq<char>> {
    match o {
        Some(v) => seq!["Set "@ + key + " = "@ + decimal(v)],
        None => Seq::empty(),
    }
}

/// The line reporting a yes/no setting, when it is set.
pub open spec fn flag_line(key: Seq<char>, o: Option<bool>) -> Seq<Seq<char>> {
    match o {
        Some(v) => seq!["Set "@ + key + " = "@ + if v { "true"@ } else { "false"@ }],
        None => Seq::empty(),
    }
}

pub open spec fn opt_nat_u64(o: Option<u64>) -> Option<nat> {
    match o {
        Some(v) => Some(v as nat),
        None => None,
    }
}

pub open spec fn opt_nat_usize(o: Option<usize>) -> Option<nat> {
    match o {
        Some(v) => Some(v as nat),
        None => None,
    }
}

/// Whether the update sets anything.
pub open spec fn sets_anything(u: ConfigUpdate) -> bool {
    u.executor is Some || u.model is Some || u.interval is Some || u.max_agents is Some || u.coordinator_interval is Some
        || u.poll_interval is Some || u.coordinator_executor is Some || u.auto_reward is Some || u.auto_assign is Some
        || u.assigner_model is Some || u.evaluator_model is Some || u.evolver_model is Some || u.assigner_agent is Some
        || u.evaluator_agent is Some || u.evolver_agent is Some || u.retention_heuristics is Some || u.auto_triage is Some
        || u.triage_model is Some || u.triage_timeout is Some || u.triage_max_log_bytes is Some
}

pub open spec fn agent_lines(u: ConfigUpdate) -> Seq<Seq<char>> {
    text_line("agent.executor"@, u.executor) + text_line("agent.model"@, u.model) + number_line(
        "agent.interval"@,
        opt_nat_u64(u.interval),
    )
}

pub open spec fn coordinator_lines(u: ConfigUpdate) -> Seq<Seq<char>> {
    number_line("coordinator.max_agents"@, opt_nat_usize(u.max_agents)) + number_line(
        "coordinator.interval"@,
        opt_nat_u64(u.coordinator_interval),
    ) + number_line("coordinator.poll_interval"@, opt_nat_u64(u.poll_interval)) + text_line(
        "coordinator.executor"@,
        u.coordinator_executor,
    )
}

pub open spec fn identity_model_lines(u: ConfigUpdate) -> Seq<Seq<char>> {
    flag_line("identity.auto_reward"@, u.auto_reward) + flag_line("identity.auto_assign"@, u.auto_assign)
        + text_line("identity.assigner_model"@, u.assigner_model) + text_line(
        "identity.evaluator_model"@,
        u.evaluator_model,
    ) + text_line("identity.evolver_model"@, u.evolver_model) + text_line(
        "identity.assigner_agent"@,
        u.assigner_agent,
    ) + text_line("identity.evaluator_agent"@, u.evaluator_agent)
}

pub open spec fn identity_other_lines(u: ConfigUpdate) -> Seq<Seq<char>> {
    text_line("identity.evolver_agent"@, u.evolver_agent) + text_line(
        "identity.retention_heuristics"@,
        u.retention_heuristics,
    ) + flag_line("identity.auto_triage"@, u.auto_triage) + text_line("identity.triage_model"@, u.triage_model)
        + number_line("identity.triage_timeout"@, opt_nat_u64(u.triage_timeout)) + number_line(
        "identity.triage_max_log_bytes"@,
        opt_nat_usize(u.triage_max_log_bytes),
    )
}

/// The lines `wg config` prints for an update, in order: one per setting
/// set, then whether the configuration is saved.
pub open spec fn update_lines(u: ConfigUpdate) -> Seq<Seq<char>> {
    agent_lines(u) + coordinator_lines(u) + identity_model_lines(u) + identity_other_lines(u) + seq![
        if sets_anything(u) {
            "Configuration saved."@
        } else {
            "No changes specified. Use --show to view current config."@
        },
    ]
}

fn push_line(lines: &mut Vec<String>, line: String)
    ensures
        strs(*final(lines)) == strs(*old(lines)).push(line@),
{
    let ghost before = strs(*lines);
    lines.push(line);
    assert(strs(*lines) =~= before.push(line@));
}

fn push_text_line(lines: &mut Vec<String>, key: &str, o: &Option<String>)
    ensures
        strs(*final(lines)) == strs(*old(lines)) + text_line(key@, *o),
{
    let ghost b = strs(*lines);
    match o {
        Some(v) => {
            let mut l = "Set ".to_string();
            l.append(key);
            l.append(" = \"");
            l.append(v.as_str());
            l.append("\"");
            push_line(lines, l);
        },
        None => {},
    }
    assert(strs(*lines) =~= b + text_line(key@, *o));
}

fn push_number_line(lines: &mut Vec<String>, key: &str, o: Option<u64>)
    ensures
        strs(*final(lines)) == strs(*old(lines)) + number_line(key@, opt_nat_u64(o)),
{
    let ghost b = strs(*lines);
    match o {
        Some(v) => {
            let mut l = "Set ".to_string();
            l.append(key);
            l.append(" = ");
            push_u64(&mut l, v);
            push_line(lines, l);
        },
        None => {},
    }
    assert(strs(*lines) =~= b + number_line(key@, opt_nat_u64(o)));
}

fn push_flag_line(lines: &mut Vec<String>, key: &str, o: Option<bool>)
    ensures
        strs(*final(lines)) == strs(*old(lines)) + flag_line(key@, o),
{
    let ghost b = strs(*lines);
    match o {
        Some(v) => {
            let mut l = "Set ".to_string();
            l.append(key);
            l.append(" = ");
            l.append(if v { "true" } else { "false" });
            push_line(lines, l);
        },
        None => {},
    }
    assert(strs(*lines) =~= b + flag_line(key@, o));
}

fn usize_opt(o: Option<usize>) -> (r: Option<u64>)
    ensures
        opt_nat_u64(r) == opt_nat_usize(o),
{
    match o {
        Some(v) => Some(v as u64),
        None => None,
    }
}

fn set_text(target: &mut String, o: &Option<String>)
    ensures
        final(target)@ == match o {
            Some(v) => v@,
            None => old(target)@,
        },
{
    match o {
        Some(v) => {
            *target = v.clone();
        },
        None => {},
    }
}

fn set_opt_text(target: &mut Option<String>, o: &Option<String>)
    ensures
        opt_text(*final(target)) == match o {
            Some(v) => Some(v@),
            None => opt_text(*old(target)),
        },
{
    match o {
        Some(v) => {
            *target = Some(v.clone());
        },
        None => {},
    }
}

fn update_agent(t: &mut AgentSettings, u: &ConfigUpdate, lines: &mut Vec<String>)
    ensures
        strs(*final(lines)) == strs(*old(lines)) + agent_lines(*u),
        final(t).executor@ == (match u.executor {
            Some(v) => v@,
            None => old(t).executor@,
        }),
        final(t).model@ == (match u.model {
            Some(v) => v@,
            None => old(t).model@,
        }),
        final(t).interval == (match u.interval {
            Some(v) => v,
            None => old(t).interval,
        }),
{
    let ghost b = strs(*lines);
    set_text(&mut t.executor, &u.executor);
    push_text_line(lines, "agent.executor", &u.executor);
    set_text(&mut t.model, &u.model);
    push_text_line(lines, "agent.model", &u.model);
    if let Some(v) = u.interval {
        t.interval = v;
    }
    push_number_line(lines, "agent.interval", u.interval);
    assert(strs(*lines) =~= b + agent_lines(*u));
}

fn update_coordinator(t: &mut CoordinatorSettings, u: &ConfigUpdate, lines: &mut Vec<String>)
    ensures
        strs(*final(lines)) == strs(*old(lines)) + coordinator_lines(*u),
        final(t).max_agents == (match u.max_agents {
            Some(v) => v,
            None => old(t).max_agents,
        }),
        final(t).interval == (match u.coordinator_interval {
            Some(v) => v,
            None => old(t).interval,
        }),
        final(t).poll_interval == (match u.poll_interval {
            Some(v) => v,
            None => old(t).poll_interval,
        }),
        final(t).executor@ == (match u.coordinator_executor {
            Some(v) => v@,
            None => old(t).executor@,
        }),
{
    let ghost b = strs(*lines);
    if let Some(v) = u.max_agents {
        t.max_agents = v;
    }
    push_number_line(lines, "coordinator.max_agents", usize_opt(u.max_agents));
    if let Some(v) = u.coordinator_interval {
        t.interval = v;
    }
    push_number_line(lines, "coordinator.interval", u.coordinator_interval);
    if let Some(v) = u.poll_interval {
        t.poll_interval = v;
    }
    push_number_line(lines, "coordinator.poll_interval", u.poll_interval);
    set_text(&mut t.executor, &u.coordinator_executor);
    push_text_line(lines, "coordinator.executor", &u.coordinator_executor);
    assert(strs(*lines) =~= b + coordinator_lines(*u));
}

#[verifier::rlimit(60)]
fn update_identity_models(t: &mut IdentitySettings, u: &ConfigUpdate, lines: &mut Vec<String>)
    ensures
        strs(*final(lines)) == strs(*old(lines)) + identity_model_lines(*u),
        final(t).auto_reward == (match u.auto_reward {
            Some(v) => v,
            None => old(t).auto_reward,
        }),
        final(t).auto_assign == (match u.auto_assign {
            Some(v) => v,
            None => old(t).auto_assign,
        }),
        opt_text(final(t).assigner_model) == (match u.assigner_model {
            Some(v) => Some(v@),
            None => opt_text(old(t).assigner_model),
        }),
        opt_text(final(t).evaluator_model) == (match u.evaluator_model {
            Some(v) => Some(v@),
            None => opt_text(old(t).evaluator_model),
        }),
        opt_text(final(t).evolver_model) == (match u.evolver_model {
            Some(v) => Some(v@),
            None => opt_text(old(t).evolver_model),
        }),
        opt_text(final(t).assigner_agent) == (match u.assigner_agent {
            Some(v) => Some(v@),
            None => opt_text(old(t).assigner_agent),
        }),
        opt_text(final(t).evaluator_agent) == (match u.evaluator_agent {
            Some(v) => Some(v@),
            None => opt_text(old(t).evaluator_agent),
        }),
        final(t).evolver_agent == old(t).evolver_agent,
        final(t).retention_heuristics == old(t).retention_heuristics,
        final(t).auto_triage == old(t).auto_triage,
        final(t).triage_model == old(t).triage_model,
        final(t).triage_timeout == old(t).triage_timeout,
        final(t).triage_max_log_bytes == old(t).triage_max_log_bytes,
{
    let ghost b = strs(*lines);
    if let Some(v) = u.auto_reward {
        t.auto_reward = v;
    }
    push_flag_line(lines, "identity.auto_reward", u.auto_reward);
    if let Some(v) = u.auto_assign {
        t.auto_assign = v;
    }
    push_flag_line(lines, "identity.auto_assign", u.auto_assign);
    let ghost b1 = strs(*lines);
    assert(b1 =~= b + flag_line("identity.auto_reward"@, u.auto_reward) + flag_line("identity.auto_assign"@, u.auto_assign));
    set_opt_text(&mut t.assigner_model, &u.assigner_model);
    push_text_line(lines, "identity.assigner_model", &u.assigner_model);
    set_opt_text(&mut t.evaluator_model, &u.evaluator_model);
    push_text_line(lines, "identity.evaluator_model", &u.evaluator_model);
    set_opt_text(&mut t.evolver_model, &u.evolver_model);
    push_text_line(lines, "identity.evolver_model", &u.evolver_model);
    let ghost b2 = strs(*lines);
    assert(b2 =~= b1 + text_line("identity.assigner_model"@, u.assigner_model) + text_line(
        "identity.evaluator_model"@,
        u.evaluator_model,
    ) + text_line("identity.evolver_model"@, u.evolver_model));
    set_opt_text(&mut t.assigner_agent, &u.assigner_agent);
    push_text_line(lines, "identity.assigner_agent", &u.assigner_agent);
    set_opt_text(&mut t.evaluator_agent, &u.evaluator_agent);
    push_text_line(lines, "identity.evaluator_agent", &u.evaluator_agent);
    assert(strs(*lines) =~= b + identity_model_lines(*u));
}

#[verifier::rlimit(60)]
fn update_identity_other(t: &mut IdentitySettings, u: &ConfigUpdate, lines: &mut Vec<String>)
    ensures
        strs(*final(lines)) == strs(*old(lines)) + identity_other_lines(*u),
        opt_text(final(t).evolver_agent) == (match u.evolver_agent {
            Some(v) => Some(v@),
            None => opt_text(old(t).evolver_agent),
        }),
        opt_text(final(t).retention_heuristics) == (match u.retention_heuristics {
            Some(v) => Some(v@),
            None => opt_text(old(t).retention_heuristics),
        }),
        final(t).auto_triage == (match u.auto_triage {
            Some(v) => v,
            None => old(t).auto_triage,
        }),
        opt_text(final(t).triage_model) == (match u.triage_model {
            Some(v) => Some(v@),
            None => opt_text(old(t).triage_model),
        }),
        final(t).triage_timeout == (match u.triage_timeout {
            Some(v) => Some(v),
            None => old(t).triage_timeout,
        }),
        final(t).triage_max_log_bytes == (match u.triage_max_log_bytes {
            Some(v) => Some(v),
            None => old(t).triage_max_log_bytes,
        }),
        final(t).auto_reward == old(t).auto_reward,
        final(t).auto_assign == old(t).auto_assign,
        final(t).assigner_model == old(t).assigner_model,
        final(t).evaluator_model == old(t).evaluator_model,
        final(t).evolver_model == old(t).evolver_model,
        final(t).assigner_agent == old(t).assigner_agent,
        final(t).evaluator_agent == old(t).evaluator_agent,
{
    let ghost b = strs(*lines);
    set_opt_text(&mut t.evolver_agent, &u.evolver_agent);
    push_text_line(lines, "identity.evolver_agent", &u.evolver_agent);
    set_opt_text(&mut t.retention_heuristics, &u.retention_heuristics);
    push_text_line(lines, "identity.retention_heuristics", &u.retention_heuristics);
    if let Some(v) = u.auto_triage {
        t.auto_triage = v;
    }
    push_flag_line(lines, "identity.auto_triage", u.auto_triage);
    set_opt_text(&mut t.triage_model, &u.triage_model);
    push_text_line(lines, "identity.triage_model", &u.triage_model);
    if let Some(v) = u.triage_timeout {
        t.triage_timeout = Some(v);
    }
    push_number_line(lines, "identity.triage_timeout", u.triage_timeout);
    if let Some(v) = u.triage_max_log_bytes {
        t.triage_max_log_bytes = Some(v);
    }
    push_number_line(lines, "identity.triage_max_log_bytes", usize_opt(u.triage_max_log_bytes));
    assert(strs(*lines) =~= b + identity_other_lines(*u));
}

/// Apply an update: each setting given takes the new value, every other
/// stays; returns the lines to print (the caller saves the configuration
/// when something was set, which the last line reports).
pub fn update(config: &mut Config, u: &ConfigUpdate) -> (lines: Vec<String>)
    ensures
        strs(lines) == update_lines(*u),
        final(config).agent.executor@ == (match u.executor {
            Some(v) => v@,
            None => old(config).agent.executor@,
        }),
        final(config).agent.model@ == (match u.model {
            Some(v) => v@,
            None => old(config).agent.model@,
        }),
        final(config).agent.interval == (match u.interval {
            Some(v) => v,
            None => old(config).agent.interval,
        }),
        final(config).coordinator.max_agents == (match u.max_agents {
            Some(v) => v,
            None => old(config).coordinator.max_agents,
        }),
        final(config).coordinator.interval == (match u.coordinator_interval {
            Some(v) => v,
            None => old(config).coordinator.interval,
        }),
        final(config).coordinator.poll_interval == (match u.poll_interval {
            Some(v) => v,
            None => old(config).coordinator.poll_interval,
        }),
        final(config).coordinator.executor@ == (match u.coordinator_executor {
            Some(v) => v@,
            None => old(config).coordinator.executor@,
        }),
        final(config).identity.auto_reward == (match u.auto_reward {
            Some(v) => v,
            None => old(config).identity.auto_reward,
        }),
        final(config).identity.auto_assign == (match u.auto_assign {
            Some(v) => v,
            None => old(config).identity.auto_assign,
        }),
        opt_text(final(config).identity.assigner_model) == (match u.assigner_model {
            Some(v) => Some(v@),
            None => opt_text(old(config).identity.assigner_model),
        }),
        opt_text(final(config).identity.evaluator_model) == (match u.evaluator_model {
            Some(v) => Some(v@),
            None => opt_text(old(config).identity.evaluator_model),
        }),
        opt_text(final(config).identity.evolver_model) == (match u.evolver_model {
            Some(v) => Some(v@),
            None => opt_text(old(config).identity.evolver_model),
        }),
        opt_text(final(config).identity.assigner_agent) == (match u.assigner_agent {
            Some(v) => Some(v@),
            None => opt_text(old(config).identity.assigner_agent),
        }),
        opt_text(final(config).identity.evaluator_agent) == (match u.evaluator_agent {
            Some(v) => Some(v@),
            None => opt_text(old(config).identity.evaluator_agent),
        }),
        opt_text(final(config).identity.evolver_agent) == (match u.evolver_agent {
            Some(v) => Some(v@),
            None => opt_text(old(config).identity.evolver_agent),
        }),
        opt_text(final(config).identity.retention_heuristics) == (match u.retention_heuristics {
            Some(v) => Some(v@),
            None => opt_text(old(config).identity.retention_heuristics),
        }),
        final(config).identity.auto_triage == (match u.auto_triage {
            Some(v) => v,
            None => old(config).identity.auto_triage,
        }),
        opt_text(final(config).identity.triage_model) == (match u.triage_model {
            Some(v) => Some(v@),
            None => opt_text(old(config).identity.triage_model),
        }),
        final(config).identity.triage_timeout == (match u.triage_timeout {
            Some(v) => Some(v),
            None => old(config).identity.triage_timeout,
        }),
        final(config).identity.triage_max_log_bytes == (match u.triage_max_log_bytes {
            Some(v) => Some(v),
            None => old(config).identity.triage_max_log_bytes,
        }),
{
    let mut lines: Vec<String> = Vec::new();
    let ghost l0 = strs(lines);
    update_agent(&mut config.agent, u, &mut lines);
    update_coordinator(&mut config.coordinator, u, &mut lines);
    update_identity_models(&mut config.identity, u, &mut lines);
    update_identity_other(&mut config.identity, u, &mut lines);
    let ghost l1 = strs(lines);
    let changed = u.executor.is_some() || u.model.is_some() || u.interval.is_some() || u.max_agents.is_some()
        || u.coordinator_interval.is_some() || u.poll_interval.is_some() || u.coordinator_executor.is_some()
        || u.auto_reward.is_some() || u.auto_assign.is_some() || u.assigner_model.is_some()
        || u.evaluator_model.is_some() || u.evolver_model.is_some() || u.assigner_agent.is_some()
        || u.evaluator_agent.is_some() || u.evolver_agent.is_some() || u.retention_heuristics.is_some()
        || u.auto_triage.is_some() || u.triage_model.is_some() || u.triage_timeout.is_some()
        || u.triage_max_log_bytes.is_some();
    if changed {
        push_line(&mut lines, "Configuration saved.".to_string());
    } else {
        push_line(&mut lines, "No changes specified. Use --show to view current config.".to_string());
    }
    assert(l0 =~= Seq::<Seq<char>>::empty());
    assert(strs(lines) =~= update_lines(*u));
    lines
}

} // verus!
