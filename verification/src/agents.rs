//! Listing running agents: their status as seen by the registry, corrected
//! by whether their process still exists.
use vstd::prelude::*;
use vstd::string::*;

verus! {

/// What the registry records of an agent.
#[derive(Debug, Clone, Copy, PartialEq, Eq, Structural)]
pub enum AgentStatus {
    Starting,
    Working,
    Idle,
    Stopping,
    Done,
    Failed,
    Dead,
}

/// An agent as the listing sees it: the registry's status, whether the
/// registry counts it alive, and whether its process exists.
#[derive(Debug, Clone, Copy, PartialEq, Eq, Structural)]
pub struct AgentLiveness {
    pub status: AgentStatus,
    pub registry_alive: bool,
    pub process_alive: bool,
}

/// Which agents to list.
#[derive(Debug, Clone, Copy, PartialEq, Eq, Structural)]
pub enum AgentFilter {
    Alive,
    Dead,
    Working,
    Idle,
}

/// How many agents are in each state.
#[derive(Debug, Clone, Copy, PartialEq, Eq, Structural)]
pub struct AgentSummary {
    pub total: usize,
    pub alive: usize,
    pub working: usize,
    pub idle: usize,
    pub dead: usize,
}

/// The registry's word for a status.
pub open spec fn status_word(s: AgentStatus) -> Seq<char> {
    match s {
        AgentStatus::Starting => "starting"@,
        AgentStatus::Working => "working"@,
        AgentStatus::Idle => "idle"@,
        AgentStatus::Stopping => "stopping"@,
        AgentStatus::Done => "done"@,
        AgentStatus::Failed => "failed"@,
        AgentStatus::Dead => "dead"@,
    }
}

/// Alive in the registry and its process runs.
pub open spec fn effectively_alive(a: AgentLiveness) -> bool {
    a.registry_alive && a.process_alive
}

/// Dead in the registry, or alive there while its process has exited.
pub open spec fn effectively_dead(a: AgentLiveness) -> bool {
    a.status == AgentStatus::Dead || (a.registry_alive && !a.process_alive)
}

/// The status shown: `dead (process exited)` when the registry thinks the
/// agent alive but its process is gone, else the registry's word.
pub open spec fn shown_status(a: AgentLiveness) -> Seq<char> {
    if a.registry_alive && !a.process_alive {
        "dead (process exited)"@
    } else {
        status_word(a.status)
    }
}

/// Whether an agent passes a filter.
pub open spec fn passes(filter: Option<AgentFilter>, a: AgentLiveness) -> bool {
    match filter {
        Some(AgentFilter::Alive) => effectively_alive(a),
        Some(AgentFilter::Dead) => effectively_dead(a),
        Some(AgentFilter::Working) => a.status == AgentStatus::Working && a.process_alive,
        Some(AgentFilter::Idle) => a.status == AgentStatus::Idle && a.process_alive,
        None => true,
    }
}

/// The status to show for an agent.
pub fn effective_status(a: &AgentLiveness) -> (r: String)
    ensures
        r@ == shown_status(*a),
{
    if a.registry_alive && !a.process_alive {
        "dead (process exited)".to_string()
    } else {
        match a.status {
            AgentStatus::Starting => "starting".to_string(),
            AgentStatus::Working => "working".to_string(),
            AgentStatus::Idle => "idle".to_string(),
            AgentStatus::Stopping => "stopping".to_string(),
            AgentStatus::Done => "done".to_string(),
            AgentStatus::Failed => "failed".to_string(),
            AgentStatus::Dead => "dead".to_string(),
        }
    }
}

/// Whether an agent is alive in the registry with its process running.
pub fn is_effectively_alive(a: &AgentLiveness) -> (r: bool)
    ensures
        r == effectively_alive(*a),
{
    a.registry_alive && a.process_alive
}

/// Whether an agent is dead in the registry or its process has exited.
pub fn is_effectively_dead(a: &AgentLiveness) -> (r: bool)
    ensures
        r == effectively_dead(*a),
{
    a.status == AgentStatus::Dead || (a.registry_alive && !a.process_alive)
}

/// Whether an agent passes a filter.
pub fn matches_filter(filter: Option<AgentFilter>, a: &AgentLiveness) -> (r: bool)
    ensures
        r == passes(filter, *a),
{
    match filter {
        Some(AgentFilter::Alive) => a.registry_alive && a.process_alive,
        Some(AgentFilter::Dead) => a.status == AgentStatus::Dead || (a.registry_alive && !a.process_alive),
        Some(AgentFilter::Working) => a.status == AgentStatus::Working && a.process_alive,
        Some(AgentFilter::Idle) => a.status == AgentStatus::Idle && a.process_alive,
        None => true,
    }
}

/// The positions of the agents that pass a filter, in order.
pub fn filter_agents(agents: &Vec<AgentLiveness>, filter: Option<AgentFilter>) -> (r: Vec<usize>)
    ensures
        forall|k: int| 0 <= k < r@.len() ==> #[trigger] r@[k] < agents@.len() && passes(filter, agents@[r@[k] as int]),
        forall|k: int, j: int| 0 <= k < j < r@.len() ==> r@[k] < r@[j],
        forall|i: int| 0 <= i < agents@.len() && passes(filter, #[trigger] agents@[i]) ==> r@.contains(i as usize),
{
    let mut out: Vec<usize> = Vec::new();
    let mut i: usize = 0;
    while i < agents.len()
        invariant
            i <= agents@.len(),
            forall|k: int| 0 <= k < out@.len() ==> #[trigger] out@[k] < i && passes(filter, agents@[out@[k] as int]),
            forall|k: int, j: int| 0 <= k < j < out@.len() ==> out@[k] < out@[j],
            forall|m: int| 0 <= m < i && passes(filter, #[trigger] agents@[m]) ==> out@.contains(m as usize),
        decreases agents@.len() - i,
    {
        if matches_filter(filter, &agents[i]) {
            let ghost before = out@;
            out.push(i);
            assert forall|m: int| 0 <= m < i + 1 && passes(filter, #[trigger] agents@[m]) implies out@.contains(m as usize) by {
                if m < i {
                    let k = choose|k: int| 0 <= k < before.len() && before[k] == m as usize;
                    assert(out@[k] == m as usize);
                } else {
                    assert(out@[out@.len() - 1] == i);
                }
            }
        }
        i = i + 1;
    }
    out
}

/// How many agents satisfy `p`.
pub open spec fn count_where(agents: Seq<AgentLiveness>, p: spec_fn(AgentLiveness) -> bool) -> nat
    decreases agents.len(),
{
    if agents.len() == 0 {
        0
    } else {
        count_where(agents.drop_last(), p) + if p(agents.last()) {
            1nat
        } else {
            0nat
        }
    }
}

/// Count the agents: all, alive, working, idle and dead (by their effective status).
pub fn summarize(agents: &Vec<AgentLiveness>) -> (r: AgentSummary)
    ensures
        r.total == agents@.len(),
        r.alive == count_where(agents@, |a: AgentLiveness| passes(Some(AgentFilter::Alive), a)),
        r.working == count_where(agents@, |a: AgentLiveness| passes(Some(AgentFilter::Working), a)),
        r.idle == count_where(agents@, |a: AgentLiveness| passes(Some(AgentFilter::Idle), a)),
        r.dead == count_where(agents@, |a: AgentLiveness| passes(Some(AgentFilter::Dead), a)),
{
    let mut alive: usize = 0;
    let mut working: usize = 0;
    let mut idle: usize = 0;
    let mut dead: usize = 0;
    let mut i: usize = 0;
    while i < agents.len()
        invariant
            i <= agents@.len(),
            alive == count_where(agents@.take(i as int), |a: AgentLiveness| passes(Some(AgentFilter::Alive), a)),
            working == count_where(agents@.take(i as int), |a: AgentLiveness| passes(Some(AgentFilter::Working), a)),
            idle == count_where(agents@.take(i as int), |a: AgentLiveness| passes(Some(AgentFilter::Idle), a)),
            dead == count_where(agents@.take(i as int), |a: AgentLiveness| passes(Some(AgentFilter::Dead), a)),
            alive <= i,
            working <= i,
            idle <= i,
            dead <= i,
        decreases agents@.len() - i,
    {
        let a = &agents[i];
        assert(agents@.take(i + 1).drop_last() =~= agents@.take(i as int));
        assert(agents@.take(i + 1).last() == *a);
        if matches_filter(Some(AgentFilter::Alive), a) {
            alive = alive + 1;
        }
        if matches_filter(Some(AgentFilter::Working), a) {
            working = working + 1;
        }
        if matches_filter(Some(AgentFilter::Idle), a) {
            idle = idle + 1;
        }
        if matches_filter(Some(AgentFilter::Dead), a) {
            dead = dead + 1;
        }
        i = i + 1;
    }
    assert(agents@.take(agents@.len() as int) =~= agents@);
    AgentSummary { total: agents.len(), alive, working, idle, dead }
}

/// The registry never counts a dead agent as alive.
pub open spec fn consistent(a: AgentLiveness) -> bool {
    a.registry_alive ==> a.status != AgentStatus::Dead
}

/// No agent is both effectively alive and effectively dead, so the alive and
/// dead counts of a summary never exceed the total.
pub proof fn law_alive_and_dead_disjoint(agents: Seq<AgentLiveness>)
    requires
        forall|i: int| 0 <= i < agents.len() ==> consistent(#[trigger] agents[i]),
    ensures
        count_where(agents, |a: AgentLiveness| passes(Some(AgentFilter::Alive), a)) + count_where(
            agents,
            |a: AgentLiveness| passes(Some(AgentFilter::Dead), a),
        ) <= agents.len(),
    decreases agents.len(),
{
    if agents.len() > 0 {
        let rest = agents.drop_last();
        assert forall|i: int| 0 <= i < rest.len() implies consistent(#[trigger] rest[i]) by {
            assert(rest[i] == agents[i]);
        }
        law_alive_and_dead_disjoint(rest);
        assert(consistent(agents[agents.len() - 1]));
    }
}

} // verus!
