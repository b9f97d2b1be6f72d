//! Agents that stopped sending heartbeats: releasing the tasks they held.
use vstd::prelude::*;
use vstd::string::*;
use crate::graph::{LogEntry, LogEntryView, NodeView, Status, TaskView, WorkGraph, strs, task_index};
use crate::check::views;
use crate::ops::{locate_task, task_at, with_task};
use crate::fmt::{decimal, push_i64, push_u64, signed_decimal};

verus! {

/// An agent found dead, and the task it held.
#[derive(Debug, Clone)]
pub struct DeadAgentInfo {
    pub agent_id: String,
    pub task_id: String,
    pub pid: u32,
    pub last_heartbeat: String,
    pub seconds_since_heartbeat: i64,
}

pub ghost struct DeadAgentView {
    pub agent_id: Seq<char>,
    pub task_id: Seq<char>,
    pub pid: u32,
    pub last_heartbeat: Seq<char>,
    pub seconds_since_heartbeat: i64,
}

impl View for DeadAgentInfo {
    type V = DeadAgentView;

    open spec fn view(&self) -> DeadAgentView {
        DeadAgentView {
            agent_id: self.agent_id@,
            task_id: self.task_id@,
            pid: self.pid,
            last_heartbeat: self.last_heartbeat@,
            seconds_since_heartbeat: self.seconds_since_heartbeat,
        }
    }
}

/// What a cleanup found and did.
#[derive(Debug, Clone)]
pub struct DetectionResult {
    pub dead_agents: Vec<DeadAgentInfo>,
    pub tasks_unclaimed: Vec<String>,
    pub errors: Vec<String>,
}

/// The log line left on a task released from a dead agent.
pub open spec fn dead_message(d: DeadAgentView) -> Seq<char> {
    "Task unclaimed: agent '"@ + d.agent_id + "' (PID "@ + decimal(d.pid as nat) + ") detected as dead (no heartbeat for "@
        + signed_decimal(d.seconds_since_heartbeat as int) + " seconds)"@
}

/// The error for a dead agent whose task does not exist.
pub open spec fn missing_task_message(d: DeadAgentView) -> Seq<char> {
    "Task '"@ + d.task_id + "' not found for dead agent '"@ + d.agent_id + "'"@
}

/// A task released from a dead agent at `now`: open again, unassigned, its
/// start time kept, and logged without an actor.
pub open spec fn released(t: TaskView, d: DeadAgentView, now: Seq<char>) -> TaskView {
    TaskView {
        status: Status::Open,
        assigned: None,
        log: t.log.push(LogEntryView { timestamp: now, actor: None, message: dead_message(d) }),
        ..t
    }
}

/// One dead agent handled: its task released if still in progress, or an
/// error if the task does not exist.
pub open spec fn release_step(
    state: (Seq<NodeView>, Seq<Seq<char>>, Seq<Seq<char>>),
    d: DeadAgentView,
    now: Seq<char>,
) -> (Seq<NodeView>, Seq<Seq<char>>, Seq<Seq<char>>) {
    let (nodes, unclaimed, errors) = state;
    match task_index(nodes, d.task_id) {
        None => (nodes, unclaimed, errors.push(missing_task_message(d))),
        Some(i) => if task_at(nodes, i).status == Status::InProgress {
            (with_task(nodes, i, released(task_at(nodes, i), d, now)), unclaimed.push(d.task_id), errors)
        } else {
            (nodes, unclaimed, errors)
        },
    }
}

/// Every dead agent handled in order: the graph after, the released task
/// ids, and the errors.
pub open spec fn release_all(nodes: Seq<NodeView>, dead: Seq<DeadAgentView>, now: Seq<char>) -> (
    Seq<NodeView>,
    Seq<Seq<char>>,
    Seq<Seq<char>>,
)
    decreases dead.len(),
{
    if dead.len() == 0 {
        (nodes, Seq::empty(), Seq::empty())
    } else {
        release_step(release_all(nodes, dead.drop_last(), now), dead.last(), now)
    }
}

fn dead_text(d: &DeadAgentInfo) -> (r: String)
    ensures
        r@ == dead_message(d@),
{
    let mut m = "Task unclaimed: agent '".to_string();
    m.append(d.agent_id.as_str());
    m.append("' (PID ");
    push_u64(&mut m, d.pid as u64);
    m.append(") detected as dead (no heartbeat for ");
    push_i64(&mut m, d.seconds_since_heartbeat);
    m.append(" seconds)");
    m
}

fn missing_text(d: &DeadAgentInfo) -> (r: String)
    ensures
        r@ == missing_task_message(d@),
{
    let mut m = "Task '".to_string();
    m.append(d.task_id.as_str());
    m.append("' not found for dead agent '");
    m.append(d.agent_id.as_str());
    m.append("'");
    m
}

/// Release every task still in progress under a dead agent at time `now`,
/// in the order the agents are given; a missing task is reported as an
/// error. Returns the released task ids and the errors.
pub fn release_dead_agent_tasks(graph: &mut WorkGraph, dead: &Vec<DeadAgentInfo>, now: &str) -> (r: (Vec<String>, Vec<String>))
    ensures
        (final(graph)@, strs(r.0), strs(r.1)) == release_all(old(graph)@, views(dead@), now@),
{
    let ghost dv = views(dead@);
    let mut unclaimed: Vec<String> = Vec::new();
    let mut errors: Vec<String> = Vec::new();
    let mut k: usize = 0;
    assert(dv.take(0) =~= Seq::<DeadAgentView>::empty());
    assert(strs(unclaimed) =~= Seq::<Seq<char>>::empty());
    assert(strs(errors) =~= Seq::<Seq<char>>::empty());
    while k < dead.len()
        invariant
            k <= dead@.len(),
            dv == views(dead@),
            (graph@, strs(unclaimed), strs(errors)) == release_all(old(graph)@, dv.take(k as int), now@),
        decreases dead@.len() - k,
    {
        let d = &dead[k];
        assert(dv.take(k + 1).drop_last() =~= dv.take(k as int));
        assert(dv.take(k + 1).last() == d@);
        let ghost before_nodes = graph@;
        let ghost before_u = strs(unclaimed);
        let ghost before_e = strs(errors);
        match locate_task(graph, d.task_id.as_str()) {
            None => {
                errors.push(missing_text(d));
                assert(strs(errors) =~= before_e.push(missing_task_message(d@)));
            },
            Some(i) => {
                let in_progress = match &graph.nodes[i] {
                    crate::graph::Node::Task(t) => t.status == Status::InProgress,
                    crate::graph::Node::Resource(_) => false,
                };
                assert(graph@[i as int] == graph.nodes@[i as int]@);
                if in_progress {
                    let entry = LogEntry { timestamp: now.to_string(), actor: None, message: dead_text(d) };
                    crate::ops::release_task_at(graph, i, entry);
                    unclaimed.push(d.task_id.clone());
                    assert(strs(unclaimed) =~= before_u.push(d.task_id@));
                }
            },
        }
        assert((graph@, strs(unclaimed), strs(errors)) == release_all(old(graph)@, dv.take(k + 1), now@));
        k = k + 1;
    }
    assert(dv.take(dead@.len() as int) =~= dv);
    (unclaimed, errors)
}

/// Release the tasks of the given dead agents at `now` and report on it.
pub fn cleanup(graph: &mut WorkGraph, dead: Vec<DeadAgentInfo>, now: &str) -> (r: DetectionResult)
    ensures
        views(r.dead_agents@) == views(dead@),
        (final(graph)@, strs(r.tasks_unclaimed), strs(r.errors)) == release_all(old(graph)@, views(dead@), now@),
{
    let (tasks_unclaimed, errors) = release_dead_agent_tasks(graph, &dead, now);
    DetectionResult { dead_agents: dead, tasks_unclaimed, errors }
}

} // verus!
