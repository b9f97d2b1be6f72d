//! The coordinator's tick: how many agents may start, on which ready tasks,
//! and which running agents count as dead.
use vstd::prelude::*;
use vstd::string::*;
use crate::graph::{Node, NodeView, WorkGraph};
use crate::coordinate::{ready_tasks, ready_upto, status_count};
use crate::ops::task_at;
use crate::fmt::{decimal, push_i64, push_u64, signed_decimal};

verus! {

/// What a coordinator tick came to.
#[derive(Debug, Clone, Copy, PartialEq, Eq, Structural)]
pub struct TickResult {
    /// Agents alive after the tick.
    pub agents_alive: usize,
    /// Ready tasks found.
    pub tasks_ready: usize,
    /// Agents started in the tick.
    pub agents_spawned: usize,
}

/// What the coordinator should do in a tick.
#[derive(Debug, Clone)]
pub enum TickPlan {
    /// As many agents as allowed are running: wait.
    Saturated(TickResult),
    /// Nothing is ready; carries the result and how many tasks are done out of all.
    NothingReady(TickResult, usize, usize),
    /// Start agents on these tasks (graph positions), in order; carries the number of ready tasks.
    Spawn(Vec<usize>, usize),
}

/// The first `slots` ready tasks that nobody is assigned to.
pub open spec fn spawn_candidates(nodes: Seq<NodeView>, ready: Seq<int>, slots: nat) -> Seq<int>
    decreases ready.len(),
{
    if ready.len() == 0 {
        Seq::empty()
    } else {
        let rest = spawn_candidates(nodes, ready.drop_last(), slots);
        if ready.len() <= slots && task_at(nodes, ready.last()).assigned is None {
            rest.push(ready.last())
        } else {
            rest
        }
    }
}

/// Whether the task at graph position `i` has nobody assigned.
pub open spec fn unassigned_at(nodes: Seq<NodeView>) -> spec_fn(int) -> bool {
    |i: int| task_at(nodes, i).assigned is None
}

/// Agents start on exactly the unassigned tasks among the first `slots` ready
/// ones, in ready order: never more than `slots`, never past the first
/// `slots` ready tasks, and none left out among them.
pub proof fn law_spawn_within_slots(nodes: Seq<NodeView>, ready: Seq<int>, slots: nat)
    ensures
        ({
            let c = spawn_candidates(nodes, ready, slots);
            let m: int = if slots < ready.len() { slots as int } else { ready.len() as int };
            &&& c == ready.take(m).filter(unassigned_at(nodes))
            &&& c.len() <= slots
            &&& forall|j: int| 0 <= j < c.len() ==> ready.take(m).contains(#[trigger] c[j])
                && task_at(nodes, c[j]).assigned is None
            &&& forall|i: int| 0 <= i < m && task_at(nodes, ready[i]).assigned is None
                ==> c.contains(#[trigger] ready[i])
        }),
    decreases ready.len(),
{
    reveal(Seq::filter);
    let c = spawn_candidates(nodes, ready, slots);
    let m: int = if slots < ready.len() { slots as int } else { ready.len() as int };
    let p = unassigned_at(nodes);
    if ready.len() == 0 {
        assert(ready.take(0) =~= Seq::<int>::empty());
    } else {
        let d = ready.drop_last();
        law_spawn_within_slots(nodes, d, slots);
        if ready.len() <= slots {
            assert(ready.take(m) =~= ready);
            assert(d.take(d.len() as int) =~= d);
            assert(ready.drop_last() == d);
        } else {
            assert(d.take(slots as int) =~= ready.take(slots as int));
        }
    }
    let t = ready.take(m);
    assert(c == t.filter(p));
    t.lemma_filter_len(p);
    assert forall|j: int| 0 <= j < c.len() implies t.contains(#[trigger] c[j])
        && task_at(nodes, c[j]).assigned is None by {
        t.lemma_filter_pred(p, j);
        #[allow(deprecated)]
        t.filter_lemma(p);
    }
    assert forall|i: int| 0 <= i < m && task_at(nodes, ready[i]).assigned is None
        implies c.contains(#[trigger] ready[i]) by {
        assert(t[i] == ready[i]);
        t.lemma_filter_contains(p, i);
    }
}

/// Plan a tick with `alive` agents running and at most `max_agents` allowed.
pub fn plan_tick(graph: &WorkGraph, max_agents: usize, alive: usize) -> (r: TickPlan)
    ensures
        alive >= max_agents ==> r == TickPlan::Saturated(TickResult { agents_alive: alive, tasks_ready: 0, agents_spawned: 0 }),
        alive < max_agents ==> {
            let ready = ready_upto(graph@, graph@.len() as int);
            if ready.len() == 0 {
                r matches TickPlan::NothingReady(t, done, total)
                    && t == (TickResult { agents_alive: alive, tasks_ready: 0, agents_spawned: 0 })
                    && done == status_count(graph@, crate::graph::Status::Done)
                    && total == crate::analyze::task_total(graph@)
            } else {
                r matches TickPlan::Spawn(c, n) && n == ready.len()
                    && c@.map_values(|i: usize| i as int) == spawn_candidates(graph@, ready, (max_agents - alive) as nat)
                    && alive + c@.len() <= max_agents
                    && c@.map_values(|i: usize| i as int) == ready.take(
                        if max_agents - alive < ready.len() { max_agents - alive } else { ready.len() as int },
                    ).filter(unassigned_at(graph@))
            }
        },
{
    if alive >= max_agents {
        return TickPlan::Saturated(TickResult { agents_alive: alive, tasks_ready: 0, agents_spawned: 0 });
    }
    let ready = ready_tasks(graph);
    let ghost rv = ready@.map_values(|i: usize| i as int);
    if ready.len() == 0 {
        let status = crate::coordinate::get_coordination_status(graph);
        return TickPlan::NothingReady(
            TickResult { agents_alive: alive, tasks_ready: 0, agents_spawned: 0 },
            status.done_count,
            status.total_count,
        );
    }
    let slots = max_agents - alive;
    let mut out: Vec<usize> = Vec::new();
    let mut k: usize = 0;
    while k < ready.len()
        invariant
            k <= ready@.len(),
            rv == ready@.map_values(|i: usize| i as int),
            slots == max_agents - alive,
            forall|q: int| 0 <= q < ready@.len() ==> #[trigger] ready@[q] < graph@.len() && graph@[ready@[q] as int] is Task,
            graph@.len() == graph.nodes@.len(),
            out@.map_values(|i: usize| i as int) == spawn_candidates(graph@, rv.take(k as int), slots as nat),
        decreases ready@.len() - k,
    {
        let pos = ready[k];
        assert(rv.take(k + 1).drop_last() =~= rv.take(k as int));
        assert(rv.take(k + 1).last() == pos as int);
        assert(graph@[pos as int] == graph.nodes@[pos as int]@);
        let unassigned = match &graph.nodes[pos] {
            Node::Task(t) => t.assigned.is_none(),
            Node::Resource(_) => false,
        };
        if k < slots && unassigned {
            let ghost before = out@;
            out.push(pos);
            assert(out@.map_values(|i: usize| i as int) =~= before.map_values(|i: usize| i as int).push(pos as int));
        }
        k = k + 1;
    }
    assert(rv.take(ready@.len() as int) =~= rv);
    proof {
        law_spawn_within_slots(graph@, rv, slots as nat);
    }
    TickPlan::Spawn(out, ready.len())
}

/// The result of a tick that started `spawned` agents.
pub fn tick_result(alive: usize, tasks_ready: usize, spawned: usize) -> (r: TickResult)
    requires
        alive + spawned <= usize::MAX,
    ensures
        r == (TickResult { agents_alive: (alive + spawned) as usize, tasks_ready, agents_spawned: spawned }),
{
    TickResult { agents_alive: alive + spawned, tasks_ready, agents_spawned: spawned }
}

/// Why a running agent counts as dead.
#[derive(Debug, Clone, Copy, PartialEq, Eq, Structural)]
pub enum DeadReason {
    /// Its process is gone.
    ProcessExited,
    /// Its last heartbeat is older than the timeout.
    HeartbeatStale { seconds: i64 },
}

/// Whether an agent the registry counts alive is in fact dead: its process is
/// gone (checked first), or its heartbeat is older than `timeout_secs`.
pub fn detect_dead_reason(
    registry_alive: bool,
    process_alive: bool,
    seconds_since_heartbeat: Option<i64>,
    timeout_secs: i64,
) -> (r: Option<DeadReason>)
    ensures
        r == if !registry_alive {
            None
        } else if !process_alive {
            Some(DeadReason::ProcessExited)
        } else {
            match seconds_since_heartbeat {
                Some(s) => if s > timeout_secs {
                    Some(DeadReason::HeartbeatStale { seconds: s })
                } else {
                    None
                },
                None => None,
            }
        },
{
    if !registry_alive {
        return None;
    }
    if !process_alive {
        return Some(DeadReason::ProcessExited);
    }
    if let Some(secs) = seconds_since_heartbeat {
        if secs > timeout_secs {
            return Some(DeadReason::HeartbeatStale { seconds: secs });
        }
    }
    None
}

/// The log line left on a task taken back from a dead agent.
pub open spec fn dead_reason_text(agent_id: Seq<char>, pid: u32, reason: DeadReason) -> Seq<char> {
    "Task unclaimed: agent '"@ + agent_id + "' (PID "@ + decimal(pid as nat) + match reason {
        DeadReason::ProcessExited => ") process exited"@,
        DeadReason::HeartbeatStale { seconds } => ") no heartbeat for "@ + signed_decimal(seconds as int) + "s"@,
    }
}

/// The log line left on a task taken back from a dead agent.
pub fn dead_reason_message(agent_id: &str, pid: u32, reason: DeadReason) -> (r: String)
    ensures
        r@ == dead_reason_text(agent_id@, pid, reason),
{
    let mut m = "Task unclaimed: agent '".to_string();
    m.append(agent_id);
    m.append("' (PID ");
    push_u64(&mut m, pid as u64);
    match reason {
        DeadReason::ProcessExited => m.append(") process exited"),
        DeadReason::HeartbeatStale { seconds } => {
            m.append(") no heartbeat for ");
            push_i64(&mut m, seconds);
            m.append("s");
        },
    }
    m
}

} // verus!
