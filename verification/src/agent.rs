//! The autonomous agent: its persistent state, its session statistics and
//! the decisions of its wake, check, work, sleep cycle.
use vstd::prelude::*;
use vstd::string::*;
use crate::graph::{Node, NodeView, Status, Task, TaskView, WorkGraph, opt_str};
use crate::time::{now_rfc3339, rfc3339_of};

verus! {

/// The current time as RFC 3339 text; empty when the clock cannot be read.
fn clock_text() -> (r: String)
    ensures
        r@.len() > 0 ==> exists|secs: i64, nanos: u32| rfc3339_of(secs, nanos) == Some(r@),
{
    match now_rfc3339() {
        Some(t) => t,
        None => String::new(),
    }
}


/// Statistics of one agent session (not persisted).
#[derive(Debug, Clone, Copy, PartialEq, Eq, Structural)]
pub struct AgentStats {
    pub tasks_completed: u32,
    pub tasks_failed: u32,
    pub iterations: u32,
    pub idle_iterations: u32,
}

impl Default for AgentStats {
    fn default() -> (r: AgentStats)
        ensures
            r == (AgentStats { tasks_completed: 0, tasks_failed: 0, iterations: 0, idle_iterations: 0 }),
    {
        AgentStats { tasks_completed: 0, tasks_failed: 0, iterations: 0, idle_iterations: 0 }
    }
}

/// One task an agent worked on.
#[derive(Debug, Clone)]
pub struct TaskHistoryEntry {
    pub task_id: String,
    /// `completed` or `failed`.
    pub outcome: String,
    pub timestamp: String,
    pub failure_reason: Option<String>,
}

pub ghost struct TaskHistoryEntryView {
    pub task_id: Seq<char>,
    pub outcome: Seq<char>,
    pub timestamp: Seq<char>,
    pub failure_reason: Option<Seq<char>>,
}

impl View for TaskHistoryEntry {
    type V = TaskHistoryEntryView;

    open spec fn view(&self) -> TaskHistoryEntryView {
        TaskHistoryEntryView {
            task_id: self.task_id@,
            outcome: self.outcome@,
            timestamp: self.timestamp@,
            failure_reason: opt_str(self.failure_reason),
        }
    }
}

/// What an agent remembers across sessions.
#[derive(Debug, Clone)]
pub struct AgentState {
    pub actor_id: String,
    pub total_tasks_completed: u32,
    pub total_tasks_failed: u32,
    pub total_iterations: u32,
    pub total_idle_iterations: u32,
    pub task_history: Vec<TaskHistoryEntry>,
    /// Incremented at each start.
    pub session_count: u32,
    pub first_run: Option<String>,
    pub last_run: Option<String>,
    pub last_saved: Option<String>,
}

pub ghost struct AgentStateView {
    pub actor_id: Seq<char>,
    pub total_tasks_completed: u32,
    pub total_tasks_failed: u32,
    pub total_iterations: u32,
    pub total_idle_iterations: u32,
    pub task_history: Seq<TaskHistoryEntryView>,
    pub session_count: u32,
    pub first_run: Option<Seq<char>>,
    pub last_run: Option<Seq<char>>,
    pub last_saved: Option<Seq<char>>,
}

impl View for AgentState {
    type V = AgentStateView;

    open spec fn view(&self) -> AgentStateView {
        AgentStateView {
            actor_id: self.actor_id@,
            total_tasks_completed: self.total_tasks_completed,
            total_tasks_failed: self.total_tasks_failed,
            total_iterations: self.total_iterations,
            total_idle_iterations: self.total_idle_iterations,
            task_history: self.task_history@.map_values(|e: TaskHistoryEntry| e@),
            session_count: self.session_count,
            first_run: opt_str(self.first_run),
            last_run: opt_str(self.last_run),
            last_saved: opt_str(self.last_saved),
        }
    }
}

/// The state of an actor's first session, started at `now`.
pub open spec fn fresh_state(actor_id: Seq<char>, now: Seq<char>) -> AgentStateView {
    AgentStateView {
        actor_id,
        total_tasks_completed: 0,
        total_tasks_failed: 0,
        total_iterations: 0,
        total_idle_iterations: 0,
        task_history: Seq::empty(),
        session_count: 1,
        first_run: Some(now),
        last_run: None,
        last_saved: None,
    }
}

/// `base` joined with `part` as `Path::join` does on Unix: an absolute part
/// replaces the base; otherwise a `/` separates them unless the base is empty
/// or already ends with one.
pub open spec fn path_joined(base: Seq<char>, part: Seq<char>) -> Seq<char> {
    if part.len() > 0 && part[0] == '/' {
        part
    } else if base.len() == 0 || base.last() == '/' {
        base + part
    } else {
        base + "/"@ + part
    }
}

/// `Path::join` on Unix paths held as text.
pub fn path_join(base: &str, part: &str) -> (r: String)
    ensures
        r@ == path_joined(base@, part@),
{
    proof {
        reveal_strlit("/");
    }
    let n = base.unicode_len();
    if part.unicode_len() > 0 && part.get_char(0) == '/' {
        return part.to_string();
    }
    let mut r = base.to_string();
    if !(n == 0 || base.get_char(n - 1) == '/') {
        r.append("/");
    }
    r.append(part);
    r
}

impl AgentState {
    /// The state of an actor's first session, started at `now`.
    pub fn started_at(actor_id: &str, now: String) -> (r: AgentState)
        ensures
            r@ == fresh_state(actor_id@, now@),
    {
        let ghost nv = now@;
        let r = AgentState {
            actor_id: actor_id.to_string(),
            total_tasks_completed: 0,
            total_tasks_failed: 0,
            total_iterations: 0,
            total_idle_iterations: 0,
            task_history: Vec::new(),
            session_count: 1,
            first_run: Some(now),
            last_run: None,
            last_saved: None,
        };
        assert(r@.task_history =~= Seq::<TaskHistoryEntryView>::empty());
        assert(r@ =~= fresh_state(actor_id@, nv));
        r
    }

    /// A new state for an actor, first run now.
    pub fn new(actor_id: &str) -> (r: AgentState)
        ensures
            r@.first_run is Some ==> r@ == fresh_state(actor_id@, r@.first_run->0),
            r@.first_run is None ==> r@ == (AgentStateView { first_run: None, ..fresh_state(actor_id@, Seq::empty()) }),
    {
        match now_rfc3339() {
            Some(now) => AgentState::started_at(actor_id, now),
            None => {
                let mut r = AgentState::started_at(actor_id, String::new());
                r.first_run = None;
                r
            },
        }
    }

    /// Where an actor's state is kept: `<dir>/agents/<actor>.json`.
    pub fn state_path(dir: &str, actor_id: &str) -> (r: String)
        ensures
            r@ == path_joined(path_joined(dir@, "agents"@), actor_id@ + ".json"@),
    {
        let agents = path_join(dir, "agents");
        let mut file = actor_id.to_string();
        file.append(".json");
        path_join(agents.as_str(), file.as_str())
    }

    /// A loaded state at the start of a new session at `now`.
    pub fn resume(&mut self, now: String)
        requires
            old(self).session_count < u32::MAX,
        ensures
            final(self)@ == (AgentStateView {
                session_count: (old(self).session_count + 1) as u32,
                last_run: Some(now@),
                ..old(self)@
            }),
    {
        self.session_count = self.session_count + 1;
        self.last_run = Some(now);
    }

    /// Note that the state was saved at `now`.
    pub fn mark_saved(&mut self, now: String)
        ensures
            final(self)@ == (AgentStateView { last_saved: Some(now@), ..old(self)@ }),
    {
        self.last_saved = Some(now);
    }

    /// Record a task completed at `timestamp`.
    pub fn record_completed_at(&mut self, task_id: &str, timestamp: String)
        requires
            old(self).total_tasks_completed < u32::MAX,
        ensures
            final(self)@ == (AgentStateView {
                total_tasks_completed: (old(self).total_tasks_completed + 1) as u32,
                task_history: old(self)@.task_history.push(
                    TaskHistoryEntryView {
                        task_id: task_id@,
                        outcome: "completed"@,
                        timestamp: timestamp@,
                        failure_reason: None,
                    },
                ),
                ..old(self)@
            }),
    {
        self.total_tasks_completed = self.total_tasks_completed + 1;
        let e = TaskHistoryEntry {
            task_id: task_id.to_string(),
            outcome: "completed".to_string(),
            timestamp,
            failure_reason: None,
        };
        let ghost ev = e@;
        self.task_history.push(e);
        assert(self@.task_history =~= old(self)@.task_history.push(ev));
    }

    /// Record a task completed now (an empty timestamp when the clock cannot
    /// be read).
    pub fn record_completed(&mut self, task_id: &str)
        requires
            old(self).total_tasks_completed < u32::MAX,
        ensures
            final(self)@ == (AgentStateView {
                total_tasks_completed: (old(self).total_tasks_completed + 1) as u32,
                task_history: old(self)@.task_history.push(
                    TaskHistoryEntryView {
                        task_id: task_id@,
                        outcome: "completed"@,
                        timestamp: final(self)@.task_history.last().timestamp,
                        failure_reason: None,
                    },
                ),
                ..old(self)@
            }),
    {
        self.record_completed_at(task_id, clock_text());
    }

    /// Record a task that failed at `timestamp` for `reason`.
    pub fn record_failed_at(&mut self, task_id: &str, reason: &str, timestamp: String)
        requires
            old(self).total_tasks_failed < u32::MAX,
        ensures
            final(self)@ == (AgentStateView {
                total_tasks_failed: (old(self).total_tasks_failed + 1) as u32,
                task_history: old(self)@.task_history.push(
                    TaskHistoryEntryView {
                        task_id: task_id@,
                        outcome: "failed"@,
                        timestamp: timestamp@,
                        failure_reason: Some(reason@),
                    },
                ),
                ..old(self)@
            }),
    {
        self.total_tasks_failed = self.total_tasks_failed + 1;
        let e = TaskHistoryEntry {
            task_id: task_id.to_string(),
            outcome: "failed".to_string(),
            timestamp,
            failure_reason: Some(reason.to_string()),
        };
        let ghost ev = e@;
        self.task_history.push(e);
        assert(self@.task_history =~= old(self)@.task_history.push(ev));
    }

    /// Record a task that failed now for `reason` (an empty timestamp when the
    /// clock cannot be read).
    pub fn record_failed(&mut self, task_id: &str, reason: &str)
        requires
            old(self).total_tasks_failed < u32::MAX,
        ensures
            final(self)@ == (AgentStateView {
                total_tasks_failed: (old(self).total_tasks_failed + 1) as u32,
                task_history: old(self)@.task_history.push(
                    TaskHistoryEntryView {
                        task_id: task_id@,
                        outcome: "failed"@,
                        timestamp: final(self)@.task_history.last().timestamp,
                        failure_reason: Some(reason@),
                    },
                ),
                ..old(self)@
            }),
    {
        self.record_failed_at(task_id, reason, clock_text());
    }
}

// ---------------------------------------------------------------------------
// The work cycle
// ---------------------------------------------------------------------------

/// How desirable a ready task is to an agent: tasks with a command to run
/// first (15), then tasks that need no particular skill (5).
pub open spec fn task_score(t: TaskView) -> int {
    (if t.exec_command is Some {
        15int
    } else {
        0int
    }) + (if t.skills.len() == 0 {
        5int
    } else {
        0int
    })
}

/// A task with a command to run always outscores one without, and among tasks
/// alike in that, one that needs no skill outscores one that does.
pub proof fn law_exec_outranks(t: TaskView, u: TaskView)
    ensures
        t.exec_command is Some && u.exec_command is None ==> task_score(u) < task_score(t),
        (t.exec_command is Some <==> u.exec_command is Some) && t.skills.len() == 0 && u.skills.len() > 0
            ==> task_score(u) < task_score(t),
{
}

/// A best-scoring candidate has a command to run whenever any candidate has
/// one, and has a command and needs no skill whenever any candidate does.
pub proof fn law_pick_prefers_exec(cands: Seq<TaskView>, k: int)
    requires
        0 <= k < cands.len(),
        forall|j: int| 0 <= j < cands.len() ==> task_score(#[trigger] cands[j]) <= task_score(cands[k]),
    ensures
        (exists|j: int| 0 <= j < cands.len() && (#[trigger] cands[j]).exec_command is Some)
            ==> cands[k].exec_command is Some,
        (exists|j: int| 0 <= j < cands.len() && (#[trigger] cands[j]).exec_command is Some
            && cands[j].skills.len() == 0) ==> cands[k].exec_command is Some && cands[k].skills.len() == 0,
{
    if exists|j: int| 0 <= j < cands.len() && (#[trigger] cands[j]).exec_command is Some {
        let j = choose|j: int| 0 <= j < cands.len() && (#[trigger] cands[j]).exec_command is Some;
        law_exec_outranks(cands[j], cands[k]);
    }
    if exists|j: int| 0 <= j < cands.len() && (#[trigger] cands[j]).exec_command is Some
        && cands[j].skills.len() == 0 {
        let j = choose|j: int| 0 <= j < cands.len() && (#[trigger] cands[j]).exec_command is Some
            && cands[j].skills.len() == 0;
        assert(task_score(cands[j]) == 20);
        assert(task_score(cands[j]) <= task_score(cands[k]));
    }
}

/// The task at position `i` of the graph (arbitrary when it is a resource).
pub open spec fn node_task(nodes: Seq<NodeView>, i: int) -> TaskView {
    crate::ops::task_at(nodes, i)
}

/// Among the ready tasks (positions in the graph), the first one with the
/// highest score.
pub fn pick_task(graph: &WorkGraph, ready: &Vec<usize>) -> (r: Option<usize>)
    requires
        forall|k: int| 0 <= k < ready@.len() ==> #[trigger] ready@[k] < graph@.len() && graph@[ready@[k] as int] is Task,
    ensures
        match r {
            None => ready@.len() == 0,
            Some(k) => {
                &&& k < ready@.len()
                &&& forall|j: int| 0 <= j < ready@.len() ==> task_score(node_task(graph@, ready@[j] as int)) <= task_score(node_task(graph@, ready@[k as int] as int))
                &&& forall|j: int| 0 <= j < k ==> task_score(node_task(graph@, ready@[j] as int)) < task_score(node_task(graph@, ready@[k as int] as int))
                &&& (exists|j: int| 0 <= j < ready@.len() && (#[trigger] node_task(graph@, ready@[j] as int)).exec_command is Some)
                    ==> node_task(graph@, ready@[k as int] as int).exec_command is Some
                &&& (exists|j: int| 0 <= j < ready@.len() && (#[trigger] node_task(graph@, ready@[j] as int)).exec_command is Some
                    && node_task(graph@, ready@[j] as int).skills.len() == 0)
                    ==> node_task(graph@, ready@[k as int] as int).exec_command is Some
                    && node_task(graph@, ready@[k as int] as int).skills.len() == 0
            },
        },
{
    let mut best: Option<(usize, i32)> = None;
    let mut i: usize = 0;
    while i < ready.len()
        invariant
            i <= ready@.len(),
            forall|k: int| 0 <= k < ready@.len() ==> #[trigger] ready@[k] < graph@.len() && graph@[ready@[k] as int] is Task,
            graph@.len() == graph.nodes@.len(),
            match best {
                None => i == 0,
                Some((k, sc)) => {
                    &&& k < i
                    &&& sc == task_score(node_task(graph@, ready@[k as int] as int))
                    &&& forall|j: int| 0 <= j < i ==> task_score(node_task(graph@, ready@[j] as int)) <= sc
                    &&& forall|j: int| 0 <= j < k ==> task_score(node_task(graph@, ready@[j] as int)) < sc
                },
            },
        decreases ready@.len() - i,
    {
        let pos = ready[i];
        assert(graph@[pos as int] == graph.nodes@[pos as int]@);
        let score: i32 = match &graph.nodes[pos] {
            Node::Task(t) => {
                let a: i32 = if t.exec_command.is_some() { 15 } else { 0 };
                let b: i32 = if t.skills.len() == 0 { 5 } else { 0 };
                a + b
            },
            Node::Resource(_) => 0,
        };
        match best {
            None => {
                best = Some((i, score));
            },
            Some((_, sc)) => {
                if score > sc {
                    best = Some((i, score));
                }
            },
        }
        i = i + 1;
    }
    match best {
        None => None,
        Some((k, _)) => {
            proof {
                let cands = Seq::new(ready@.len(), |j: int| node_task(graph@, ready@[j] as int));
                assert forall|j: int| 0 <= j < cands.len() implies task_score(#[trigger] cands[j]) <= task_score(
                    cands[k as int],
                ) by {
                    assert(cands[j] == node_task(graph@, ready@[j] as int));
                }
                law_pick_prefers_exec(cands, k as int);
                if exists|j: int| 0 <= j < ready@.len() && (#[trigger] node_task(graph@, ready@[j] as int)).exec_command is Some {
                    let j = choose|j: int| 0 <= j < ready@.len() && (#[trigger] node_task(graph@, ready@[j] as int)).exec_command is Some;
                    assert(cands[j] == node_task(graph@, ready@[j] as int));
                }
                if exists|j: int| 0 <= j < ready@.len() && (#[trigger] node_task(graph@, ready@[j] as int)).exec_command is Some
                    && node_task(graph@, ready@[j] as int).skills.len() == 0 {
                    let j = choose|j: int| 0 <= j < ready@.len() && (#[trigger] node_task(graph@, ready@[j] as int)).exec_command is Some
                        && node_task(graph@, ready@[j] as int).skills.len() == 0;
                    assert(cands[j] == node_task(graph@, ready@[j] as int));
                }
            }
            Some(k)
        },
    }
}

/// What one iteration of the work cycle came to.
#[derive(Debug, Clone)]
pub enum IterationResult {
    /// The task was done.
    Completed(String),
    /// The task failed, for the given reason.
    Failed(String, String),
    /// Nothing to do (or the task was left to an outside worker).
    Idle,
}

/// Why the work cycle stops.
#[derive(Debug, Clone, Copy, PartialEq, Eq, Structural)]
pub enum StopReason {
    /// The session reached its task budget.
    MaxTasks(u32),
    /// Only one iteration was asked for.
    Once,
}

/// Count the start of an iteration.
pub fn begin_iteration(stats: &mut AgentStats, state: &mut AgentState)
    requires
        old(stats).iterations < u32::MAX,
        old(state).total_iterations < u32::MAX,
    ensures
        *final(stats) == (AgentStats { iterations: (old(stats).iterations + 1) as u32, ..*old(stats) }),
        final(state)@ == (AgentStateView { total_iterations: (old(state).total_iterations + 1) as u32, ..old(state)@ }),
{
    stats.iterations = stats.iterations + 1;
    state.total_iterations = state.total_iterations + 1;
}

/// Account for the outcome of an iteration at `now` and decide whether the
/// cycle stops: at the task budget (completed plus failed), or after one
/// iteration when asked for only one.
pub fn finish_iteration(
    stats: &mut AgentStats,
    state: &mut AgentState,
    result: &IterationResult,
    now: String,
    max_tasks: Option<u32>,
    once: bool,
) -> (stop: Option<StopReason>)
    requires
        old(stats).tasks_completed < u32::MAX,
        old(stats).tasks_failed < u32::MAX,
        old(stats).idle_iterations < u32::MAX,
        old(state).total_tasks_completed < u32::MAX,
        old(state).total_tasks_failed < u32::MAX,
        old(state).total_idle_iterations < u32::MAX,
        old(stats).tasks_completed + old(stats).tasks_failed < u32::MAX,
    ensures
        match *result {
            IterationResult::Completed(id) => {
                &&& *final(stats) == (AgentStats { tasks_completed: (old(stats).tasks_completed + 1) as u32, ..*old(stats) })
                &&& final(state)@ == (AgentStateView {
                    total_tasks_completed: (old(state).total_tasks_completed + 1) as u32,
                    task_history: old(state)@.task_history.push(
                        TaskHistoryEntryView { task_id: id@, outcome: "completed"@, timestamp: now@, failure_reason: None },
                    ),
                    ..old(state)@
                })
            },
            IterationResult::Failed(id, reason) => {
                &&& *final(stats) == (AgentStats { tasks_failed: (old(stats).tasks_failed + 1) as u32, ..*old(stats) })
                &&& final(state)@ == (AgentStateView {
                    total_tasks_failed: (old(state).total_tasks_failed + 1) as u32,
                    task_history: old(state)@.task_history.push(
                        TaskHistoryEntryView { task_id: id@, outcome: "failed"@, timestamp: now@, failure_reason: Some(reason@) },
                    ),
                    ..old(state)@
                })
            },
            IterationResult::Idle => {
                &&& *final(stats) == (AgentStats { idle_iterations: (old(stats).idle_iterations + 1) as u32, ..*old(stats) })
                &&& final(state)@ == (AgentStateView {
                    total_idle_iterations: (old(state).total_idle_iterations + 1) as u32,
                    ..old(state)@
                })
            },
        },
        stop == match max_tasks {
            Some(m) => if final(stats).tasks_completed + final(stats).tasks_failed >= m {
                Some(StopReason::MaxTasks(m))
            } else if once {
                Some(StopReason::Once)
            } else {
                None
            },
            None => if once {
                Some(StopReason::Once)
            } else {
                None
            },
        },
{
    match result {
        IterationResult::Completed(task_id) => {
            stats.tasks_completed = stats.tasks_completed + 1;
            state.record_completed_at(task_id.as_str(), now);
        },
        IterationResult::Failed(task_id, reason) => {
            stats.tasks_failed = stats.tasks_failed + 1;
            state.record_failed_at(task_id.as_str(), reason.as_str(), now);
        },
        IterationResult::Idle => {
            stats.idle_iterations = stats.idle_iterations + 1;
            state.total_idle_iterations = state.total_idle_iterations + 1;
        },
    }
    if let Some(max) = max_tasks {
        if stats.tasks_completed + stats.tasks_failed >= max {
            return Some(StopReason::MaxTasks(max));
        }
    }
    if once {
        Some(StopReason::Once)
    } else {
        None
    }
}

} // verus!
