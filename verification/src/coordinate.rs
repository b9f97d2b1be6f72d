//! What can be worked on now: ready, in-progress and blocked tasks, and the
//! coordinator's choice of tasks to start agents on.
use vstd::prelude::*;
use crate::graph::{Node, NodeView, Status, Task, TaskView, WorkGraph, lookup_task, opt_str, status_is_terminal, strs};
use crate::check::views;
use crate::text::clone_strs;

verus! {

/// A blocker is resolved when it names a task in a terminal state; a
/// missing blocker is unresolved.
pub open spec fn blocker_resolved(nodes: Seq<NodeView>, b: Seq<char>) -> bool {
    match lookup_task(nodes, b) {
        Some(t) => status_is_terminal(t.status),
        None => false,
    }
}

/// An open task whose blockers are all resolved.
pub open spec fn is_ready(nodes: Seq<NodeView>, t: TaskView) -> bool {
    t.status == Status::Open && forall|k: int| 0 <= k < t.blocked_by.len() ==> blocker_resolved(nodes, #[trigger] t.blocked_by[k])
}

/// An open task with a blocker that is not resolved.
pub open spec fn is_blocked(nodes: Seq<NodeView>, t: TaskView) -> bool {
    t.status == Status::Open && t.blocked_by.len() > 0 && exists|k: int|
        0 <= k < t.blocked_by.len() && !blocker_resolved(nodes, #[trigger] t.blocked_by[k])
}

/// An open task is either ready or blocked, never both.
pub proof fn law_open_is_ready_or_blocked(nodes: Seq<NodeView>, t: TaskView)
    requires
        t.status == Status::Open,
    ensures
        is_ready(nodes, t) != is_blocked(nodes, t),
{
    if !is_ready(nodes, t) {
        let k = choose|k: int| 0 <= k < t.blocked_by.len() && !blocker_resolved(nodes, #[trigger] t.blocked_by[k]);
        assert(!blocker_resolved(nodes, t.blocked_by[k]));
    }
}

/// The positions of the ready tasks among the first `k` nodes.
pub open spec fn ready_upto(nodes: Seq<NodeView>, k: int) -> Seq<int>
    decreases k,
{
    if k <= 0 {
        Seq::empty()
    } else {
        ready_upto(nodes, k - 1) + match nodes[k - 1] {
            NodeView::Task(t) => if is_ready(nodes, t) {
                seq![k - 1]
            } else {
                Seq::empty()
            },
            NodeView::Resource(_) => Seq::empty(),
        }
    }
}

fn resolved(graph: &WorkGraph, b: &str) -> (r: bool)
    ensures
        r == blocker_resolved(graph@, b@),
{
    match graph.get_task(b) {
        Some(t) => t.status.is_terminal(),
        None => false,
    }
}

fn all_resolved(graph: &WorkGraph, t: &Task) -> (r: bool)
    ensures
        r == forall|k: int| 0 <= k < t@.blocked_by.len() ==> blocker_resolved(graph@, #[trigger] t@.blocked_by[k]),
{
    let mut i: usize = 0;
    while i < t.blocked_by.len()
        invariant
            i <= t.blocked_by@.len(),
            t@.blocked_by == strs(t.blocked_by),
            forall|k: int| 0 <= k < i ==> blocker_resolved(graph@, #[trigger] t@.blocked_by[k]),
        decreases t.blocked_by@.len() - i,
    {
        if !resolved(graph, t.blocked_by[i].as_str()) {
            assert(!blocker_resolved(graph@, t@.blocked_by[i as int]));
            return false;
        }
        i = i + 1;
    }
    true
}

/// Whether a task is ready: open, with every blocker a finished task.
pub fn task_is_ready(graph: &WorkGraph, t: &Task) -> (r: bool)
    ensures
        r == is_ready(graph@, t@),
{
    t.status == Status::Open && all_resolved(graph, t)
}

/// Whether a task is open and held up by an unfinished or missing blocker.
pub fn task_is_blocked(graph: &WorkGraph, t: &Task) -> (r: bool)
    ensures
        r == is_blocked(graph@, t@),
{
    let r = t.status == Status::Open && t.blocked_by.len() > 0 && !all_resolved(graph, t);
    proof {
        if t.status == Status::Open && t.blocked_by.len() > 0 {
            law_open_is_ready_or_blocked(graph@, t@);
        }
    }
    r
}

/// The positions of the ready tasks, in graph order.
pub fn ready_tasks(graph: &WorkGraph) -> (r: Vec<usize>)
    ensures
        r@.map_values(|i: usize| i as int) == ready_upto(graph@, graph@.len() as int),
        forall|k: int| 0 <= k < r@.len() ==> #[trigger] r@[k] < graph@.len() && graph@[r@[k] as int] is Task,
{
    let mut out: Vec<usize> = Vec::new();
    let mut i: usize = 0;
    while i < graph.nodes.len()
        invariant
            i <= graph.nodes.len(),
            graph@.len() == graph.nodes.len(),
            out@.map_values(|i: usize| i as int) == ready_upto(graph@, i as int),
            forall|k: int| 0 <= k < out@.len() ==> #[trigger] out@[k] < i && graph@[out@[k] as int] is Task,
        decreases graph.nodes.len() - i,
    {
        assert(graph@[i as int] == graph.nodes@[i as int]@);
        let ghost before = out@;
        if let Node::Task(t) = &graph.nodes[i] {
            if task_is_ready(graph, t) {
                out.push(i);
                assert(out@.map_values(|i: usize| i as int) =~= before.map_values(|i: usize| i as int).push(i as int));
            }
        }
        assert(out@.map_values(|i: usize| i as int) =~= ready_upto(graph@, i + 1));
        i = i + 1;
    }
    out
}

/// A task's id, title and assignee.
#[derive(Debug, Clone)]
pub struct TaskSummary {
    pub id: String,
    pub title: String,
    pub assigned: Option<String>,
}

pub ghost struct TaskSummaryView {
    pub id: Seq<char>,
    pub title: Seq<char>,
    pub assigned: Option<Seq<char>>,
}

impl View for TaskSummary {
    type V = TaskSummaryView;

    open spec fn view(&self) -> TaskSummaryView {
        TaskSummaryView { id: self.id@, title: self.title@, assigned: opt_str(self.assigned) }
    }
}

/// A blocked task's id, title and blockers.
#[derive(Debug, Clone)]
pub struct BlockedTaskSummary {
    pub id: String,
    pub title: String,
    pub blocked_by: Vec<String>,
}

pub ghost struct BlockedTaskSummaryView {
    pub id: Seq<char>,
    pub title: Seq<char>,
    pub blocked_by: Seq<Seq<char>>,
}

impl View for BlockedTaskSummary {
    type V = BlockedTaskSummaryView;

    open spec fn view(&self) -> BlockedTaskSummaryView {
        BlockedTaskSummaryView { id: self.id@, title: self.title@, blocked_by: strs(self.blocked_by) }
    }
}

pub open spec fn summary_of(t: TaskView) -> TaskSummaryView {
    TaskSummaryView { id: t.id, title: t.title, assigned: t.assigned }
}

pub open spec fn blocked_summary_of(t: TaskView) -> BlockedTaskSummaryView {
    BlockedTaskSummaryView { id: t.id, title: t.title, blocked_by: t.blocked_by }
}

impl TaskSummary {
    pub fn from_task(t: &Task) -> (r: TaskSummary)
        ensures
            r@ == summary_of(t@),
    {
        TaskSummary { id: t.id.clone(), title: t.title.clone(), assigned: crate::ops::clone_opt(&t.assigned) }
    }
}

impl BlockedTaskSummary {
    pub fn from_task(t: &Task) -> (r: BlockedTaskSummary)
        ensures
            r@ == blocked_summary_of(t@),
    {
        BlockedTaskSummary { id: t.id.clone(), title: t.title.clone(), blocked_by: clone_strs(&t.blocked_by) }
    }
}

/// Where the work stands.
#[derive(Debug, Clone)]
pub struct CoordinationStatus {
    pub ready: Vec<TaskSummary>,
    pub in_progress: Vec<TaskSummary>,
    pub blocked: Vec<BlockedTaskSummary>,
    pub done_count: usize,
    pub total_count: usize,
}

/// The tasks among `part` that satisfy the given kind of check, summarized.
pub open spec fn ready_summaries(nodes: Seq<NodeView>, part: Seq<NodeView>) -> Seq<TaskSummaryView>
    decreases part.len(),
{
    if part.len() == 0 {
        Seq::empty()
    } else {
        ready_summaries(nodes, part.drop_last()) + match part.last() {
            NodeView::Task(t) => if is_ready(nodes, t) {
                seq![summary_of(t)]
            } else {
                Seq::empty()
            },
            NodeView::Resource(_) => Seq::empty(),
        }
    }
}

pub open spec fn progress_summaries(part: Seq<NodeView>) -> Seq<TaskSummaryView>
    decreases part.len(),
{
    if part.len() == 0 {
        Seq::empty()
    } else {
        progress_summaries(part.drop_last()) + match part.last() {
            NodeView::Task(t) => if t.status == Status::InProgress {
                seq![summary_of(t)]
            } else {
                Seq::empty()
            },
            NodeView::Resource(_) => Seq::empty(),
        }
    }
}

pub open spec fn blocked_summaries(nodes: Seq<NodeView>, part: Seq<NodeView>) -> Seq<BlockedTaskSummaryView>
    decreases part.len(),
{
    if part.len() == 0 {
        Seq::empty()
    } else {
        blocked_summaries(nodes, part.drop_last()) + match part.last() {
            NodeView::Task(t) => if is_blocked(nodes, t) {
                seq![blocked_summary_of(t)]
            } else {
                Seq::empty()
            },
            NodeView::Resource(_) => Seq::empty(),
        }
    }
}

/// Number of tasks among `part` with the given status.
pub open spec fn status_count(part: Seq<NodeView>, s: Status) -> nat
    decreases part.len(),
{
    if part.len() == 0 {
        0
    } else {
        status_count(part.drop_last(), s) + match part.last() {
            NodeView::Task(t) => if t.status == s {
                1nat
            } else {
                0nat
            },
            NodeView::Resource(_) => 0nat,
        }
    }
}

/// Ready, in-progress and blocked tasks in graph order, with how many tasks
/// are done and how many there are.
pub fn get_coordination_status(graph: &WorkGraph) -> (r: CoordinationStatus)
    ensures
        views(r.ready@) == ready_summaries(graph@, graph@),
        views(r.in_progress@) == progress_summaries(graph@),
        views(r.blocked@) == blocked_summaries(graph@, graph@),
        r.done_count == status_count(graph@, Status::Done),
        r.total_count == crate::analyze::task_total(graph@),
{
    let mut ready: Vec<TaskSummary> = Vec::new();
    let mut in_progress: Vec<TaskSummary> = Vec::new();
    let mut blocked: Vec<BlockedTaskSummary> = Vec::new();
    let mut done: usize = 0;
    let mut total: usize = 0;
    let mut i: usize = 0;
    while i < graph.nodes.len()
        invariant
            i <= graph.nodes.len(),
            graph@.len() == graph.nodes.len(),
            views(ready@) == ready_summaries(graph@, graph@.take(i as int)),
            views(in_progress@) == progress_summaries(graph@.take(i as int)),
            views(blocked@) == blocked_summaries(graph@, graph@.take(i as int)),
            done == status_count(graph@.take(i as int), Status::Done),
            total == crate::analyze::task_total(graph@.take(i as int)),
            done <= i,
            total <= i,
        decreases graph.nodes.len() - i,
    {
        assert(graph@.take(i + 1).drop_last() =~= graph@.take(i as int));
        assert(graph@.take(i + 1).last() == graph.nodes@[i as int]@);
        let ghost r0 = views(ready@);
        let ghost p0 = views(in_progress@);
        let ghost b0 = views(blocked@);
        if let Node::Task(t) = &graph.nodes[i] {
            total = total + 1;
            if t.status == Status::Done {
                done = done + 1;
            }
            if task_is_ready(graph, t) {
                let s = TaskSummary::from_task(t);
                ready.push(s);
                assert(views(ready@) =~= r0.push(summary_of(t@)));
            }
            if t.status == Status::InProgress {
                let s = TaskSummary::from_task(t);
                in_progress.push(s);
                assert(views(in_progress@) =~= p0.push(summary_of(t@)));
            }
            if task_is_blocked(graph, t) {
                let s = BlockedTaskSummary::from_task(t);
                blocked.push(s);
                assert(views(blocked@) =~= b0.push(blocked_summary_of(t@)));
            }
        }
        assert(views(ready@) =~= ready_summaries(graph@, graph@.take(i + 1)));
        assert(views(in_progress@) =~= progress_summaries(graph@.take(i + 1)));
        assert(views(blocked@) =~= blocked_summaries(graph@, graph@.take(i + 1)));
        i = i + 1;
    }
    assert(graph@.take(graph.nodes.len() as int) =~= graph@);
    CoordinationStatus { ready, in_progress, blocked, done_count: done, total_count: total }
}

/// The summary of the task at position `i`.
pub open spec fn summary_at(nodes: Seq<NodeView>, i: int) -> TaskSummaryView {
    match nodes[i] {
        NodeView::Task(t) => summary_of(t),
        NodeView::Resource(_) => arbitrary(),
    }
}

/// The ready list of the coordination status mirrors `ready_tasks`: the same
/// tasks, in the same order, each summarised.
pub proof fn law_ready_list_mirrors_ready_tasks(nodes: Seq<NodeView>, k: int)
    requires
        0 <= k <= nodes.len(),
    ensures
        ready_summaries(nodes, nodes.take(k)) == ready_upto(nodes, k).map_values(|i: int| summary_at(nodes, i)),
    decreases k,
{
    if k > 0 {
        law_ready_list_mirrors_ready_tasks(nodes, k - 1);
        assert(nodes.take(k).drop_last() =~= nodes.take(k - 1));
        assert(nodes.take(k).last() == nodes[k - 1]);
        let prev = ready_upto(nodes, k - 1);
        match nodes[k - 1] {
            NodeView::Task(t) => {
                if is_ready(nodes, t) {
                    assert(ready_upto(nodes, k).map_values(|i: int| summary_at(nodes, i)) =~= prev.map_values(
                        |i: int| summary_at(nodes, i),
                    ).push(summary_at(nodes, k - 1)));
                } else {
                    assert(ready_upto(nodes, k) =~= prev);
                }
            },
            NodeView::Resource(_) => {
                assert(ready_upto(nodes, k) =~= prev);
            },
        }
    } else {
        assert(nodes.take(0) =~= Seq::<NodeView>::empty());
        assert(ready_upto(nodes, 0).map_values(|i: int| summary_at(nodes, i)) =~= Seq::<TaskSummaryView>::empty());
    }
}

} // verus!
