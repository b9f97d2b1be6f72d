//! State changes of single tasks: claiming, releasing, completing, abandoning
//! and the bookkeeping that goes with them.
use vstd::prelude::*;
use vstd::string::*;
use crate::graph::{LogEntry, LogEntryView, Node, NodeView, Status, Task, TaskView, WorkGraph, task_index, find_node, lookup_task, strs, opt_str};

verus! {

/// Replace the task at position `i`, keeping everything else.
pub open spec fn with_task(nodes: Seq<NodeView>, i: int, t: TaskView) -> Seq<NodeView> {
    nodes.update(i, NodeView::Task(t))
}

/// The task at position `i` of a node list.
pub open spec fn task_at(nodes: Seq<NodeView>, i: int) -> TaskView {
    match nodes[i] {
        NodeView::Task(t) => t,
        NodeView::Resource(_) => arbitrary(),
    }
}

/// Where the task `id` is, and that it is a task.
pub fn locate_task(graph: &WorkGraph, id: &str) -> (r: Option<usize>)
    ensures
        match r {
            Some(i) => task_index(graph@, id@) == Some(i as int) && (i as int) < graph@.len()
                && graph@[i as int] is Task,
            None => task_index(graph@, id@) is None,
        },
{
    match graph.find(id) {
        Some(i) => {
            assert(graph@[i as int] == graph.nodes@[i as int]@);
            match &graph.nodes[i] {
                Node::Task(_) => Some(i),
                Node::Resource(_) => None,
            }
        },
        None => None,
    }
}

pub(crate) fn take_task(graph: &mut WorkGraph, i: usize) -> (t: Task)
    requires
        (i as int) < old(graph)@.len(),
        old(graph)@[i as int] is Task,
    ensures
        t@ == task_at(old(graph)@, i as int),
        final(graph)@ == old(graph)@.remove(i as int),
{
    assert(old(graph)@[i as int] == old(graph).nodes@[i as int]@);
    let node = graph.nodes.remove(i);
    assert(graph@ =~= old(graph)@.remove(i as int));
    match node {
        Node::Task(t) => t,
        Node::Resource(_) => {
            assert(false);
            Task::new("", "")
        },
    }
}

pub(crate) fn put_task(graph: &mut WorkGraph, i: usize, t: Task)
    requires
        (i as int) <= old(graph)@.len(),
    ensures
        final(graph)@ == old(graph)@.insert(i as int, NodeView::Task(t@)),
{
    graph.nodes.insert(i, Node::Task(t));
    assert(graph@ =~= old(graph)@.insert(i as int, NodeView::Task(t@)));
}

pub proof fn lemma_remove_insert(nodes: Seq<NodeView>, i: int, x: NodeView)
    requires
        0 <= i < nodes.len(),
    ensures
        nodes.remove(i).insert(i, x) == nodes.update(i, x),
{
    assert(nodes.remove(i).insert(i, x) =~= nodes.update(i, x));
}

proof fn lemma_push_log(log: Vec<LogEntry>, e: LogEntry, after: Vec<LogEntry>)
    requires
        after@ == log@.push(e),
    ensures
        after@.map_values(|x: LogEntry| x@) == log@.map_values(|x: LogEntry| x@).push(e@),
{
    assert(after@.map_values(|x: LogEntry| x@) =~= log@.map_values(|x: LogEntry| x@).push(e@));
}

// ---------------------------------------------------------------------------
// Claim / unclaim
// ---------------------------------------------------------------------------

/// Why a claim was refused.
#[derive(Debug, Clone, PartialEq, Eq)]
pub enum ClaimError {
    NotFound,
    /// In progress and assigned to the named actor; carries the start time.
    AlreadyClaimed { by: String, since: Option<String> },
    /// In progress without an assignee; carries the start time.
    AlreadyInProgress { since: Option<String> },
    AlreadyDone,
    IsFailed,
    IsAbandoned,
    PendingReview,
}

pub ghost enum ClaimErrorView {
    NotFound,
    AlreadyClaimed { by: Seq<char>, since: Option<Seq<char>> },
    AlreadyInProgress { since: Option<Seq<char>> },
    AlreadyDone,
    IsFailed,
    IsAbandoned,
    PendingReview,
}

impl View for ClaimError {
    type V = ClaimErrorView;

    open spec fn view(&self) -> ClaimErrorView {
        match self {
            ClaimError::NotFound => ClaimErrorView::NotFound,
            ClaimError::AlreadyClaimed { by, since } => ClaimErrorView::AlreadyClaimed {
                by: by@,
                since: opt_str(*since),
            },
            ClaimError::AlreadyInProgress { since } => ClaimErrorView::AlreadyInProgress {
                since: opt_str(*since),
            },
            ClaimError::AlreadyDone => ClaimErrorView::AlreadyDone,
            ClaimError::IsFailed => ClaimErrorView::IsFailed,
            ClaimError::IsAbandoned => ClaimErrorView::IsAbandoned,
            ClaimError::PendingReview => ClaimErrorView::PendingReview,
        }
    }
}

/// Only open or blocked tasks can be claimed.
pub open spec fn claimable(s: Status) -> bool {
    s == Status::Open || s == Status::Blocked
}

/// The refusal for a task that cannot be claimed.
pub open spec fn claim_refusal(t: TaskView) -> ClaimErrorView {
    match t.status {
        Status::InProgress => match t.assigned {
            Some(a) => ClaimErrorView::AlreadyClaimed { by: a, since: t.started_at },
            None => ClaimErrorView::AlreadyInProgress { since: t.started_at },
        },
        Status::Done => ClaimErrorView::AlreadyDone,
        Status::Failed => ClaimErrorView::IsFailed,
        Status::Abandoned => ClaimErrorView::IsAbandoned,
        _ => ClaimErrorView::PendingReview,
    }
}

pub open spec fn claim_message(actor: Option<Seq<char>>) -> Seq<char> {
    match actor {
        Some(a) => "Task claimed by @"@ + a,
        None => "Task claimed"@,
    }
}

/// The task after a claim at time `now`: in progress, started now, assigned
/// to the actor when one is given, and logged.
pub open spec fn claimed(t: TaskView, actor: Option<Seq<char>>, now: Seq<char>) -> TaskView {
    TaskView {
        status: Status::InProgress,
        started_at: Some(now),
        assigned: match actor {
            Some(a) => Some(a),
            None => t.assigned,
        },
        log: t.log.push(LogEntryView { timestamp: now, actor, message: claim_message(actor) }),
        ..t
    }
}

/// The outcome of claiming task `id` at time `now`.
pub open spec fn claim_result(nodes: Seq<NodeView>, id: Seq<char>, actor: Option<Seq<char>>, now: Seq<char>) -> (
    Seq<NodeView>,
    Result<(), ClaimErrorView>,
) {
    match task_index(nodes, id) {
        None => (nodes, Err(ClaimErrorView::NotFound)),
        Some(i) => {
            let t = task_at(nodes, i);
            if claimable(t.status) {
                (with_task(nodes, i, claimed(t, actor, now)), Ok(()))
            } else {
                (nodes, Err(claim_refusal(t)))
            }
        },
    }
}

pub open spec fn unit_result<E: View>(r: Result<(), E>) -> Result<(), E::V> {
    match r {
        Ok(()) => Ok(()),
        Err(e) => Err(e@),
    }
}

pub(crate) fn clone_opt(o: &Option<String>) -> (r: Option<String>)
    ensures
        opt_str(r) == opt_str(*o),
{
    match o {
        Some(s) => Some(s.clone()),
        None => None,
    }
}

fn opt_to_string(o: Option<&str>) -> (r: Option<String>)
    ensures
        opt_str(r) == match o {
            Some(s) => Some(s@),
            None => None,
        },
{
    match o {
        Some(s) => Some(s.to_string()),
        None => None,
    }
}

/// Claim task `id` at time `now`: an open or blocked task becomes in
/// progress, optionally assigned to `actor`; any other task is refused.
pub fn claim_task_at(graph: &mut WorkGraph, id: &str, actor: Option<&str>, now: &str) -> (r: Result<(), ClaimError>)
    ensures
        (final(graph)@, unit_result(r)) == claim_result(
            old(graph)@,
            id@,
            match actor {
                Some(a) => Some(a@),
                None => None,
            },
            now@,
        ),
{
    let ghost actor_v = match actor {
        Some(a) => Some(a@),
        None => None,
    };
    let i = match locate_task(graph, id) {
        Some(i) => i,
        None => return Err(ClaimError::NotFound),
    };
    let ghost old_nodes = graph@;
    assert(graph@[i as int] == graph.nodes@[i as int]@);
    let ghost t = task_at(old_nodes, i as int);
    let refusal: Option<ClaimError> = match &graph.nodes[i] {
        Node::Task(task) => match task.status {
            Status::Open | Status::Blocked => None,
            Status::InProgress => match &task.assigned {
                Some(a) => Some(ClaimError::AlreadyClaimed { by: a.clone(), since: clone_opt(&task.started_at) }),
                None => Some(ClaimError::AlreadyInProgress { since: clone_opt(&task.started_at) }),
            },
            Status::Done => Some(ClaimError::AlreadyDone),
            Status::Failed => Some(ClaimError::IsFailed),
            Status::Abandoned => Some(ClaimError::IsAbandoned),
            Status::PendingReview => Some(ClaimError::PendingReview),
        },
        Node::Resource(_) => None,
    };
    if let Some(e) = refusal {
        return Err(e);
    }
    let message = match actor {
        Some(a) => {
            let mut m = "Task claimed by @".to_string();
            m.append(a);
            m
        },
        None => "Task claimed".to_string(),
    };
    let entry = LogEntry { timestamp: now.to_string(), actor: opt_to_string(actor), message };
    let node = graph.nodes.remove(i);
    match node {
        Node::Task(mut task) => {
            let ghost tv = task@;
            task.status = Status::InProgress;
            task.started_at = Some(now.to_string());
            if let Some(a) = actor {
                task.assigned = Some(a.to_string());
            }
            let ghost logs = task.log@;
            task.log.push(entry);
            assert(task.log@.map_values(|e: LogEntry| e@) =~= logs.map_values(|e: LogEntry| e@).push(entry@));
            assert(task@ == claimed(tv, actor_v, now@));
            graph.nodes.insert(i, Node::Task(task));
        },
        Node::Resource(res) => {
            graph.nodes.insert(i, Node::Resource(res));
        },
    }
    assert(graph@ =~= with_task(old_nodes, i as int, claimed(t, actor_v, now@)));
    Ok(())
}

/// Why a task could not be released.
#[derive(Debug, Clone, Copy, PartialEq, Eq)]
pub enum UnclaimError {
    NotFound,
    /// The task is done, failed, abandoned or awaiting review.
    Terminal(Status),
}

pub open spec fn unclaimable(s: Status) -> bool {
    s == Status::InProgress || s == Status::Open || s == Status::Blocked
}

pub open spec fn unclaim_message(prev: Option<Seq<char>>) -> Seq<char> {
    match prev {
        Some(a) => "Task unclaimed (was assigned to @"@ + a + ")"@,
        None => "Task unclaimed"@,
    }
}

/// The task after being released at `now`: open, unassigned, logged with the
/// previous assignee as actor.
pub open spec fn unclaimed(t: TaskView, now: Seq<char>) -> TaskView {
    TaskView {
        status: Status::Open,
        assigned: None,
        log: t.log.push(LogEntryView { timestamp: now, actor: t.assigned, message: unclaim_message(t.assigned) }),
        ..t
    }
}

pub open spec fn unclaim_result(nodes: Seq<NodeView>, id: Seq<char>, now: Seq<char>) -> (Seq<NodeView>, Result<(), UnclaimError>) {
    match task_index(nodes, id) {
        None => (nodes, Err(UnclaimError::NotFound)),
        Some(i) => {
            let t = task_at(nodes, i);
            if unclaimable(t.status) {
                (with_task(nodes, i, unclaimed(t, now)), Ok(()))
            } else {
                (nodes, Err(UnclaimError::Terminal(t.status)))
            }
        },
    }
}

/// Release task `id` at time `now`: an in-progress, open or blocked task
/// becomes open and unassigned; finished tasks are refused.
pub fn unclaim_task_at(graph: &mut WorkGraph, id: &str, now: &str) -> (r: Result<(), UnclaimError>)
    ensures
        (final(graph)@, r) == unclaim_result(old(graph)@, id@, now@),
{
    let i = match locate_task(graph, id) {
        Some(i) => i,
        None => return Err(UnclaimError::NotFound),
    };
    let ghost old_nodes = graph@;
    let mut task = take_task(graph, i);
    let ghost tv = task@;
    match task.status {
        Status::InProgress | Status::Open | Status::Blocked => {},
        _ => {
            let st = task.status;
            put_task(graph, i, task);
            proof { lemma_remove_insert(old_nodes, i as int, old_nodes[i as int]); }
            assert(graph@ =~= old_nodes);
            return Err(UnclaimError::Terminal(st));
        },
    }
    let prev = clone_opt(&task.assigned);
    let message = match &task.assigned {
        Some(a) => {
            let mut m = "Task unclaimed (was assigned to @".to_string();
            m.append(a.as_str());
            m.append(")");
            m
        },
        None => "Task unclaimed".to_string(),
    };
    task.status = Status::Open;
    task.assigned = None;
    let ghost logs = task.log;
    let entry = LogEntry { timestamp: now.to_string(), actor: prev, message };
    task.log.push(entry);
    proof { lemma_push_log(logs, entry, task.log); }
    assert(task@ == unclaimed(tv, now@));
    put_task(graph, i, task);
    proof { lemma_remove_insert(old_nodes, i as int, NodeView::Task(unclaimed(tv, now@))); }
    Ok(())
}

// ---------------------------------------------------------------------------
// Completion
// ---------------------------------------------------------------------------

/// Blockers of `t` that name an existing task not yet in a terminal state.
pub open spec fn unresolved_blockers(nodes: Seq<NodeView>, blockers: Seq<Seq<char>>) -> Seq<Seq<char>>
    decreases blockers.len(),
{
    if blockers.len() == 0 {
        Seq::empty()
    } else {
        let rest = unresolved_blockers(nodes, blockers.drop_last());
        match lookup_task(nodes, blockers.last()) {
            Some(b) => if crate::graph::status_is_terminal(b.status) {
                rest
            } else {
                rest.push(blockers.last())
            },
            None => rest,
        }
    }
}

/// The blockers of task `id` that still hold it back, in `blocked_by` order.
pub fn blocked_by(graph: &WorkGraph, id: &str) -> (r: Vec<String>)
    ensures
        strs(r) == match lookup_task(graph@, id@) {
            Some(t) => unresolved_blockers(graph@, t.blocked_by),
            None => Seq::empty(),
        },
{
    let mut out: Vec<String> = Vec::new();
    assert(strs(out) =~= Seq::<Seq<char>>::empty());
    let task = match graph.get_task(id) {
        Some(t) => t,
        None => return out,
    };
    let ghost bb = strs(task.blocked_by);
    let mut k: usize = 0;
    while k < task.blocked_by.len()
        invariant
            k <= task.blocked_by.len(),
            bb == strs(task.blocked_by),
            strs(out) == unresolved_blockers(graph@, bb.take(k as int)),
        decreases task.blocked_by.len() - k,
    {
        let b = &task.blocked_by[k];
        assert(bb.take(k + 1).drop_last() =~= bb.take(k as int));
        assert(bb.take(k + 1).last() == b@);
        if let Some(bt) = graph.get_task(b.as_str()) {
            if !bt.status.is_terminal() {
                let ghost before = strs(out);
                out.push(b.clone());
                assert(strs(out) =~= before.push(b@));
            }
        }
        k = k + 1;
    }
    assert(bb.take(task.blocked_by.len() as int) =~= bb);
    out
}

/// Why a task could not be completed.
#[derive(Debug, Clone, PartialEq, Eq)]
pub enum DoneError {
    NotFound,
    /// Unresolved blockers, by id.
    Blocked(Vec<String>),
    /// The task has verification criteria and must go through review.
    NeedsVerification,
}

pub ghost enum DoneErrorView {
    NotFound,
    Blocked(Seq<Seq<char>>),
    NeedsVerification,
}

impl View for DoneError {
    type V = DoneErrorView;

    open spec fn view(&self) -> DoneErrorView {
        match self {
            DoneError::NotFound => DoneErrorView::NotFound,
            DoneError::Blocked(v) => DoneErrorView::Blocked(strs(*v)),
            DoneError::NeedsVerification => DoneErrorView::NeedsVerification,
        }
    }
}

/// The task after completion at `now`, logged with `actor`.
pub open spec fn completed(t: TaskView, actor: Option<Seq<char>>, message: Seq<char>, now: Seq<char>) -> TaskView {
    TaskView {
        status: Status::Done,
        completed_at: Some(now),
        log: t.log.push(LogEntryView { timestamp: now, actor, message }),
        ..t
    }
}

/// The outcome of marking task `id` done at `now`: `Ok(false)` when it
/// already was, `Ok(true)` when it now is.
pub open spec fn done_result(nodes: Seq<NodeView>, id: Seq<char>, now: Seq<char>) -> (Seq<NodeView>, Result<bool, DoneErrorView>) {
    match task_index(nodes, id) {
        None => (nodes, Err(DoneErrorView::NotFound)),
        Some(i) => {
            let t = task_at(nodes, i);
            let blockers = unresolved_blockers(nodes, t.blocked_by);
            if t.status == Status::Done {
                (nodes, Ok(false))
            } else if blockers.len() > 0 {
                (nodes, Err(DoneErrorView::Blocked(blockers)))
            } else if t.verify is Some {
                (nodes, Err(DoneErrorView::NeedsVerification))
            } else {
                (with_task(nodes, i, completed(t, t.assigned, "Task marked as done"@, now)), Ok(true))
            }
        },
    }
}

pub open spec fn bool_result<E: View>(r: Result<bool, E>) -> Result<bool, E::V> {
    match r {
        Ok(b) => Ok(b),
        Err(e) => Err(e@),
    }
}

/// Mark task `id` done at time `now`. Done tasks are left alone; tasks with
/// unresolved blockers or with verification criteria are refused.
pub fn mark_done_at(graph: &mut WorkGraph, id: &str, now: &str) -> (r: Result<bool, DoneError>)
    ensures
        (final(graph)@, bool_result(r)) == done_result(old(graph)@, id@, now@),
{
    let i = match locate_task(graph, id) {
        Some(i) => i,
        None => return Err(DoneError::NotFound),
    };
    let ghost old_nodes = graph@;
    assert(graph@[i as int] == graph.nodes@[i as int]@);
    let (is_done, has_verify) = match &graph.nodes[i] {
        Node::Task(t) => (t.status == Status::Done, t.verify.is_some()),
        Node::Resource(_) => (false, false),
    };
    if is_done {
        return Ok(false);
    }
    let blockers = blocked_by(graph, id);
    proof { crate::graph::lemma_find_node(old_nodes, id@); }
    if blockers.len() > 0 {
        return Err(DoneError::Blocked(blockers));
    }
    if has_verify {
        return Err(DoneError::NeedsVerification);
    }
    let mut task = take_task(graph, i);
    let ghost tv = task@;
    let actor = clone_opt(&task.assigned);
    task.status = Status::Done;
    task.completed_at = Some(now.to_string());
    let ghost logs = task.log;
    let entry = LogEntry { timestamp: now.to_string(), actor, message: "Task marked as done".to_string() };
    task.log.push(entry);
    proof { lemma_push_log(logs, entry, task.log); }
    assert(task@ == completed(tv, tv.assigned, "Task marked as done"@, now@));
    put_task(graph, i, task);
    proof { lemma_remove_insert(old_nodes, i as int, NodeView::Task(completed(tv, tv.assigned, "Task marked as done"@, now@))); }
    Ok(true)
}

/// Why a review could not be approved.
#[derive(Debug, Clone, PartialEq, Eq)]
pub enum ApproveError {
    NotFound,
    /// The task is not awaiting review; carries its status.
    NotPendingReview(Status),
    Blocked(Vec<String>),
}

pub ghost enum ApproveErrorView {
    NotFound,
    NotPendingReview(Status),
    Blocked(Seq<Seq<char>>),
}

impl View for ApproveError {
    type V = ApproveErrorView;

    open spec fn view(&self) -> ApproveErrorView {
        match self {
            ApproveError::NotFound => ApproveErrorView::NotFound,
            ApproveError::NotPendingReview(s) => ApproveErrorView::NotPendingReview(*s),
            ApproveError::Blocked(v) => ApproveErrorView::Blocked(strs(*v)),
        }
    }
}

pub open spec fn approve_result(nodes: Seq<NodeView>, id: Seq<char>, actor: Option<Seq<char>>, now: Seq<char>) -> (Seq<NodeView>, Result<(), ApproveErrorView>) {
    match task_index(nodes, id) {
        None => (nodes, Err(ApproveErrorView::NotFound)),
        Some(i) => {
            let t = task_at(nodes, i);
            let blockers = unresolved_blockers(nodes, t.blocked_by);
            if t.status != Status::PendingReview {
                (nodes, Err(ApproveErrorView::NotPendingReview(t.status)))
            } else if blockers.len() > 0 {
                (nodes, Err(ApproveErrorView::Blocked(blockers)))
            } else {
                (with_task(nodes, i, completed(t, actor, "Work approved and marked done"@, now)), Ok(()))
            }
        },
    }
}

/// Approve a task awaiting review at time `now`: it becomes done.
pub fn approve_task_at(graph: &mut WorkGraph, id: &str, actor: Option<&str>, now: &str) -> (r: Result<(), ApproveError>)
    ensures
        (final(graph)@, unit_result(r)) == approve_result(
            old(graph)@,
            id@,
            match actor {
                Some(a) => Some(a@),
                None => None,
            },
            now@,
        ),
{
    let ghost actor_v = match actor {
        Some(a) => Some(a@),
        None => None,
    };
    let i = match locate_task(graph, id) {
        Some(i) => i,
        None => return Err(ApproveError::NotFound),
    };
    let ghost old_nodes = graph@;
    assert(graph@[i as int] == graph.nodes@[i as int]@);
    let status = match &graph.nodes[i] {
        Node::Task(t) => t.status,
        Node::Resource(_) => Status::Open,
    };
    if status != Status::PendingReview {
        return Err(ApproveError::NotPendingReview(status));
    }
    let blockers = blocked_by(graph, id);
    proof { crate::graph::lemma_find_node(old_nodes, id@); }
    if blockers.len() > 0 {
        return Err(ApproveError::Blocked(blockers));
    }
    let mut task = take_task(graph, i);
    let ghost tv = task@;
    task.status = Status::Done;
    task.completed_at = Some(now.to_string());
    let ghost logs = task.log;
    let entry = LogEntry {
        timestamp: now.to_string(),
        actor: opt_to_string(actor),
        message: "Work approved and marked done".to_string(),
    };
    task.log.push(entry);
    proof { lemma_push_log(logs, entry, task.log); }
    assert(task@ == completed(tv, actor_v, "Work approved and marked done"@, now@));
    put_task(graph, i, task);
    proof { lemma_remove_insert(old_nodes, i as int, NodeView::Task(completed(tv, actor_v, "Work approved and marked done"@, now@))); }
    Ok(())
}

// ---------------------------------------------------------------------------
// Abandon
// ---------------------------------------------------------------------------

#[derive(Debug, Clone, Copy, PartialEq, Eq)]
pub enum AbandonError {
    NotFound,
    AlreadyDone,
}

pub open spec fn abandon_message(reason: Option<Seq<char>>) -> Seq<char> {
    match reason {
        Some(r) => "Task abandoned: "@ + r,
        None => "Task abandoned"@,
    }
}

pub open spec fn abandoned(t: TaskView, reason: Option<Seq<char>>, now: Seq<char>) -> TaskView {
    TaskView {
        status: Status::Abandoned,
        failure_reason: reason,
        log: t.log.push(LogEntryView { timestamp: now, actor: t.assigned, message: abandon_message(reason) }),
        ..t
    }
}

/// `Ok(false)` when the task was already abandoned, `Ok(true)` when it now is.
pub open spec fn abandon_result(nodes: Seq<NodeView>, id: Seq<char>, reason: Option<Seq<char>>, now: Seq<char>) -> (Seq<NodeView>, Result<bool, AbandonError>) {
    match task_index(nodes, id) {
        None => (nodes, Err(AbandonError::NotFound)),
        Some(i) => {
            let t = task_at(nodes, i);
            if t.status == Status::Done {
                (nodes, Err(AbandonError::AlreadyDone))
            } else if t.status == Status::Abandoned {
                (nodes, Ok(false))
            } else {
                (with_task(nodes, i, abandoned(t, reason, now)), Ok(true))
            }
        },
    }
}

/// Abandon task `id` at time `now`, recording the reason.
pub fn abandon_task_at(graph: &mut WorkGraph, id: &str, reason: Option<&str>, now: &str) -> (r: Result<bool, AbandonError>)
    ensures
        (final(graph)@, r) == abandon_result(
            old(graph)@,
            id@,
            match reason {
                Some(a) => Some(a@),
                None => None,
            },
            now@,
        ),
{
    let ghost reason_v = match reason {
        Some(a) => Some(a@),
        None => None,
    };
    let i = match locate_task(graph, id) {
        Some(i) => i,
        None => return Err(AbandonError::NotFound),
    };
    let ghost old_nodes = graph@;
    assert(graph@[i as int] == graph.nodes@[i as int]@);
    let status = match &graph.nodes[i] {
        Node::Task(t) => t.status,
        Node::Resource(_) => Status::Open,
    };
    if status == Status::Done {
        return Err(AbandonError::AlreadyDone);
    }
    if status == Status::Abandoned {
        return Ok(false);
    }
    let mut task = take_task(graph, i);
    let ghost tv = task@;
    task.status = Status::Abandoned;
    task.failure_reason = opt_to_string(reason);
    let message = match reason {
        Some(r) => {
            let mut m = "Task abandoned: ".to_string();
            m.append(r);
            m
        },
        None => "Task abandoned".to_string(),
    };
    let ghost logs = task.log;
    let entry = LogEntry { timestamp: now.to_string(), actor: clone_opt(&task.assigned), message };
    task.log.push(entry);
    proof { lemma_push_log(logs, entry, task.log); }
    assert(task@ == abandoned(tv, reason_v, now@));
    put_task(graph, i, task);
    proof { lemma_remove_insert(old_nodes, i as int, NodeView::Task(abandoned(tv, reason_v, now@))); }
    Ok(true)
}

// ---------------------------------------------------------------------------
// Artifacts
// ---------------------------------------------------------------------------

#[derive(Debug, Clone, Copy, PartialEq, Eq)]
pub enum ArtifactError {
    TaskNotFound,
    ArtifactNotFound,
}

/// Registering an artifact: `Ok(false)` when it already was, `Ok(true)` when
/// it was appended.
pub open spec fn add_artifact_result(nodes: Seq<NodeView>, id: Seq<char>, path: Seq<char>) -> (Seq<NodeView>, Result<bool, ArtifactError>) {
    match task_index(nodes, id) {
        None => (nodes, Err(ArtifactError::TaskNotFound)),
        Some(i) => {
            let t = task_at(nodes, i);
            if t.artifacts.contains(path) {
                (nodes, Ok(false))
            } else {
                (with_task(nodes, i, TaskView { artifacts: t.artifacts.push(path), ..t }), Ok(true))
            }
        },
    }
}

/// Register a produced artifact for task `id`.
pub fn add_artifact(graph: &mut WorkGraph, id: &str, path: &str) -> (r: Result<bool, ArtifactError>)
    ensures
        (final(graph)@, r) == add_artifact_result(old(graph)@, id@, path@),
{
    let i = match locate_task(graph, id) {
        Some(i) => i,
        None => return Err(ArtifactError::TaskNotFound),
    };
    let ghost old_nodes = graph@;
    assert(graph@[i as int] == graph.nodes@[i as int]@);
    let present = match &graph.nodes[i] {
        Node::Task(t) => crate::text::contains_str(&t.artifacts, path),
        Node::Resource(_) => false,
    };
    if present {
        return Ok(false);
    }
    let mut task = take_task(graph, i);
    let ghost tv = task@;
    let ghost arts = task.artifacts;
    task.artifacts.push(path.to_string());
    assert(strs(task.artifacts) =~= strs(arts).push(path@));
    assert(task@ == TaskView { artifacts: tv.artifacts.push(path@), ..tv });
    put_task(graph, i, task);
    proof { lemma_remove_insert(old_nodes, i as int, NodeView::Task(TaskView { artifacts: tv.artifacts.push(path@), ..tv })); }
    Ok(true)
}

/// Every entry of `v` other than `x`, in order.
pub open spec fn without(v: Seq<Seq<char>>, x: Seq<char>) -> Seq<Seq<char>> {
    v.filter(|y: Seq<char>| y != x)
}

pub open spec fn remove_artifact_result(nodes: Seq<NodeView>, id: Seq<char>, path: Seq<char>) -> (Seq<NodeView>, Result<(), ArtifactError>) {
    match task_index(nodes, id) {
        None => (nodes, Err(ArtifactError::TaskNotFound)),
        Some(i) => {
            let t = task_at(nodes, i);
            if !t.artifacts.contains(path) {
                (nodes, Err(ArtifactError::ArtifactNotFound))
            } else {
                (with_task(nodes, i, TaskView { artifacts: without(t.artifacts, path), ..t }), Ok(()))
            }
        },
    }
}

/// Every entry of `v` other than `x`, in order.
pub fn retain_other(v: &Vec<String>, x: &str) -> (r: Vec<String>)
    ensures
        strs(r) == without(strs(*v), x@),
{
    let ghost sv = strs(*v);
    let mut out: Vec<String> = Vec::new();
    let mut k: usize = 0;
    assert(strs(out) =~= without(sv.take(0), x@)) by {
        reveal_with_fuel(Seq::filter, 1);
        assert(sv.take(0) =~= Seq::<Seq<char>>::empty());
    }
    while k < v.len()
        invariant
            k <= v.len(),
            sv == strs(*v),
            strs(out) == without(sv.take(k as int), x@),
        decreases v.len() - k,
    {
        assert(sv.take(k + 1).drop_last() =~= sv.take(k as int));
        let ghost before = strs(out);
        if !crate::text::str_eq(v[k].as_str(), x) {
            out.push(v[k].clone());
            assert(strs(out) =~= before.push(v@[k as int]@));
        }
        assert(strs(out) == without(sv.take(k + 1), x@)) by {
            reveal_with_fuel(Seq::filter, 1);
        }
        k = k + 1;
    }
    assert(sv.take(v.len() as int) =~= sv);
    out
}

/// Remove every registration of an artifact from task `id`.
pub fn remove_artifact(graph: &mut WorkGraph, id: &str, path: &str) -> (r: Result<(), ArtifactError>)
    ensures
        (final(graph)@, r) == remove_artifact_result(old(graph)@, id@, path@),
{
    let i = match locate_task(graph, id) {
        Some(i) => i,
        None => return Err(ArtifactError::TaskNotFound),
    };
    let ghost old_nodes = graph@;
    assert(graph@[i as int] == graph.nodes@[i as int]@);
    let present = match &graph.nodes[i] {
        Node::Task(t) => crate::text::contains_str(&t.artifacts, path),
        Node::Resource(_) => false,
    };
    if !present {
        return Err(ArtifactError::ArtifactNotFound);
    }
    let mut task = take_task(graph, i);
    let ghost tv = task@;
    task.artifacts = retain_other(&task.artifacts, path);
    assert(task@ == TaskView { artifacts: without(tv.artifacts, path@), ..tv });
    put_task(graph, i, task);
    proof { lemma_remove_insert(old_nodes, i as int, NodeView::Task(TaskView { artifacts: without(tv.artifacts, path@), ..tv })); }
    Ok(())
}

// ---------------------------------------------------------------------------
// Agent assignment
// ---------------------------------------------------------------------------

/// Set (or clear, with `None`) the agent of task `id`; returns the previous
/// agent, or `None` when the task does not exist.
pub fn set_task_agent(graph: &mut WorkGraph, id: &str, agent: Option<&str>) -> (r: Option<Option<String>>)
    ensures
        match task_index(old(graph)@, id@) {
            None => r is None && final(graph)@ == old(graph)@,
            Some(i) => r is Some && opt_str(r->0) == task_at(old(graph)@, i).agent && final(graph)@ == with_task(
                old(graph)@,
                i,
                TaskView {
                    agent: match agent {
                        Some(a) => Some(a@),
                        None => None,
                    },
                    ..task_at(old(graph)@, i)
                },
            ),
        },
{
    let i = match locate_task(graph, id) {
        Some(i) => i,
        None => return None,
    };
    let ghost old_nodes = graph@;
    let mut task = take_task(graph, i);
    let ghost tv = task@;
    let prev = clone_opt(&task.agent);
    task.agent = opt_to_string(agent);
    let ghost nt = TaskView {
        agent: match agent {
            Some(a) => Some(a@),
            None => None,
        },
        ..tv
    };
    assert(task@ == nt);
    put_task(graph, i, task);
    proof { lemma_remove_insert(old_nodes, i as int, NodeView::Task(nt)); }
    Some(prev)
}

/// Reopen the task at position `i`: open, unassigned, with `entry` logged.
pub fn release_task_at(graph: &mut WorkGraph, i: usize, entry: LogEntry)
    requires
        (i as int) < old(graph)@.len(),
        old(graph)@[i as int] is Task,
    ensures
        final(graph)@ == with_task(
            old(graph)@,
            i as int,
            TaskView {
                status: Status::Open,
                assigned: None,
                log: task_at(old(graph)@, i as int).log.push(entry@),
                ..task_at(old(graph)@, i as int)
            },
        ),
{
    let ghost old_nodes = graph@;
    let mut task = take_task(graph, i);
    let ghost tv = task@;
    task.status = Status::Open;
    task.assigned = None;
    let ghost logs = task.log;
    let ghost ev = entry@;
    task.log.push(entry);
    proof { lemma_push_log(logs, entry, task.log); }
    let ghost nt = TaskView { status: Status::Open, assigned: None, log: tv.log.push(ev), ..tv };
    assert(task@ == nt);
    put_task(graph, i, task);
    proof { lemma_remove_insert(old_nodes, i as int, NodeView::Task(nt)); }
}

// ---------------------------------------------------------------------------
// Autonomous agent steps
// ---------------------------------------------------------------------------

/// The task after an autonomous agent takes it at `now`.
pub open spec fn agent_claimed(t: TaskView, actor: Seq<char>, now: Seq<char>) -> TaskView {
    TaskView {
        status: Status::InProgress,
        assigned: Some(actor),
        started_at: Some(now),
        log: t.log.push(LogEntryView { timestamp: now, actor: Some(actor), message: "Claimed by autonomous agent"@ }),
        ..t
    }
}

/// An autonomous agent takes task `id` at `now`; false when it does not exist.
pub fn agent_claim_at(graph: &mut WorkGraph, id: &str, actor: &str, now: &str) -> (found: bool)
    ensures
        match task_index(old(graph)@, id@) {
            None => !found && final(graph)@ == old(graph)@,
            Some(i) => found && final(graph)@ == with_task(old(graph)@, i, agent_claimed(task_at(old(graph)@, i), actor@, now@)),
        },
{
    let i = match locate_task(graph, id) {
        Some(i) => i,
        None => return false,
    };
    let ghost old_nodes = graph@;
    let mut task = take_task(graph, i);
    let ghost tv = task@;
    task.status = Status::InProgress;
    task.assigned = Some(actor.to_string());
    task.started_at = Some(now.to_string());
    let ghost logs = task.log;
    let entry = LogEntry {
        timestamp: now.to_string(),
        actor: Some(actor.to_string()),
        message: "Claimed by autonomous agent".to_string(),
    };
    task.log.push(entry);
    proof { lemma_push_log(logs, entry, task.log); }
    assert(task@ == agent_claimed(tv, actor@, now@));
    put_task(graph, i, task);
    proof { lemma_remove_insert(old_nodes, i as int, NodeView::Task(agent_claimed(tv, actor@, now@))); }
    true
}

/// An autonomous agent completes task `id` at `now`; false when it does not exist.
pub fn agent_complete_at(graph: &mut WorkGraph, id: &str, actor: &str, now: &str) -> (found: bool)
    ensures
        match task_index(old(graph)@, id@) {
            None => !found && final(graph)@ == old(graph)@,
            Some(i) => found && final(graph)@ == with_task(
                old(graph)@,
                i,
                completed(task_at(old(graph)@, i), Some(actor@), "Completed by autonomous agent"@, now@),
            ),
        },
{
    let i = match locate_task(graph, id) {
        Some(i) => i,
        None => return false,
    };
    let ghost old_nodes = graph@;
    let mut task = take_task(graph, i);
    let ghost tv = task@;
    task.status = Status::Done;
    task.completed_at = Some(now.to_string());
    let ghost logs = task.log;
    let entry = LogEntry {
        timestamp: now.to_string(),
        actor: Some(actor.to_string()),
        message: "Completed by autonomous agent".to_string(),
    };
    task.log.push(entry);
    proof { lemma_push_log(logs, entry, task.log); }
    let ghost nt = completed(tv, Some(actor@), "Completed by autonomous agent"@, now@);
    assert(task@ == nt);
    put_task(graph, i, task);
    proof { lemma_remove_insert(old_nodes, i as int, NodeView::Task(nt)); }
    true
}

/// The task after an autonomous agent's attempt failed at `now`.
pub open spec fn agent_failed(t: TaskView, actor: Seq<char>, reason: Seq<char>, now: Seq<char>) -> TaskView {
    TaskView {
        status: Status::Failed,
        retry_count: (t.retry_count + 1) as u32,
        failure_reason: Some(reason),
        log: t.log.push(LogEntryView { timestamp: now, actor: Some(actor), message: "Failed: "@ + reason }),
        ..t
    }
}

/// An autonomous agent's attempt at task `id` failed at `now`; false when the
/// task does not exist.
pub fn agent_fail_at(graph: &mut WorkGraph, id: &str, actor: &str, reason: &str, now: &str) -> (found: bool)
    requires
        match task_index(old(graph)@, id@) {
            Some(i) => task_at(old(graph)@, i).retry_count < u32::MAX,
            None => true,
        },
    ensures
        match task_index(old(graph)@, id@) {
            None => !found && final(graph)@ == old(graph)@,
            Some(i) => found && final(graph)@ == with_task(old(graph)@, i, agent_failed(task_at(old(graph)@, i), actor@, reason@, now@)),
        },
{
    let i = match locate_task(graph, id) {
        Some(i) => i,
        None => return false,
    };
    let ghost old_nodes = graph@;
    let mut task = take_task(graph, i);
    let ghost tv = task@;
    task.status = Status::Failed;
    task.retry_count = task.retry_count + 1;
    task.failure_reason = Some(reason.to_string());
    let mut message = "Failed: ".to_string();
    message.append(reason);
    let ghost logs = task.log;
    let entry = LogEntry { timestamp: now.to_string(), actor: Some(actor.to_string()), message };
    task.log.push(entry);
    proof { lemma_push_log(logs, entry, task.log); }
    let ghost nt = agent_failed(tv, actor@, reason@, now@);
    assert(task@ == nt);
    put_task(graph, i, task);
    proof { lemma_remove_insert(old_nodes, i as int, NodeView::Task(nt)); }
    true
}

// ---------------------------------------------------------------------------
// Laws
// ---------------------------------------------------------------------------

/// Updating a node without changing its id leaves every lookup position alone.
pub proof fn lemma_find_after_update(nodes: Seq<NodeView>, i: int, x: NodeView, id: Seq<char>)
    requires
        0 <= i < nodes.len(),
        crate::graph::node_id(x) == crate::graph::node_id(nodes[i]),
    ensures
        find_node(nodes.update(i, x), id) == find_node(nodes, id),
    decreases nodes.len(),
{
    let u = nodes.update(i, x);
    if i < nodes.len() - 1 {
        assert(u.drop_last() =~= nodes.drop_last().update(i, x));
        lemma_find_after_update(nodes.drop_last(), i, x, id);
    } else {
        assert(u.drop_last() =~= nodes.drop_last());
    }
}

/// Claiming is exclusive: once a claim succeeds, any further claim of the
/// same task is refused as already claimed or already in progress, until the
/// task is released.
pub proof fn law_claim_is_exclusive(
    nodes: Seq<NodeView>,
    id: Seq<char>,
    actor: Option<Seq<char>>,
    now: Seq<char>,
    other: Option<Seq<char>>,
    later: Seq<char>,
)
    requires
        claim_result(nodes, id, actor, now).1 is Ok,
    ensures
        ({
            let after = claim_result(nodes, id, actor, now).0;
            let second = claim_result(after, id, other, later);
            &&& second.0 == after
            &&& (second.1 matches Err(ClaimErrorView::AlreadyClaimed { .. }) || second.1 matches Err(
                ClaimErrorView::AlreadyInProgress { .. },
            ))
        }),
{
    let i = task_index(nodes, id)->0;
    let t = task_at(nodes, i);
    crate::graph::lemma_find_node(nodes, id);
    lemma_find_after_update(nodes, i, NodeView::Task(claimed(t, actor, now)), id);
}

/// Releasing a claimed task makes it open, unassigned and claimable again.
pub proof fn law_unclaim_undoes_claim(
    nodes: Seq<NodeView>,
    id: Seq<char>,
    actor: Option<Seq<char>>,
    now: Seq<char>,
    later: Seq<char>,
)
    requires
        claim_result(nodes, id, actor, now).1 is Ok,
    ensures
        ({
            let after = claim_result(nodes, id, actor, now).0;
            let released = unclaim_result(after, id, later);
            let i = task_index(nodes, id)->0;
            &&& released.1 is Ok
            &&& task_index(released.0, id) == Some(i)
            &&& task_at(released.0, i).status == Status::Open
            &&& task_at(released.0, i).assigned is None
            &&& claimable(task_at(released.0, i).status)
            &&& forall|j: int| 0 <= j < nodes.len() && j != i ==> released.0[j] == nodes[j]
        }),
{
    let i = task_index(nodes, id)->0;
    let t = task_at(nodes, i);
    crate::graph::lemma_find_node(nodes, id);
    let after = claim_result(nodes, id, actor, now).0;
    lemma_find_after_update(nodes, i, NodeView::Task(claimed(t, actor, now)), id);
    let t2 = task_at(after, i);
    lemma_find_after_update(after, i, NodeView::Task(unclaimed(t2, later)), id);
}

/// Registering an artifact that was not registered and then removing it
/// gives back the artifact list the task had before.
pub proof fn law_artifact_add_then_remove(nodes: Seq<NodeView>, id: Seq<char>, path: Seq<char>)
    requires
        add_artifact_result(nodes, id, path).1 == Ok::<bool, ArtifactError>(true),
    ensures
        ({
            let added = add_artifact_result(nodes, id, path).0;
            let removed = remove_artifact_result(added, id, path);
            &&& removed.1 is Ok
            &&& removed.0 == nodes
        }),
{
    let i = task_index(nodes, id)->0;
    let t = task_at(nodes, i);
    crate::graph::lemma_find_node(nodes, id);
    let t2 = TaskView { artifacts: t.artifacts.push(path), ..t };
    lemma_find_after_update(nodes, i, NodeView::Task(t2), id);
    let added = add_artifact_result(nodes, id, path).0;
    assert(t2.artifacts.contains(path)) by {
        assert(t2.artifacts[t.artifacts.len() as int] == path);
    }
    lemma_without_absent(t.artifacts, path);
    assert(without(t2.artifacts, path) == t.artifacts) by {
        reveal_with_fuel(Seq::filter, 1);
        assert(t2.artifacts.drop_last() =~= t.artifacts);
    }
    let t3 = TaskView { artifacts: without(t2.artifacts, path), ..t2 };
    assert(t3 == t);
    assert(with_task(added, i, t3) =~= nodes);
}

proof fn lemma_without_absent(v: Seq<Seq<char>>, x: Seq<char>)
    requires
        !v.contains(x),
    ensures
        without(v, x) == v,
    decreases v.len(),
{
    reveal_with_fuel(Seq::filter, 1);
    if v.len() > 0 {
        assert(!v.drop_last().contains(x)) by {
            if v.drop_last().contains(x) {
                let j = choose|j: int| 0 <= j < v.drop_last().len() && v.drop_last()[j] == x;
                assert(v[j] == x);
            }
        }
        lemma_without_absent(v.drop_last(), x);
        assert(v.last() != x) by {
            assert(v[v.len() - 1] == v.last());
        }
        assert(v.drop_last().push(v.last()) =~= v);
    }
}

/// Registering an artifact twice changes nothing the second time.
pub proof fn law_artifact_add_idempotent(nodes: Seq<NodeView>, id: Seq<char>, path: Seq<char>)
    requires
        add_artifact_result(nodes, id, path).1 is Ok,
    ensures
        ({
            let added = add_artifact_result(nodes, id, path).0;
            add_artifact_result(added, id, path) == (added, Ok::<bool, ArtifactError>(false))
        }),
{
    let i = task_index(nodes, id)->0;
    let t = task_at(nodes, i);
    crate::graph::lemma_find_node(nodes, id);
    if !t.artifacts.contains(path) {
        let t2 = TaskView { artifacts: t.artifacts.push(path), ..t };
        lemma_find_after_update(nodes, i, NodeView::Task(t2), id);
        assert(t2.artifacts[t.artifacts.len() as int] == path);
    }
}

/// Completing a task twice: the second time reports it was already done and
/// changes nothing.
pub proof fn law_done_idempotent(nodes: Seq<NodeView>, id: Seq<char>, now: Seq<char>, later: Seq<char>)
    requires
        done_result(nodes, id, now).1 is Ok,
    ensures
        ({
            let after = done_result(nodes, id, now).0;
            done_result(after, id, later) == (after, Ok::<bool, DoneErrorView>(false))
        }),
{
    let i = task_index(nodes, id)->0;
    let t = task_at(nodes, i);
    crate::graph::lemma_find_node(nodes, id);
    if t.status != Status::Done {
        lemma_find_after_update(nodes, i, NodeView::Task(completed(t, t.assigned, "Task marked as done"@, now)), id);
    }
}

/// Marking a task done unblocks its dependents: an open task each of whose
/// blockers is either that task or was already resolved becomes ready, and
/// every blocker resolved before stays resolved.
pub proof fn law_done_unblocks_dependents(nodes: Seq<NodeView>, id: Seq<char>, now: Seq<char>, t: TaskView)
    requires
        done_result(nodes, id, now).1 == Ok::<bool, DoneErrorView>(true),
        t.status == Status::Open,
        forall|k: int|
            0 <= k < t.blocked_by.len() ==> #[trigger] t.blocked_by[k] == id || crate::coordinate::blocker_resolved(
                nodes,
                t.blocked_by[k],
            ),
    ensures
        crate::coordinate::is_ready(done_result(nodes, id, now).0, t),
        forall|b: Seq<char>|
            crate::coordinate::blocker_resolved(nodes, b) ==> #[trigger] crate::coordinate::blocker_resolved(
                done_result(nodes, id, now).0,
                b,
            ),
{
    let i = task_index(nodes, id)->0;
    let old_t = task_at(nodes, i);
    let x = NodeView::Task(completed(old_t, old_t.assigned, "Task marked as done"@, now));
    let after = done_result(nodes, id, now).0;
    crate::graph::lemma_find_node(nodes, id);
    assert(after == nodes.update(i, x));
    assert forall|b: Seq<char>| crate::coordinate::blocker_resolved(nodes, b) || b == id implies #[trigger] crate::coordinate::blocker_resolved(
        after,
        b,
    ) by {
        lemma_find_after_update(nodes, i, x, b);
        crate::graph::lemma_find_node(nodes, b);
        if b != id {
            let j = find_node(nodes, b)->0;
            assert(j != i);
            assert(after[j] == nodes[j]);
        }
    }
    assert forall|k: int| 0 <= k < t.blocked_by.len() implies crate::coordinate::blocker_resolved(
        after,
        #[trigger] t.blocked_by[k],
    ) by {
        let b = t.blocked_by[k];
        assert(crate::coordinate::blocker_resolved(nodes, b) || b == id);
    }
}

} // verus!
