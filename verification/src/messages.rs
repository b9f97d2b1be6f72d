//! The texts of refusals, as a user reads them.
use vstd::prelude::*;
use vstd::string::*;
use crate::graph::{NodeView, Status, WorkGraph, lookup_task, strs};
use crate::ops::{AbandonError, ApproveError, ArtifactError, ClaimError, DoneError, UnclaimError};
use crate::agency::joined;
use crate::fmt::{decimal, push_u64};
use crate::parse::{GuardError, GuardErrorView};
use crate::add::{AddError, AddErrorView};
use crate::edit::{EditError, EditErrorView};

verus! {

/// The name of a status as `{:?}` prints it.
pub open spec fn status_name(s: Status) -> Seq<char> {
    match s {
        Status::Open => "Open"@,
        Status::InProgress => "InProgress"@,
        Status::Done => "Done"@,
        Status::Blocked => "Blocked"@,
        Status::Failed => "Failed"@,
        Status::Abandoned => "Abandoned"@,
        Status::PendingReview => "PendingReview"@,
    }
}

/// The name of a status as `{:?}` prints it.
pub fn status_text(s: Status) -> (r: &'static str)
    ensures
        r@ == status_name(s),
{
    match s {
        Status::Open => "Open",
        Status::InProgress => "InProgress",
        Status::Done => "Done",
        Status::Blocked => "Blocked",
        Status::Failed => "Failed",
        Status::Abandoned => "Abandoned",
        Status::PendingReview => "PendingReview",
    }
}

/// `Task '<id>' not found`.
pub open spec fn not_found_text(id: Seq<char>) -> Seq<char> {
    "Task '"@ + id + "' not found"@
}

pub fn not_found(id: &str) -> (r: String)
    ensures
        r@ == not_found_text(id@),
{
    let mut m = "Task '".to_string();
    m.append(id);
    m.append("' not found");
    m
}

/// ` (since <time>)` when the start time is known.
pub open spec fn since_text(since: Option<Seq<char>>) -> Seq<char> {
    match since {
        Some(t) => " (since "@ + t + ")"@,
        None => Seq::empty(),
    }
}

/// The text of a refused claim of task `id`.
pub open spec fn claim_error_text(id: Seq<char>, e: crate::ops::ClaimErrorView) -> Seq<char> {
    match e {
        crate::ops::ClaimErrorView::NotFound => not_found_text(id),
        crate::ops::ClaimErrorView::AlreadyClaimed { by, since } => "Task '"@ + id + "' is already claimed by @"@ + by
            + since_text(since) + ". Use 'wg unclaim "@ + id + "' to release it first."@,
        crate::ops::ClaimErrorView::AlreadyInProgress { since } => "Task '"@ + id + "' is already in progress"@
            + since_text(since),
        crate::ops::ClaimErrorView::AlreadyDone => "Task '"@ + id + "' is already done"@,
        crate::ops::ClaimErrorView::IsFailed => "Cannot claim task '"@ + id + "': task is Failed. Use 'wg retry' to retry it."@,
        crate::ops::ClaimErrorView::IsAbandoned => "Cannot claim task '"@ + id + "': task is Abandoned"@,
        crate::ops::ClaimErrorView::PendingReview => "Cannot claim task '"@ + id + "': task is PendingReview"@,
    }
}

fn push_since(m: &mut String, since: &Option<String>)
    ensures
        final(m)@ == old(m)@ + since_text(crate::graph::opt_str(*since)),
{
    if let Some(t) = since {
        m.append(" (since ");
        m.append(t.as_str());
        m.append(")");
    }
    assert(m@ =~= old(m)@ + since_text(crate::graph::opt_str(*since)));
}

/// The text of a refused claim of task `id`.
pub fn claim_error_message(id: &str, e: &ClaimError) -> (r: String)
    ensures
        r@ == claim_error_text(id@, e@),
{
    match e {
        ClaimError::NotFound => not_found(id),
        ClaimError::AlreadyClaimed { by, since } => {
            let mut m = "Task '".to_string();
            m.append(id);
            m.append("' is already claimed by @");
            m.append(by.as_str());
            push_since(&mut m, since);
            m.append(". Use 'wg unclaim ");
            m.append(id);
            m.append("' to release it first.");
            m
        },
        ClaimError::AlreadyInProgress { since } => {
            let mut m = "Task '".to_string();
            m.append(id);
            m.append("' is already in progress");
            push_since(&mut m, since);
            m
        },
        ClaimError::AlreadyDone => {
            let mut m = "Task '".to_string();
            m.append(id);
            m.append("' is already done");
            m
        },
        ClaimError::IsFailed => {
            let mut m = "Cannot claim task '".to_string();
            m.append(id);
            m.append("': task is Failed. Use 'wg retry' to retry it.");
            m
        },
        ClaimError::IsAbandoned => {
            let mut m = "Cannot claim task '".to_string();
            m.append(id);
            m.append("': task is Abandoned");
            m
        },
        ClaimError::PendingReview => {
            let mut m = "Cannot claim task '".to_string();
            m.append(id);
            m.append("': task is PendingReview");
            m
        },
    }
}

/// The text of a refused release of task `id`.
pub open spec fn unclaim_error_text(id: Seq<char>, e: UnclaimError) -> Seq<char> {
    match e {
        UnclaimError::NotFound => not_found_text(id),
        UnclaimError::Terminal(s) => "Cannot unclaim task '"@ + id + "': task is "@ + status_name(s),
    }
}

/// The text of a refused release of task `id`.
pub fn unclaim_error_message(id: &str, e: &UnclaimError) -> (r: String)
    ensures
        r@ == unclaim_error_text(id@, *e),
{
    match e {
        UnclaimError::NotFound => not_found(id),
        UnclaimError::Terminal(s) => {
            let mut m = "Cannot unclaim task '".to_string();
            m.append(id);
            m.append("': task is ");
            m.append(status_text(*s));
            m
        },
    }
}

/// One line per unresolved blocker: its id, title and status.
pub open spec fn blocker_line(nodes: Seq<NodeView>, b: Seq<char>) -> Seq<char> {
    match lookup_task(nodes, b) {
        Some(t) => "  - "@ + b + " ("@ + t.title + "): "@ + status_name(t.status),
        None => "  - "@ + b,
    }
}

/// The lines for the given blockers, joined by line breaks.
pub open spec fn blocker_list(nodes: Seq<NodeView>, blockers: Seq<Seq<char>>) -> Seq<char> {
    joined(blockers.map_values(|b: Seq<char>| blocker_line(nodes, b)), "\n"@)
}

fn push_blocker_list(m: &mut String, graph: &WorkGraph, blockers: &Vec<String>)
    ensures
        final(m)@ == old(m)@ + blocker_list(graph@, strs(*blockers)),
{
    let ghost lines = strs(*blockers).map_values(|b: Seq<char>| blocker_line(graph@, b));
    let ghost start = m@;
    let mut k: usize = 0;
    while k < blockers.len()
        invariant
            k <= blockers@.len(),
            lines == strs(*blockers).map_values(|b: Seq<char>| blocker_line(graph@, b)),
            lines.len() == blockers@.len(),
            m@ == start + joined(lines.take(k as int), "\n"@),
        decreases blockers@.len() - k,
    {
        if k > 0 {
            m.append("\n");
        }
        let b = &blockers[k];
        m.append("  - ");
        m.append(b.as_str());
        match graph.get_task(b.as_str()) {
            Some(t) => {
                m.append(" (");
                m.append(t.title.as_str());
                m.append("): ");
                m.append(status_text(t.status));
            },
            None => {},
        }
        proof {
            assert(lines[k as int] == blocker_line(graph@, b@));
            assert(lines.take(k + 1).drop_last() =~= lines.take(k as int));
            if k == 0 {
                assert(joined(lines.take(1), "\n"@) == lines.take(1)[0]);
            }
        }
        assert(m@ =~= start + joined(lines.take(k + 1), "\n"@));
        k = k + 1;
    }
    assert(lines.take(blockers@.len() as int) =~= lines);
}

/// The text of a refused completion of task `id`.
pub open spec fn done_error_text(nodes: Seq<NodeView>, id: Seq<char>, e: crate::ops::DoneErrorView) -> Seq<char> {
    match e {
        crate::ops::DoneErrorView::NotFound => not_found_text(id),
        crate::ops::DoneErrorView::Blocked(bs) => "Cannot mark '"@ + id + "' as done: blocked by "@ + decimal(bs.len())
            + " unresolved task(s):\n"@ + blocker_list(nodes, bs),
        crate::ops::DoneErrorView::NeedsVerification => "Task '"@ + id + "' requires verification. Use 'wg submit "@ + id
            + "' instead of 'wg done'.\nAfter submission, an approver must use 'wg approve "@ + id + "' to complete it."@,
    }
}

/// The text of a refused completion of task `id` in `graph`.
pub fn done_error_message(graph: &WorkGraph, id: &str, e: &DoneError) -> (r: String)
    ensures
        r@ == done_error_text(graph@, id@, e@),
{
    match e {
        DoneError::NotFound => not_found(id),
        DoneError::Blocked(bs) => {
            let mut m = "Cannot mark '".to_string();
            m.append(id);
            m.append("' as done: blocked by ");
            push_u64(&mut m, bs.len() as u64);
            m.append(" unresolved task(s):\n");
            push_blocker_list(&mut m, graph, bs);
            m
        },
        DoneError::NeedsVerification => {
            let mut m = "Task '".to_string();
            m.append(id);
            m.append("' requires verification. Use 'wg submit ");
            m.append(id);
            m.append("' instead of 'wg done'.\nAfter submission, an approver must use 'wg approve ");
            m.append(id);
            m.append("' to complete it.");
            m
        },
    }
}

/// The text of a refused approval of task `id`.
pub open spec fn approve_error_text(nodes: Seq<NodeView>, id: Seq<char>, e: crate::ops::ApproveErrorView) -> Seq<char> {
    match e {
        crate::ops::ApproveErrorView::NotFound => not_found_text(id),
        crate::ops::ApproveErrorView::NotPendingReview(s) => "Cannot approve task '"@ + id + "': status is "@ + status_name(s)
            + ", expected PendingReview"@,
        crate::ops::ApproveErrorView::Blocked(bs) => "Cannot approve task '"@ + id + "': blocked by "@ + decimal(bs.len())
            + " unresolved task(s):\n"@ + blocker_list(nodes, bs),
    }
}

/// The text of a refused approval of task `id` in `graph`.
pub fn approve_error_message(graph: &WorkGraph, id: &str, e: &ApproveError) -> (r: String)
    ensures
        r@ == approve_error_text(graph@, id@, e@),
{
    match e {
        ApproveError::NotFound => not_found(id),
        ApproveError::NotPendingReview(s) => {
            let mut m = "Cannot approve task '".to_string();
            m.append(id);
            m.append("': status is ");
            m.append(status_text(*s));
            m.append(", expected PendingReview");
            m
        },
        ApproveError::Blocked(bs) => {
            let mut m = "Cannot approve task '".to_string();
            m.append(id);
            m.append("': blocked by ");
            push_u64(&mut m, bs.len() as u64);
            m.append(" unresolved task(s):\n");
            push_blocker_list(&mut m, graph, bs);
            m
        },
    }
}

/// The text of a refused abandonment of task `id`.
pub open spec fn abandon_error_text(id: Seq<char>, e: AbandonError) -> Seq<char> {
    match e {
        AbandonError::NotFound => not_found_text(id),
        AbandonError::AlreadyDone => "Task '"@ + id + "' is already done and cannot be abandoned"@,
    }
}

/// The text of a refused abandonment of task `id`.
pub fn abandon_error_message(id: &str, e: &AbandonError) -> (r: String)
    ensures
        r@ == abandon_error_text(id@, *e),
{
    match e {
        AbandonError::NotFound => not_found(id),
        AbandonError::AlreadyDone => {
            let mut m = "Task '".to_string();
            m.append(id);
            m.append("' is already done and cannot be abandoned");
            m
        },
    }
}

/// The text of a refused artifact change on task `id`.
pub open spec fn artifact_error_text(id: Seq<char>, path: Seq<char>, e: ArtifactError) -> Seq<char> {
    match e {
        ArtifactError::TaskNotFound => not_found_text(id),
        ArtifactError::ArtifactNotFound => "Artifact '"@ + path + "' not found on task '"@ + id + "'"@,
    }
}

/// The text of a refused artifact change on task `id`.
pub fn artifact_error_message(id: &str, path: &str, e: &ArtifactError) -> (r: String)
    ensures
        r@ == artifact_error_text(id@, path@, *e),
{
    match e {
        ArtifactError::TaskNotFound => not_found(id),
        ArtifactError::ArtifactNotFound => {
            let mut m = "Artifact '".to_string();
            m.append(path);
            m.append("' not found on task '");
            m.append(id);
            m.append("'");
            m
        },
    }
}

/// The text of a rejected guard expression.
pub open spec fn guard_error_text(e: GuardErrorView) -> Seq<char> {
    match e {
        GuardErrorView::UnknownStatus(st) => "Unknown status '"@ + st + "' in guard expression"@,
        GuardErrorView::InvalidFormat(x) => "Invalid guard format. Expected 'task:<id>=<status>', got '"@ + x + "'"@,
        GuardErrorView::InvalidExpression(x) => "Invalid guard expression '"@ + x
            + "'. Expected 'task:<id>=<status>' or 'always'"@,
    }
}

/// The text of a rejected guard expression.
pub fn guard_error_message(e: &GuardError) -> (r: String)
    ensures
        r@ == guard_error_text(e@),
{
    match e {
        GuardError::UnknownStatus(st) => {
            let mut m = "Unknown status '".to_string();
            m.append(st.as_str());
            m.append("' in guard expression");
            m
        },
        GuardError::InvalidFormat(x) => {
            let mut m = "Invalid guard format. Expected 'task:<id>=<status>', got '".to_string();
            m.append(x.as_str());
            m.append("'");
            m
        },
        GuardError::InvalidExpression(x) => {
            let mut m = "Invalid guard expression '".to_string();
            m.append(x.as_str());
            m.append("'. Expected 'task:<id>=<status>' or 'always'");
            m
        },
    }
}

/// The text of a refused addition.
pub open spec fn add_error_text(e: AddErrorView) -> Seq<char> {
    match e {
        AddErrorView::EmptyTitle => "Task title cannot be empty"@,
        AddErrorView::IdExists(id) => "Task with ID '"@ + id + "' already exists"@,
        AddErrorView::SelfBlocking(id) => "Task '"@ + id + "' cannot block itself"@,
        AddErrorView::LoopMaxRequired => "--loop-max is required when using --loops-to"@,
        AddErrorView::Guard(g) => guard_error_text(g),
        AddErrorView::InvalidDelay(d) => "Invalid delay '"@ + d + "'. Use format: 30s, 5m, 1h, 24h, 7d"@,
        AddErrorView::LoopOptionsWithoutTarget => "--loop-max, --loop-guard, and --loop-delay require --loops-to"@,
    }
}

/// The text of a refused addition.
pub fn add_error_message(e: &AddError) -> (r: String)
    ensures
        r@ == add_error_text(e@),
{
    match e {
        AddError::EmptyTitle => "Task title cannot be empty".to_string(),
        AddError::IdExists(id) => {
            let mut m = "Task with ID '".to_string();
            m.append(id.as_str());
            m.append("' already exists");
            m
        },
        AddError::SelfBlocking(id) => {
            let mut m = "Task '".to_string();
            m.append(id.as_str());
            m.append("' cannot block itself");
            m
        },
        AddError::LoopMaxRequired => "--loop-max is required when using --loops-to".to_string(),
        AddError::Guard(g) => guard_error_message(g),
        AddError::InvalidDelay(d) => {
            let mut m = "Invalid delay '".to_string();
            m.append(d.as_str());
            m.append("'. Use format: 30s, 5m, 1h, 24h, 7d");
            m
        },
        AddError::LoopOptionsWithoutTarget => "--loop-max, --loop-guard, and --loop-delay require --loops-to".to_string(),
    }
}

/// The text of a refused edit of task `id`.
pub open spec fn edit_error_text(id: Seq<char>, e: EditErrorView) -> Seq<char> {
    match e {
        EditErrorView::TaskNotFound => not_found_text(id),
        EditErrorView::SelfBlocking => "Task '"@ + id + "' cannot block itself"@,
        EditErrorView::SelfLoop => "Task '"@ + id + "' cannot loop to itself"@,
        EditErrorView::LoopMaxRequired => "--loop-max is required when using --add-loops-to"@,
        EditErrorView::Guard(g) => guard_error_text(g),
        EditErrorView::InvalidDelay(d) => "Invalid delay '"@ + d + "'. Use format: 30s, 5m, 1h, 24h, 7d"@,
        EditErrorView::LoopOptionsWithoutTarget => "--loop-max, --loop-guard, and --loop-delay require --add-loops-to"@,
    }
}

/// The text of a refused edit of task `id`.
pub fn edit_error_message(id: &str, e: &EditError) -> (r: String)
    ensures
        r@ == edit_error_text(id@, e@),
{
    match e {
        EditError::TaskNotFound => not_found(id),
        EditError::SelfBlocking => {
            let mut m = "Task '".to_string();
            m.append(id);
            m.append("' cannot block itself");
            m
        },
        EditError::SelfLoop => {
            let mut m = "Task '".to_string();
            m.append(id);
            m.append("' cannot loop to itself");
            m
        },
        EditError::LoopMaxRequired => "--loop-max is required when using --add-loops-to".to_string(),
        EditError::Guard(g) => guard_error_message(g),
        EditError::InvalidDelay(d) => {
            let mut m = "Invalid delay '".to_string();
            m.append(d.as_str());
            m.append("'. Use format: 30s, 5m, 1h, 24h, 7d");
            m
        },
        EditError::LoopOptionsWithoutTarget => "--loop-max, --loop-guard, and --loop-delay require --add-loops-to".to_string(),
    }
}

} // verus!
