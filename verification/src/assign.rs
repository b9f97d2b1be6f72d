//! Explicit assignment of an agent to a task.
use vstd::prelude::*;
use crate::graph::{NodeView, TaskView, WorkGraph, opt_str, task_index};
use crate::ops::{set_task_agent, task_at, with_task};
use crate::messages::{not_found, not_found_text};

verus! {

/// What an assignment request did.
#[derive(Debug, Clone, PartialEq, Eq)]
pub enum AssignOutcome {
    /// The agent is now assigned.
    Assigned,
    /// The agent was cleared; carries the agent assigned before, if any.
    Cleared(Option<String>),
}

/// Why an assignment request was refused.
#[derive(Debug, Clone, PartialEq, Eq)]
pub enum AssignError {
    /// Neither an agent nor `--clear` was given.
    Usage,
    /// No task has the given id.
    TaskNotFound,
}

/// The graph after setting (or clearing) the agent of the task at `i`.
pub open spec fn with_agent(nodes: Seq<NodeView>, i: int, agent: Option<Seq<char>>) -> Seq<NodeView> {
    with_task(nodes, i, TaskView { agent, ..task_at(nodes, i) })
}

/// Assign an agent (already resolved to its full id) to task `task_id`, or
/// with `clear` remove the task's agent. Clearing wins over an agent.
pub fn run(graph: &mut WorkGraph, task_id: &str, agent_id: Option<&str>, clear: bool) -> (r: Result<AssignOutcome, AssignError>)
    ensures
        !clear && agent_id is None ==> r == Err::<AssignOutcome, AssignError>(AssignError::Usage) && final(graph)@ == old(graph)@,
        (clear || agent_id is Some) ==> match task_index(old(graph)@, task_id@) {
            None => r == Err::<AssignOutcome, AssignError>(AssignError::TaskNotFound) && final(graph)@ == old(graph)@,
            Some(i) => if clear {
                &&& r matches Ok(AssignOutcome::Cleared(prev)) && opt_str(prev) == task_at(old(graph)@, i).agent
                &&& final(graph)@ == with_agent(old(graph)@, i, None)
            } else {
                &&& r == Ok::<AssignOutcome, AssignError>(AssignOutcome::Assigned)
                &&& final(graph)@ == with_agent(old(graph)@, i, Some(agent_id->0@))
            },
        },
{
    if clear {
        return match set_task_agent(graph, task_id, None) {
            Some(prev) => Ok(AssignOutcome::Cleared(prev)),
            None => Err(AssignError::TaskNotFound),
        };
    }
    match agent_id {
        Some(a) => match set_task_agent(graph, task_id, Some(a)) {
            Some(_) => Ok(AssignOutcome::Assigned),
            None => Err(AssignError::TaskNotFound),
        },
        None => Err(AssignError::Usage),
    }
}

/// The text of a refused assignment of task `task_id`.
pub open spec fn assign_error_text(task_id: Seq<char>, e: AssignError) -> Seq<char> {
    match e {
        AssignError::Usage => "Usage: wg assign <task-id> <agent-hash>\nOr use --clear to remove assignment."@,
        AssignError::TaskNotFound => not_found_text(task_id),
    }
}

/// The text of a refused assignment of task `task_id`.
pub fn assign_error_message(task_id: &str, e: &AssignError) -> (r: String)
    ensures
        r@ == assign_error_text(task_id@, *e),
{
    match e {
        AssignError::Usage => "Usage: wg assign <task-id> <agent-hash>\nOr use --clear to remove assignment.".to_string(),
        AssignError::TaskNotFound => not_found(task_id),
    }
}

} // verus!
