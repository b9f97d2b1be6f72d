use workgraph::graph::{Node, Status, Task, WorkGraph};
use workgraph::messages::{claim_error_message, unclaim_error_message};
use workgraph::ops::{claim_task_at, unclaim_task_at};

const NOW: &str = "2024-01-01T00:00:00+00:00";

fn make_task(id: &str, title: &str, status: Status) -> Task {
    let mut t = Task::new(id, title);
    t.status = status;
    t
}

fn graph_with(tasks: Vec<Task>) -> WorkGraph {
    let mut graph = WorkGraph::new();
    for task in tasks {
        graph.add_node(Node::Task(task));
    }
    graph
}

fn claim_err(graph: &mut WorkGraph, id: &str, actor: Option<&str>) -> String {
    let e = claim_task_at(graph, id, actor, NOW).unwrap_err();
    claim_error_message(id, &e)
}

fn unclaim_err(graph: &mut WorkGraph, id: &str) -> String {
    let e = unclaim_task_at(graph, id, NOW).unwrap_err();
    unclaim_error_message(id, &e)
}

#[test]
fn test_claim_open_task_succeeds() {
    let mut graph = graph_with(vec![make_task("t1", "Test task", Status::Open)]);
    let result = claim_task_at(&mut graph, "t1", None, NOW);
    assert!(result.is_ok());
    let task = graph.get_task("t1").unwrap();
    assert_eq!(task.status, Status::InProgress);
    assert!(task.assigned.is_none());
}

#[test]
fn test_claim_with_actor() {
    let mut graph = graph_with(vec![make_task("t1", "Test task", Status::Open)]);
    let result = claim_task_at(&mut graph, "t1", Some("agent-1"), NOW);
    assert!(result.is_ok());
    let task = graph.get_task("t1").unwrap();
    assert_eq!(task.status, Status::InProgress);
    assert_eq!(task.assigned, Some("agent-1".to_string()));
}

#[test]
fn test_claim_blocked_task_succeeds() {
    let mut graph = graph_with(vec![make_task("t1", "Test task", Status::Blocked)]);
    let result = claim_task_at(&mut graph, "t1", None, NOW);
    assert!(result.is_ok());
    let task = graph.get_task("t1").unwrap();
    assert_eq!(task.status, Status::InProgress);
}

#[test]
fn test_claim_inprogress_task_fails() {
    let mut graph = graph_with(vec![make_task("t1", "Test task", Status::InProgress)]);
    let err = claim_err(&mut graph, "t1", None);
    assert!(err.contains("already in progress"));
}

#[test]
fn test_claim_done_task_fails() {
    let mut graph = graph_with(vec![make_task("t1", "Test task", Status::Done)]);
    let err = claim_err(&mut graph, "t1", None);
    assert!(err.contains("already done"));
}

#[test]
fn test_claim_nonexistent_task_fails() {
    let mut graph = graph_with(vec![]);
    let err = claim_err(&mut graph, "nonexistent", None);
    assert!(err.contains("not found"));
}

#[test]
fn test_unclaim_inprogress_task_succeeds() {
    let mut task = make_task("t1", "Test task", Status::InProgress);
    task.assigned = Some("agent-1".to_string());
    let mut graph = graph_with(vec![task]);
    let result = unclaim_task_at(&mut graph, "t1", NOW);
    assert!(result.is_ok());
    let task = graph.get_task("t1").unwrap();
    assert_eq!(task.status, Status::Open);
    assert!(task.assigned.is_none());
}

#[test]
fn test_unclaim_open_task_succeeds() {
    let mut graph = graph_with(vec![make_task("t1", "Test task", Status::Open)]);
    // unclaim on an already open task should still work (idempotent)
    let result = unclaim_task_at(&mut graph, "t1", NOW);
    assert!(result.is_ok());
    let task = graph.get_task("t1").unwrap();
    assert_eq!(task.status, Status::Open);
}

#[test]
fn test_unclaim_nonexistent_task_fails() {
    let mut graph = graph_with(vec![]);
    let err = unclaim_err(&mut graph, "nonexistent");
    assert!(err.contains("not found"));
}

#[test]
fn test_unclaim_done_task_fails() {
    let mut graph = graph_with(vec![make_task("t1", "Test task", Status::Done)]);
    let err = unclaim_err(&mut graph, "t1");
    assert!(err.contains("Done"));
}

#[test]
fn test_unclaim_failed_task_fails() {
    let mut graph = graph_with(vec![make_task("t1", "Test task", Status::Failed)]);
    let err = unclaim_err(&mut graph, "t1");
    assert!(err.contains("Failed"));
}

#[test]
fn test_unclaim_abandoned_task_fails() {
    let mut graph = graph_with(vec![make_task("t1", "Test task", Status::Abandoned)]);
    let err = unclaim_err(&mut graph, "t1");
    assert!(err.contains("Abandoned"));
}

#[test]
fn test_claim_failed_task_fails() {
    let mut graph = graph_with(vec![make_task("t1", "Test task", Status::Failed)]);
    let err = claim_err(&mut graph, "t1", None);
    assert!(err.contains("Failed"));
    assert!(err.contains("retry"));
}

#[test]
fn test_claim_abandoned_task_fails() {
    let mut graph = graph_with(vec![make_task("t1", "Test task", Status::Abandoned)]);
    let err = claim_err(&mut graph, "t1", None);
    assert!(err.contains("Abandoned"));
}

#[test]
fn claim_logs_actor_and_start_time() {
    let mut graph = graph_with(vec![make_task("t1", "Test task", Status::Open)]);
    claim_task_at(&mut graph, "t1", Some("bob"), NOW).unwrap();
    let task = graph.get_task("t1").unwrap();
    assert_eq!(task.started_at.as_deref(), Some(NOW));
    let last = task.log.last().unwrap();
    assert_eq!(last.message, "Task claimed by @bob");
    assert_eq!(last.actor.as_deref(), Some("bob"));
}

#[test]
fn claim_of_claimed_task_names_the_holder() {
    let mut task = make_task("t1", "Test task", Status::InProgress);
    task.assigned = Some("alice".to_string());
    task.started_at = Some("2024-01-01T10:00:00Z".to_string());
    let mut graph = graph_with(vec![task]);
    let err = claim_err(&mut graph, "t1", Some("bob"));
    assert_eq!(
        err,
        "Task 't1' is already claimed by @alice (since 2024-01-01T10:00:00Z). Use 'wg unclaim t1' to release it first."
    );
}

#[test]
fn unclaim_undoes_claim_status_and_assignee() {
    let mut graph = graph_with(vec![make_task("t1", "Test task", Status::Open)]);
    claim_task_at(&mut graph, "t1", Some("bob"), NOW).unwrap();
    unclaim_task_at(&mut graph, "t1", NOW).unwrap();
    let task = graph.get_task("t1").unwrap();
    assert_eq!(task.status, Status::Open);
    assert!(task.assigned.is_none());
    assert_eq!(task.log.last().unwrap().message, "Task unclaimed (was assigned to @bob)");
}
