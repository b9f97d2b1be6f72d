use workgraph::graph::{Node, Status, Task, WorkGraph};
use workgraph::messages::done_error_message;
use workgraph::ops::mark_done_at;

const NOW: &str = "2024-05-01T12:00:00+00:00";

fn make_task(id: &str, title: &str, status: Status) -> Task {
    let mut t = Task::new(id, title);
    t.status = status;
    t
}

fn graph_with(tasks: Vec<Task>) -> WorkGraph {
    let mut graph = WorkGraph::new();
    for task in tasks {
        graph.add_node(Node::Task(task));
    }
    graph
}

fn done_err(graph: &mut WorkGraph, id: &str) -> String {
    let e = mark_done_at(graph, id, NOW).unwrap_err();
    done_error_message(graph, id, &e)
}

#[test]
fn test_done_open_task_transitions_to_done() {
    let mut graph = graph_with(vec![make_task("t1", "Test task", Status::Open)]);
    assert!(mark_done_at(&mut graph, "t1", NOW).is_ok());
    assert_eq!(graph.get_task("t1").unwrap().status, Status::Done);
}

#[test]
fn test_done_in_progress_task_transitions_to_done() {
    let mut graph = graph_with(vec![make_task("t1", "Test task", Status::InProgress)]);
    assert!(mark_done_at(&mut graph, "t1", NOW).is_ok());
    assert_eq!(graph.get_task("t1").unwrap().status, Status::Done);
}

#[test]
fn test_done_already_done_returns_ok() {
    let mut graph = graph_with(vec![make_task("t1", "Test task", Status::Done)]);
    // Should return Ok (idempotent) rather than error
    let result = mark_done_at(&mut graph, "t1", NOW);
    assert!(result.is_ok());
    assert_eq!(result.unwrap(), false);
}

#[test]
fn test_done_with_unresolved_blockers_fails() {
    let blocker = make_task("blocker", "Blocker task", Status::Open);
    let mut blocked = make_task("blocked", "Blocked task", Status::Open);
    blocked.blocked_by = vec!["blocker".to_string()];
    let mut graph = graph_with(vec![blocker, blocked]);
    let err = done_err(&mut graph, "blocked");
    assert!(err.contains("blocked by"));
    assert!(err.contains("unresolved"));
    assert_eq!(
        err,
        "Cannot mark 'blocked' as done: blocked by 1 unresolved task(s):\n  - blocker (Blocker task): Open"
    );
}

#[test]
fn test_done_with_resolved_blockers_succeeds() {
    let blocker = make_task("blocker", "Blocker task", Status::Done);
    let mut blocked = make_task("blocked", "Blocked task", Status::Open);
    blocked.blocked_by = vec!["blocker".to_string()];
    let mut graph = graph_with(vec![blocker, blocked]);
    assert!(mark_done_at(&mut graph, "blocked", NOW).is_ok());
    assert_eq!(graph.get_task("blocked").unwrap().status, Status::Done);
}

#[test]
fn test_done_verified_task_rejects_with_submit_hint() {
    let mut task = make_task("t1", "Verified task", Status::InProgress);
    task.verify = Some("Check output quality".to_string());
    let mut graph = graph_with(vec![task]);
    let err = done_err(&mut graph, "t1");
    assert!(err.contains("requires verification"));
    assert!(err.contains("wg submit"));
}

#[test]
fn test_done_sets_completed_at_timestamp() {
    let mut graph = graph_with(vec![make_task("t1", "Test task", Status::Open)]);
    assert!(mark_done_at(&mut graph, "t1", NOW).is_ok());
    let task = graph.get_task("t1").unwrap();
    assert_eq!(task.completed_at.as_deref(), Some(NOW));
}

#[test]
fn test_done_creates_log_entry() {
    let mut task = make_task("t1", "Test task", Status::InProgress);
    task.assigned = Some("agent-1".to_string());
    let mut graph = graph_with(vec![task]);
    assert!(mark_done_at(&mut graph, "t1", NOW).is_ok());
    let task = graph.get_task("t1").unwrap();
    assert!(!task.log.is_empty());
    let last_log = task.log.last().unwrap();
    assert_eq!(last_log.message, "Task marked as done");
    assert_eq!(last_log.actor, Some("agent-1".to_string()));
}

#[test]
fn test_done_nonexistent_task_fails() {
    let mut graph = graph_with(vec![]);
    let err = done_err(&mut graph, "nonexistent");
    assert!(err.contains("not found"));
}

#[test]
fn test_done_log_entry_without_assigned_has_none_actor() {
    let mut graph = graph_with(vec![make_task("t1", "Test task", Status::Open)]);
    assert!(mark_done_at(&mut graph, "t1", NOW).is_ok());
    let task = graph.get_task("t1").unwrap();
    let last_log = task.log.last().unwrap();
    assert_eq!(last_log.actor, None);
}

#[test]
fn done_twice_changes_nothing_the_second_time() {
    let mut graph = graph_with(vec![make_task("t1", "Test task", Status::Open)]);
    assert_eq!(mark_done_at(&mut graph, "t1", NOW).unwrap(), true);
    assert_eq!(mark_done_at(&mut graph, "t1", "2030-01-01T00:00:00+00:00").unwrap(), false);
    let task = graph.get_task("t1").unwrap();
    assert_eq!(task.log.len(), 1);
    assert_eq!(task.completed_at.as_deref(), Some(NOW));
}

#[test]
fn done_unblocks_dependents() {
    let a = make_task("a", "First", Status::Open);
    let resolved = make_task("r", "Resolved", Status::Abandoned);
    let mut b = make_task("b", "Second", Status::Open);
    b.blocked_by = vec!["a".to_string(), "r".to_string()];
    let mut graph = graph_with(vec![a, resolved, b]);
    assert_eq!(workgraph::coordinate::ready_tasks(&graph), vec![0]);
    assert_eq!(mark_done_at(&mut graph, "a", NOW), Ok(true));
    assert_eq!(workgraph::coordinate::ready_tasks(&graph), vec![2]);
}
