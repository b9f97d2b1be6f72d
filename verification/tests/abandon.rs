use workgraph::graph::{Node, Status, Task, WorkGraph};
use workgraph::messages::abandon_error_message;
use workgraph::ops::abandon_task_at;

const NOW: &str = "2024-05-01T12:00:00+00:00";

fn make_task(id: &str, title: &str) -> Task {
    Task::new(id, title)
}

fn graph_with(tasks: Vec<Task>) -> WorkGraph {
    let mut graph = WorkGraph::new();
    for task in tasks {
        graph.add_node(Node::Task(task));
    }
    graph
}

#[test]
fn test_abandon_open_task() {
    let mut graph = graph_with(vec![make_task("t1", "Open task")]);
    let result = abandon_task_at(&mut graph, "t1", Some("no longer needed"), NOW);
    assert!(result.is_ok());
    let task = graph.get_task("t1").unwrap();
    assert_eq!(task.status, Status::Abandoned);
    assert_eq!(task.failure_reason.as_deref(), Some("no longer needed"));
    assert!(!task.log.is_empty());
    assert!(task.log.last().unwrap().message.contains("Task abandoned: no longer needed"));
}

#[test]
fn test_abandon_in_progress_task() {
    let mut t = make_task("t1", "Active task");
    t.status = Status::InProgress;
    t.assigned = Some("agent-1".to_string());
    let mut graph = graph_with(vec![t]);
    let result = abandon_task_at(&mut graph, "t1", None, NOW);
    assert!(result.is_ok());
    let task = graph.get_task("t1").unwrap();
    assert_eq!(task.status, Status::Abandoned);
    assert!(task.failure_reason.is_none());
    assert!(task.log.last().unwrap().message == "Task abandoned");
}

#[test]
fn test_abandon_failed_task() {
    let mut t = make_task("t1", "Failed task");
    t.status = Status::Failed;
    let mut graph = graph_with(vec![t]);
    let result = abandon_task_at(&mut graph, "t1", Some("giving up"), NOW);
    assert!(result.is_ok());
    let task = graph.get_task("t1").unwrap();
    assert_eq!(task.status, Status::Abandoned);
    assert_eq!(task.failure_reason.as_deref(), Some("giving up"));
}

#[test]
fn test_abandon_done_task_errors() {
    let mut t = make_task("t1", "Done task");
    t.status = Status::Done;
    let mut graph = graph_with(vec![t]);
    let result = abandon_task_at(&mut graph, "t1", None, NOW);
    assert!(result.is_err());
    let err = abandon_error_message("t1", &result.unwrap_err());
    assert!(err.contains("already done"));
}

#[test]
fn test_abandon_already_abandoned_is_noop() {
    let mut t = make_task("t1", "Abandoned task");
    t.status = Status::Abandoned;
    let mut graph = graph_with(vec![t]);
    let result = abandon_task_at(&mut graph, "t1", None, NOW);
    assert!(result.is_ok());
    // Should not add another log entry
    let task = graph.get_task("t1").unwrap();
    assert!(task.log.is_empty());
}

#[test]
fn test_abandon_nonexistent_task_errors() {
    let mut graph = graph_with(vec![make_task("t1", "Exists")]);
    let result = abandon_task_at(&mut graph, "nope", None, NOW);
    assert!(result.is_err());
    assert!(abandon_error_message("nope", &result.unwrap_err()).contains("not found"));
}

#[test]
fn test_abandon_reason_stored_in_log() {
    let mut t = make_task("t1", "Task with reason");
    t.assigned = Some("worker-42".to_string());
    let mut graph = graph_with(vec![t]);
    abandon_task_at(&mut graph, "t1", Some("requirements changed"), NOW).unwrap();
    let task = graph.get_task("t1").unwrap();
    let last_log = task.log.last().unwrap();
    assert!(last_log.message.contains("requirements changed"));
    assert_eq!(last_log.actor.as_deref(), Some("worker-42"));
}
