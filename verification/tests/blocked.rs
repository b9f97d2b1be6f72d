use workgraph::graph::{Node, Status, Task, WorkGraph};
use workgraph::ops::blocked_by;

fn make_task(id: &str, title: &str, status: Status) -> Task {
    let mut t = Task::new(id, title);
    t.status = status;
    t
}

fn graph_with(tasks: Vec<Task>) -> WorkGraph {
    let mut graph = WorkGraph::new();
    for task in tasks {
        graph.add_node(Node::Task(task));
    }
    graph
}

#[test]
fn blocked_test_run_nonexistent_task() {
    let graph = graph_with(vec![make_task("t1", "Task 1", Status::Open)]);
    assert!(graph.get_task("nonexistent").is_none());
    assert!(blocked_by(&graph, "nonexistent").is_empty());
}

#[test]
fn test_run_task_with_blockers() {
    let blocker = make_task("blocker", "Blocker task", Status::Open);
    let mut blocked = make_task("blocked", "Blocked task", Status::Open);
    blocked.blocked_by = vec!["blocker".to_string()];
    let graph = graph_with(vec![blocker, blocked]);
    assert_eq!(blocked_by(&graph, "blocked"), vec!["blocker".to_string()]);
}

#[test]
fn test_run_unblocked_task() {
    let graph = graph_with(vec![make_task("t1", "No blockers", Status::Open)]);
    assert!(blocked_by(&graph, "t1").is_empty());
}

#[test]
fn test_blocker_query_returns_correct_blockers() {
    let b1 = make_task("b1", "Blocker 1", Status::Open);
    let b2 = make_task("b2", "Blocker 2", Status::InProgress);
    let mut task = make_task("t1", "Blocked task", Status::Open);
    task.blocked_by = vec!["b1".to_string(), "b2".to_string()];
    let graph = graph_with(vec![b1, b2, task]);

    let blockers = blocked_by(&graph, "t1");
    assert_eq!(blockers.len(), 2);
    assert!(blockers.contains(&"b1".to_string()));
    assert!(blockers.contains(&"b2".to_string()));
}

#[test]
fn test_blocker_query_excludes_done_blockers() {
    let b1 = make_task("b1", "Done blocker", Status::Done);
    let b2 = make_task("b2", "Open blocker", Status::Open);
    let mut task = make_task("t1", "Task", Status::Open);
    task.blocked_by = vec!["b1".to_string(), "b2".to_string()];
    let graph = graph_with(vec![b1, b2, task]);

    let blockers = blocked_by(&graph, "t1");
    assert_eq!(blockers.len(), 1);
    assert_eq!(blockers[0], "b2");
}

#[test]
fn test_blocker_query_empty_for_unblocked_task() {
    let graph = graph_with(vec![make_task("t1", "Free task", Status::Open)]);
    assert!(blocked_by(&graph, "t1").is_empty());
}

#[test]
fn test_blocker_query_empty_when_all_done() {
    let b1 = make_task("b1", "Done 1", Status::Done);
    let b2 = make_task("b2", "Done 2", Status::Done);
    let mut task = make_task("t1", "Task", Status::Open);
    task.blocked_by = vec!["b1".to_string(), "b2".to_string()];
    let graph = graph_with(vec![b1, b2, task]);
    assert!(blocked_by(&graph, "t1").is_empty());
}

#[test]
fn test_json_output_structure() {
    let blocker = make_task("b1", "Blocker task", Status::InProgress);
    let mut task = make_task("t1", "Blocked", Status::Open);
    task.blocked_by = vec!["b1".to_string()];
    let graph = graph_with(vec![blocker, task]);

    let blockers = blocked_by(&graph, "t1");
    assert_eq!(blockers.len(), 1);
    let b = graph.get_task(&blockers[0]).unwrap();
    assert_eq!(b.id, "b1");
    assert_eq!(b.title, "Blocker task");
    assert_eq!(b.status, Status::InProgress);
}
