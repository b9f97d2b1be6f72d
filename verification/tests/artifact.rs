use workgraph::graph::{Node, Task, WorkGraph};
use workgraph::messages::artifact_error_message;
use workgraph::ops::{add_artifact, remove_artifact};

fn setup_graph() -> WorkGraph {
    let mut graph = WorkGraph::new();
    graph.add_node(Node::Task(Task::new("t1", "Test Task")));
    graph
}

#[test]
fn test_add_artifact() {
    let mut graph = setup_graph();
    let result = add_artifact(&mut graph, "t1", "output.txt");
    assert!(result.is_ok());
    let task = graph.get_task("t1").unwrap();
    assert!(task.artifacts.contains(&"output.txt".to_string()));
}

#[test]
fn test_add_artifact_duplicate() {
    let mut graph = setup_graph();
    add_artifact(&mut graph, "t1", "output.txt").unwrap();
    let result = add_artifact(&mut graph, "t1", "output.txt");
    assert!(result.is_ok()); // Should succeed but not duplicate
    let task = graph.get_task("t1").unwrap();
    assert_eq!(task.artifacts.len(), 1);
}

#[test]
fn test_remove_artifact() {
    let mut graph = setup_graph();
    add_artifact(&mut graph, "t1", "output.txt").unwrap();
    let result = remove_artifact(&mut graph, "t1", "output.txt");
    assert!(result.is_ok());
    let task = graph.get_task("t1").unwrap();
    assert!(task.artifacts.is_empty());
}

#[test]
fn test_remove_nonexistent_artifact() {
    let mut graph = setup_graph();
    let result = remove_artifact(&mut graph, "t1", "nonexistent.txt");
    assert!(result.is_err());
    assert_eq!(
        artifact_error_message("t1", "nonexistent.txt", &result.unwrap_err()),
        "Artifact 'nonexistent.txt' not found on task 't1'"
    );
}

#[test]
fn artifact_on_missing_task_is_refused() {
    let mut graph = setup_graph();
    let result = add_artifact(&mut graph, "nope", "a.txt");
    assert_eq!(artifact_error_message("nope", "a.txt", &result.unwrap_err()), "Task 'nope' not found");
}

#[test]
fn add_then_remove_gives_the_list_back() {
    let mut graph = setup_graph();
    add_artifact(&mut graph, "t1", "keep.txt").unwrap();
    add_artifact(&mut graph, "t1", "tmp.txt").unwrap();
    remove_artifact(&mut graph, "t1", "tmp.txt").unwrap();
    assert_eq!(graph.get_task("t1").unwrap().artifacts, vec!["keep.txt".to_string()]);
}

#[test]
fn test_list_artifacts() {
    let mut graph = WorkGraph::new();
    graph.add_node(Node::Task(Task::new("t1", "Test task")));
    add_artifact(&mut graph, "t1", "output.txt").unwrap();
    let t = graph.get_task("t1").unwrap();
    assert_eq!(t.artifacts, vec!["output.txt".to_string()]);
}
