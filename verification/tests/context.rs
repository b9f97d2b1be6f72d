use workgraph::context::{task_context, task_dependents};
use workgraph::graph::{Node, Status, Task, WorkGraph};

fn make_task(id: &str, title: &str) -> Task {
    Task::new(id, title)
}

fn graph_with(tasks: Vec<Task>) -> WorkGraph {
    let mut graph = WorkGraph::new();
    for t in tasks {
        graph.add_node(Node::Task(t));
    }
    graph
}

fn strings(v: &[&str]) -> Vec<String> {
    v.iter().map(|s| s.to_string()).collect()
}

fn dependency_chain() -> WorkGraph {
    let mut t1 = make_task("t1", "Producer Task");
    t1.status = Status::Done;
    t1.deliverables = strings(&["output.txt"]);
    t1.artifacts = strings(&["output.txt"]);
    let mut t2 = make_task("t2", "Consumer Task");
    t2.blocked_by = strings(&["t1"]);
    t2.inputs = strings(&["output.txt"]);
    graph_with(vec![t1, t2])
}

#[test]
fn test_context_shows_available_artifacts() {
    let graph = dependency_chain();
    let result = task_context(&graph, "t2");
    assert!(result.is_ok());
    let c = result.unwrap();
    assert_eq!(c.available_context.len(), 1);
    assert_eq!(c.available_context[0].task_id, "t1");
    assert_eq!(c.available_context[0].artifacts, strings(&["output.txt"]));
    assert!(c.missing_inputs.is_empty());
}

#[test]
fn test_context_json_output() {
    let graph = dependency_chain();
    assert!(task_context(&graph, "t2").is_ok());
}

#[test]
fn test_dependents_shows_consumers() {
    let graph = dependency_chain();
    let result = task_dependents(&graph, "t1");
    assert!(result.is_ok());
    let deps = result.unwrap();
    assert_eq!(deps.len(), 1);
    assert_eq!(deps[0].task_id, "t2");
    assert_eq!(deps[0].needs, strings(&["output.txt"]));
}

#[test]
fn test_missing_inputs() {
    let mut t1 = make_task("t1", "Producer");
    t1.status = Status::Done;
    let mut t2 = make_task("t2", "Consumer");
    t2.blocked_by = strings(&["t1"]);
    t2.inputs = strings(&["missing.txt"]);
    let graph = graph_with(vec![t1, t2]);

    let result = task_context(&graph, "t2");
    assert!(result.is_ok());
    assert_eq!(result.unwrap().missing_inputs, strings(&["missing.txt"]));
}

#[test]
fn test_context_deep_dependency_chain() {
    let mut t1 = make_task("t1", "Root producer");
    t1.status = Status::Done;
    t1.artifacts = strings(&["root-output.txt"]);
    let mut t2 = make_task("t2", "Middle 1");
    t2.status = Status::Done;
    t2.blocked_by = strings(&["t1"]);
    t2.artifacts = strings(&["middle-output.txt"]);
    let mut t3 = make_task("t3", "Middle 2");
    t3.status = Status::Done;
    t3.blocked_by = strings(&["t2"]);
    t3.artifacts = strings(&["final-input.txt"]);
    let mut t4 = make_task("t4", "Consumer");
    t4.blocked_by = strings(&["t3"]);
    t4.inputs = strings(&["final-input.txt"]);
    let graph = graph_with(vec![t1, t2, t3, t4]);

    let result = task_context(&graph, "t4");
    assert!(result.is_ok());
    let c = result.unwrap();
    assert_eq!(c.available_context.len(), 1);
    assert_eq!(c.available_context[0].task_id, "t3");
    assert!(task_context(&graph, "t4").is_ok());
}

#[test]
fn test_context_task_with_no_dependencies() {
    let graph = graph_with(vec![make_task("t1", "Independent task")]);
    let result = task_context(&graph, "t1");
    assert!(result.is_ok());
    assert!(result.unwrap().available_context.is_empty());
}

#[test]
fn test_context_task_not_found() {
    let graph = WorkGraph::new();
    let result = task_context(&graph, "nonexistent");
    assert!(result.is_err());
    assert!(result.unwrap_err().contains("not found"));
}

#[test]
fn test_context_multiple_dependency_artifacts() {
    let mut t1 = make_task("t1", "Producer A");
    t1.status = Status::Done;
    t1.artifacts = strings(&["a.txt", "b.txt"]);
    let mut t2 = make_task("t2", "Producer B");
    t2.status = Status::Done;
    t2.artifacts = strings(&["c.txt"]);
    let mut t3 = make_task("t3", "Consumer");
    t3.blocked_by = strings(&["t1", "t2"]);
    t3.inputs = strings(&["a.txt", "c.txt", "d.txt"]);
    let graph = graph_with(vec![t1, t2, t3]);

    let result = task_context(&graph, "t3");
    assert!(result.is_ok());
    let c = result.unwrap();
    assert_eq!(c.available_context.len(), 2);
    assert_eq!(c.missing_inputs, strings(&["d.txt"]));
}

#[test]
fn test_context_dependency_with_no_artifacts() {
    let mut t1 = make_task("t1", "No artifacts");
    t1.status = Status::Done;
    let mut t2 = make_task("t2", "Consumer");
    t2.blocked_by = strings(&["t1"]);
    let graph = graph_with(vec![t1, t2]);

    let result = task_context(&graph, "t2");
    assert!(result.is_ok());
    assert!(result.unwrap().available_context.is_empty());
}

#[test]
fn test_context_json_output_structure() {
    let mut t1 = make_task("t1", "Producer");
    t1.status = Status::Done;
    t1.artifacts = strings(&["output.txt"]);
    let mut t2 = make_task("t2", "Consumer");
    t2.blocked_by = strings(&["t1"]);
    t2.inputs = strings(&["output.txt", "missing.txt"]);
    let graph = graph_with(vec![t1, t2]);

    let c = task_context(&graph, "t2").unwrap();
    assert_eq!(c.task_id, "t2");
    assert_eq!(c.task_title, "Consumer");
    assert_eq!(c.declared_inputs, strings(&["output.txt", "missing.txt"]));
    assert_eq!(c.missing_inputs, strings(&["missing.txt"]));
    assert_eq!(c.available_context[0].status, Status::Done);
}

#[test]
fn test_dependents_task_not_found() {
    let graph = WorkGraph::new();
    assert!(task_dependents(&graph, "nonexistent").is_err());
}

#[test]
fn test_dependents_no_dependents() {
    let graph = graph_with(vec![make_task("t1", "Leaf task")]);
    let result = task_dependents(&graph, "t1");
    assert!(result.is_ok());
    assert!(result.unwrap().is_empty());
}

#[test]
fn test_dependents_multiple_consumers() {
    let mut t1 = make_task("t1", "Producer");
    t1.artifacts = strings(&["shared.txt"]);
    t1.deliverables = strings(&["shared.txt"]);
    let mut t2 = make_task("t2", "Consumer 1");
    t2.blocked_by = strings(&["t1"]);
    t2.inputs = strings(&["shared.txt"]);
    let mut t3 = make_task("t3", "Consumer 2");
    t3.blocked_by = strings(&["t1"]);
    t3.inputs = strings(&["shared.txt"]);
    let graph = graph_with(vec![t1, t2, t3]);

    let result = task_dependents(&graph, "t1");
    assert!(result.is_ok());
    let deps = result.unwrap();
    assert_eq!(deps.len(), 2);
    assert_eq!(deps[0].task_id, "t2");
    assert_eq!(deps[1].task_id, "t3");
    assert!(task_dependents(&graph, "t1").is_ok());
}

#[test]
fn test_dependents_json_output() {
    let mut t1 = make_task("t1", "Producer");
    t1.artifacts = strings(&["data.json"]);
    t1.deliverables = strings(&["data.json"]);
    let mut t2 = make_task("t2", "Consumer");
    t2.blocked_by = strings(&["t1"]);
    t2.inputs = strings(&["data.json"]);
    let graph = graph_with(vec![t1, t2]);

    let deps = task_dependents(&graph, "t1").unwrap();
    assert_eq!(deps[0].title, "Consumer");
    assert_eq!(deps[0].needs, strings(&["data.json"]));
}

#[test]
fn test_context_dependency_not_in_graph() {
    let mut t1 = make_task("t1", "Has missing dependency");
    t1.blocked_by = strings(&["nonexistent"]);
    t1.inputs = strings(&["file.txt"]);
    let graph = graph_with(vec![t1]);

    let result = task_context(&graph, "t1");
    assert!(result.is_ok());
    assert_eq!(result.unwrap().missing_inputs, strings(&["file.txt"]));
}

#[test]
fn test_context_empty_graph() {
    let graph = WorkGraph::new();
    assert!(task_context(&graph, "t1").is_err());
}

#[test]
fn test_dependents_deliverables_matching() {
    let mut t1 = make_task("t1", "Producer");
    t1.deliverables = strings(&["expected.txt"]);
    t1.artifacts = strings(&["extra.txt"]);
    let mut t2 = make_task("t2", "Consumer");
    t2.blocked_by = strings(&["t1"]);
    t2.inputs = strings(&["expected.txt", "extra.txt", "other.txt"]);
    let graph = graph_with(vec![t1, t2]);

    let result = task_dependents(&graph, "t1");
    assert!(result.is_ok());
    assert_eq!(result.unwrap()[0].needs, strings(&["expected.txt", "extra.txt"]));
}

#[test]
fn context_not_found_message() {
    let graph = WorkGraph::new();
    assert_eq!(task_context(&graph, "x").unwrap_err(), "Task 'x' not found");
    assert_eq!(task_dependents(&graph, "x").unwrap_err(), "Task 'x' not found");
}
