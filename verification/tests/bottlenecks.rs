use workgraph::bottlenecks::{bottleneck_report, generate_recommendation};
use workgraph::deps::{build_reverse_index, collect_transitive_dependents, ReverseIndex};
use workgraph::graph::{Node, Status, Task, WorkGraph};

fn make_task(id: &str, title: &str) -> Task {
    Task::new(id, title)
}

fn get<'a>(index: &'a ReverseIndex, id: &str) -> Option<&'a Vec<String>> {
    index.entries.iter().find(|e| e.blocker == id).map(|e| &e.dependents)
}

fn chain() -> WorkGraph {
    let mut graph = WorkGraph::new();
    let t1 = make_task("t1", "Task 1");
    let mut t2 = make_task("t2", "Task 2");
    t2.blocked_by = vec!["t1".to_string()];
    let mut t3 = make_task("t3", "Task 3");
    t3.blocked_by = vec!["t2".to_string()];
    let mut t4 = make_task("t4", "Task 4");
    t4.blocked_by = vec!["t3".to_string()];
    graph.add_node(Node::Task(t1));
    graph.add_node(Node::Task(t2));
    graph.add_node(Node::Task(t3));
    graph.add_node(Node::Task(t4));
    graph
}

#[test]
fn test_build_reverse_index_empty() {
    let graph = WorkGraph::new();
    let index = build_reverse_index(&graph);
    assert!(index.entries.is_empty());
}

#[test]
fn test_build_reverse_index_simple() {
    let mut graph = WorkGraph::new();
    let t1 = make_task("t1", "Task 1");
    let mut t2 = make_task("t2", "Task 2");
    t2.blocked_by = vec!["t1".to_string()];
    graph.add_node(Node::Task(t1));
    graph.add_node(Node::Task(t2));

    let index = build_reverse_index(&graph);
    assert_eq!(get(&index, "t1"), Some(&vec!["t2".to_string()]));
    assert!(get(&index, "t2").is_none());
}

#[test]
fn test_collect_transitive_dependents() {
    let graph = chain();
    let index = build_reverse_index(&graph);
    let mut visited = Vec::new();
    collect_transitive_dependents(&index, "t1", &mut visited);

    assert_eq!(visited.len(), 3);
    assert!(visited.contains(&"t2".to_string()));
    assert!(visited.contains(&"t3".to_string()));
    assert!(visited.contains(&"t4".to_string()));
}

#[test]
fn test_collect_transitive_dependents_with_diamond() {
    let mut graph = WorkGraph::new();
    let t1 = make_task("t1", "Task 1");
    let mut t2 = make_task("t2", "Task 2");
    t2.blocked_by = vec!["t1".to_string()];
    let mut t3 = make_task("t3", "Task 3");
    t3.blocked_by = vec!["t1".to_string()];
    let mut t4 = make_task("t4", "Task 4");
    t4.blocked_by = vec!["t2".to_string(), "t3".to_string()];
    graph.add_node(Node::Task(t1));
    graph.add_node(Node::Task(t2));
    graph.add_node(Node::Task(t3));
    graph.add_node(Node::Task(t4));

    let index = build_reverse_index(&graph);
    let mut visited = Vec::new();
    collect_transitive_dependents(&index, "t1", &mut visited);

    assert_eq!(visited.len(), 3);
    assert!(visited.contains(&"t2".to_string()));
    assert!(visited.contains(&"t3".to_string()));
    assert!(visited.contains(&"t4".to_string()));
}

#[test]
fn test_generate_recommendation_done_task() {
    assert!(generate_recommendation(&Status::Done, 5, 10).is_none());
}

#[test]
fn test_generate_recommendation_high_priority() {
    let rec = generate_recommendation(&Status::Open, 3, 10);
    assert!(rec.is_some());
    assert!(rec.unwrap().contains("30%"));
}

#[test]
fn test_generate_recommendation_medium_priority() {
    let rec = generate_recommendation(&Status::Open, 2, 20);
    assert!(rec.is_some());
    assert!(rec.unwrap().contains("10%"));
}

#[test]
fn test_generate_recommendation_low_impact() {
    assert!(generate_recommendation(&Status::Open, 1, 100).is_none());
}

#[test]
fn test_generate_recommendation_in_progress_critical() {
    let rec = generate_recommendation(&Status::InProgress, 5, 20);
    assert!(rec.is_some());
    assert!(rec.unwrap().contains("Critical path"));
}

#[test]
fn report_ranks_by_transitive_impact() {
    let graph = chain();
    let report = bottleneck_report(&graph);
    assert_eq!(report.len(), 3);
    assert_eq!(report[0].id, "t1");
    assert_eq!(report[0].transitive_blocks, 3);
    assert_eq!(report[0].direct_blocks, 1);
    assert_eq!(report[2].id, "t3");
}
