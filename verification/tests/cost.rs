use workgraph::graph::{Node, Task, WorkGraph};
use workgraph::upstream::cost_basis;
use workgraph::deps::{build_reverse_index, transitive_dependents};

fn make_task(id: &str, title: &str) -> Task {
    Task::new(id, title)
}

fn graph_with(tasks: Vec<Task>) -> WorkGraph {
    let mut graph = WorkGraph::new();
    for task in tasks {
        graph.add_node(Node::Task(task));
    }
    graph
}

/// The total cost of `id`: the costs of the tasks it carries, a task
/// without a cost counting zero.
fn cost_of(graph: &WorkGraph, costs: &[(&str, f64)], id: &str) -> f64 {
    cost_basis(graph, id)
        .iter()
        .map(|t| costs.iter().find(|(k, _)| k == t).map(|(_, c)| *c).unwrap_or(0.0))
        .sum()
}

#[test]
fn test_single_task_cost() {
    let graph = graph_with(vec![make_task("t1", "Task 1")]);
    assert_eq!(cost_of(&graph, &[("t1", 1000.0)], "t1"), 1000.0);
}

#[test]
fn test_cost_aggregation_through_dependencies() {
    let dep1 = make_task("dep1", "Dep 1");
    let dep2 = make_task("dep2", "Dep 2");
    let mut main = make_task("main", "Main task");
    main.blocked_by = vec!["dep1".to_string(), "dep2".to_string()];
    let graph = graph_with(vec![dep1, dep2, main]);
    // 500 + 200 + 300 = 1000
    assert_eq!(cost_of(&graph, &[("dep1", 200.0), ("dep2", 300.0), ("main", 500.0)], "main"), 1000.0);
}

#[test]
fn test_cost_transitive_dependencies() {
    let leaf = make_task("leaf", "Leaf");
    let mut mid = make_task("mid", "Middle");
    mid.blocked_by = vec!["leaf".to_string()];
    let mut root = make_task("root", "Root");
    root.blocked_by = vec!["mid".to_string()];
    let graph = graph_with(vec![leaf, mid, root]);
    // root(300) + mid(200) + leaf(100) = 600
    assert_eq!(cost_of(&graph, &[("leaf", 100.0), ("mid", 200.0), ("root", 300.0)], "root"), 600.0);
}

#[test]
fn test_cost_missing_estimate() {
    let graph = graph_with(vec![make_task("t1", "No estimate")]);
    assert_eq!(cost_of(&graph, &[], "t1"), 0.0);
}

#[test]
fn test_cost_missing_cost_field_in_estimate() {
    let graph = graph_with(vec![make_task("t1", "Hours only")]);
    // cost is None → defaults to 0.0
    assert_eq!(cost_of(&graph, &[], "t1"), 0.0);
}

#[test]
fn test_cost_dep_missing_estimate() {
    let dep = make_task("dep", "Dep with no estimate");
    let mut main = make_task("main", "Main");
    main.blocked_by = vec!["dep".to_string()];
    let graph = graph_with(vec![dep, main]);
    // dep has no estimate (0.0), main has 500.0
    assert_eq!(cost_of(&graph, &[("main", 500.0)], "main"), 500.0);
}

#[test]
fn test_cost_nonexistent_task_returns_zero() {
    let graph = graph_with(vec![make_task("t1", "Task")]);
    assert_eq!(cost_of(&graph, &[("t1", 10.0)], "nonexistent"), 0.0);
}

#[test]
fn test_cost_handles_diamond_dependencies() {
    let leaf = make_task("leaf", "Leaf");
    let mut mid1 = make_task("mid1", "Mid 1");
    mid1.blocked_by = vec!["leaf".to_string()];
    let mut mid2 = make_task("mid2", "Mid 2");
    mid2.blocked_by = vec!["leaf".to_string()];
    let mut root = make_task("root", "Root");
    root.blocked_by = vec!["mid1".to_string(), "mid2".to_string()];
    let graph = graph_with(vec![leaf, mid1, mid2, root]);
    // root(400) + mid1(200) + mid2(300) + leaf(100) = 1000
    let costs = [("leaf", 100.0), ("mid1", 200.0), ("mid2", 300.0), ("root", 400.0)];
    assert_eq!(cost_of(&graph, &costs, "root"), 1000.0);
}

#[test]
fn test_cost_handles_cycle() {
    let mut t1 = make_task("t1", "Task 1");
    t1.blocked_by = vec!["t2".to_string()];
    let mut t2 = make_task("t2", "Task 2");
    t2.blocked_by = vec!["t1".to_string()];
    let graph = graph_with(vec![t1, t2]);
    // Should not infinite loop; each counted once: 100 + 200 = 300
    assert_eq!(cost_of(&graph, &[("t1", 100.0), ("t2", 200.0)], "t1"), 300.0);
}

#[test]
fn cost_basis_lists_each_task_once_in_search_order() {
    let leaf = make_task("leaf", "Leaf");
    let mut mid1 = make_task("mid1", "Mid 1");
    mid1.blocked_by = vec!["leaf".to_string(), "ghost".to_string()];
    let mut mid2 = make_task("mid2", "Mid 2");
    mid2.blocked_by = vec!["leaf".to_string()];
    let mut root = make_task("root", "Root");
    root.blocked_by = vec!["mid1".to_string(), "mid2".to_string()];
    let graph = graph_with(vec![leaf, mid1, mid2, root]);
    assert_eq!(cost_basis(&graph, "root"), vec!["root", "mid1", "leaf", "mid2"]);
    assert_eq!(cost_basis(&graph, "leaf"), vec!["leaf"]);
    assert!(cost_basis(&graph, "ghost").is_empty());
}

#[test]
fn what_a_task_carries_mirrors_what_waits_on_it() {
    let leaf = make_task("leaf", "Leaf");
    let mut mid = make_task("mid", "Middle");
    mid.blocked_by = vec!["leaf".to_string()];
    let mut root = make_task("root", "Root");
    root.blocked_by = vec!["mid".to_string()];
    let other = make_task("other", "Other");
    let graph = graph_with(vec![leaf, mid, root, other]);
    let index = build_reverse_index(&graph);
    for a in ["leaf", "mid", "root", "other"] {
        for b in ["leaf", "mid", "root", "other"] {
            if a == b {
                continue;
            }
            let carries = cost_basis(&graph, a).iter().any(|t| t == b);
            let waits = transitive_dependents(&index, b).iter().any(|t| t == a);
            assert_eq!(carries, waits, "{} and {}", a, b);
        }
    }
}
