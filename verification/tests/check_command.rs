use workgraph::check::{check_all, CheckResult};
use workgraph::graph::{LoopEdge, Node, Task, WorkGraph};

fn make_task(id: &str, title: &str) -> Task {
    Task::new(id, title)
}

/// The command fails on errors (dangling references, loop-edge issues);
/// cycles are only warnings.
fn errors(r: &CheckResult) -> usize {
    r.orphan_refs.len() + r.loop_edge_issues.len()
}

#[test]
fn test_check_ok_clean_graph() {
    let mut graph = WorkGraph::new();
    graph.add_node(Node::Task(make_task("t1", "Task 1")));
    graph.add_node(Node::Task(make_task("t2", "Task 2")));
    let r = check_all(&graph);
    assert_eq!(errors(&r), 0, "clean graph should pass check");
    assert!(r.ok);
}

#[test]
fn test_check_fails_on_orphan_refs() {
    let mut graph = WorkGraph::new();
    let mut t1 = make_task("t1", "Task 1");
    t1.blocked_by = vec!["nonexistent".to_string()];
    graph.add_node(Node::Task(t1));
    let r = check_all(&graph);
    assert!(errors(&r) > 0, "orphan refs should fail check");
}

#[test]
fn test_check_warns_on_cycles_but_no_error_alone() {
    let mut graph = WorkGraph::new();
    let mut t1 = make_task("t1", "Task 1");
    t1.blocked_by = vec!["t2".to_string()];
    let mut t2 = make_task("t2", "Task 2");
    t2.blocked_by = vec!["t1".to_string()];
    graph.add_node(Node::Task(t1));
    graph.add_node(Node::Task(t2));
    let r = check_all(&graph);
    assert!(!r.cycles.is_empty());
    assert_eq!(errors(&r), 0, "cycles alone should not cause check failure (they are warnings)");
}

#[test]
fn test_check_fails_on_loop_edge_issues() {
    let mut graph = WorkGraph::new();
    let mut t1 = make_task("t1", "Task 1");
    t1.loops_to = vec![LoopEdge { target: "nonexistent".to_string(), guard: None, max_iterations: 3, delay: None }];
    graph.add_node(Node::Task(t1));
    let r = check_all(&graph);
    assert!(errors(&r) > 0, "loop edge issues should fail check");
}

#[test]
fn test_check_ok_with_valid_loop_edges() {
    let mut graph = WorkGraph::new();
    let t1 = make_task("t1", "Task 1");
    let mut t2 = make_task("t2", "Task 2");
    t2.loops_to = vec![LoopEdge { target: "t1".to_string(), guard: None, max_iterations: 5, delay: None }];
    graph.add_node(Node::Task(t1));
    graph.add_node(Node::Task(t2));
    let r = check_all(&graph);
    assert_eq!(errors(&r), 0, "valid loop edges should pass check");
}

#[test]
fn test_check_warns_on_stale_assignments_but_no_error() {
    let mut graph = WorkGraph::new();
    let mut t1 = make_task("t1", "Task 1");
    t1.assigned = Some("agent-dead".to_string());
    graph.add_node(Node::Task(t1));
    let r = check_all(&graph);
    assert_eq!(errors(&r), 0, "stale assignments alone should not cause check failure (they are warnings)");
}
