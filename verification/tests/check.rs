use workgraph::check::{check_all, check_cycles, check_loop_edges, check_orphans, LoopEdgeIssueKind};
use workgraph::graph::{LoopEdge, LoopGuard, Node, Resource, Status, Task, WorkGraph};

fn make_task(id: &str, title: &str) -> Task {
    Task::new(id, title)
}

#[test]
fn test_no_cycles_in_empty_graph() {
    let graph = WorkGraph::new();
    let cycles = check_cycles(&graph);
    assert!(cycles.is_empty());
}

#[test]
fn test_no_cycles_in_linear_chain() {
    let mut graph = WorkGraph::new();

    let t1 = make_task("t1", "Task 1");
    let mut t2 = make_task("t2", "Task 2");
    t2.blocked_by = vec!["t1".to_string()];
    let mut t3 = make_task("t3", "Task 3");
    t3.blocked_by = vec!["t2".to_string()];

    graph.add_node(Node::Task(t1));
    graph.add_node(Node::Task(t2));
    graph.add_node(Node::Task(t3));

    let cycles = check_cycles(&graph);
    assert!(cycles.is_empty());
}

#[test]
fn test_detects_simple_cycle() {
    let mut graph = WorkGraph::new();

    let mut t1 = make_task("t1", "Task 1");
    t1.blocked_by = vec!["t2".to_string()];

    let mut t2 = make_task("t2", "Task 2");
    t2.blocked_by = vec!["t1".to_string()];

    graph.add_node(Node::Task(t1));
    graph.add_node(Node::Task(t2));

    let cycles = check_cycles(&graph);
    assert!(!cycles.is_empty());
}

#[test]
fn test_detects_three_node_cycle() {
    let mut graph = WorkGraph::new();

    let mut t1 = make_task("t1", "Task 1");
    t1.blocked_by = vec!["t3".to_string()];

    let mut t2 = make_task("t2", "Task 2");
    t2.blocked_by = vec!["t1".to_string()];

    let mut t3 = make_task("t3", "Task 3");
    t3.blocked_by = vec!["t2".to_string()];

    graph.add_node(Node::Task(t1));
    graph.add_node(Node::Task(t2));
    graph.add_node(Node::Task(t3));

    let cycles = check_cycles(&graph);
    assert!(!cycles.is_empty());
}

#[test]
fn test_no_orphans_in_empty_graph() {
    let graph = WorkGraph::new();
    let orphans = check_orphans(&graph);
    assert!(orphans.is_empty());
}

#[test]
fn test_no_orphans_with_valid_refs() {
    let mut graph = WorkGraph::new();

    let t1 = make_task("t1", "Task 1");
    let mut t2 = make_task("t2", "Task 2");
    t2.blocked_by = vec!["t1".to_string()];

    graph.add_node(Node::Task(t1));
    graph.add_node(Node::Task(t2));

    let orphans = check_orphans(&graph);
    assert!(orphans.is_empty());
}

#[test]
fn test_detects_orphan_blocked_by() {
    let mut graph = WorkGraph::new();

    let mut task = make_task("t1", "Task 1");
    task.blocked_by = vec!["nonexistent".to_string()];

    graph.add_node(Node::Task(task));

    let orphans = check_orphans(&graph);
    assert_eq!(orphans.len(), 1);
    assert_eq!(orphans[0].to, "nonexistent");
    assert_eq!(orphans[0].relation, "blocked_by");
}

#[test]
fn test_check_all_returns_ok_for_valid_graph() {
    let mut graph = WorkGraph::new();
    graph.add_node(Node::Task(make_task("t1", "Task 1")));

    let result = check_all(&graph);
    assert!(result.ok);
    assert!(result.cycles.is_empty());
    assert!(result.orphan_refs.is_empty());
}

#[test]
fn test_check_all_returns_not_ok_for_invalid_graph() {
    let mut graph = WorkGraph::new();

    let mut t1 = make_task("t1", "Task 1");
    t1.blocked_by = vec!["t2".to_string()];

    let mut t2 = make_task("t2", "Task 2");
    t2.blocked_by = vec!["t1".to_string()];

    graph.add_node(Node::Task(t1));
    graph.add_node(Node::Task(t2));

    let result = check_all(&graph);
    assert!(!result.ok);
    assert!(!result.cycles.is_empty());
}

// --- Loop edge validation tests ---


#[test]
fn test_no_loop_issues_for_valid_edges() {
    let mut graph = WorkGraph::new();
    let t1 = make_task("t1", "Task 1");
    let mut t2 = make_task("t2", "Task 2");
    t2.loops_to = vec![LoopEdge {
        target: "t1".to_string(),
        guard: None,
        max_iterations: 3,
        delay: None,
    }];

    graph.add_node(Node::Task(t1));
    graph.add_node(Node::Task(t2));

    let issues = check_loop_edges(&graph);
    assert!(issues.is_empty());
}

#[test]
fn test_loop_target_not_found() {
    let mut graph = WorkGraph::new();
    let mut t1 = make_task("t1", "Task 1");
    t1.loops_to = vec![LoopEdge {
        target: "nonexistent".to_string(),
        guard: None,
        max_iterations: 3,
        delay: None,
    }];

    graph.add_node(Node::Task(t1));

    let issues = check_loop_edges(&graph);
    assert_eq!(issues.len(), 1);
    assert_eq!(issues[0].kind, LoopEdgeIssueKind::TargetNotFound);
}

#[test]
fn test_loop_zero_max_iterations() {
    let mut graph = WorkGraph::new();
    let t1 = make_task("t1", "Task 1");
    let mut t2 = make_task("t2", "Task 2");
    t2.loops_to = vec![LoopEdge {
        target: "t1".to_string(),
        guard: None,
        max_iterations: 0,
        delay: None,
    }];

    graph.add_node(Node::Task(t1));
    graph.add_node(Node::Task(t2));

    let issues = check_loop_edges(&graph);
    assert_eq!(issues.len(), 1);
    assert_eq!(issues[0].kind, LoopEdgeIssueKind::ZeroMaxIterations);
}

#[test]
fn test_loop_guard_task_not_found() {
    let mut graph = WorkGraph::new();
    let t1 = make_task("t1", "Task 1");
    let mut t2 = make_task("t2", "Task 2");
    t2.loops_to = vec![LoopEdge {
        target: "t1".to_string(),
        guard: Some(LoopGuard::TaskStatus {
            task: "nonexistent".to_string(),
            status: Status::Done,
        }),
        max_iterations: 3,
        delay: None,
    }];

    graph.add_node(Node::Task(t1));
    graph.add_node(Node::Task(t2));

    let issues = check_loop_edges(&graph);
    assert_eq!(issues.len(), 1);
    assert_eq!(
        issues[0].kind,
        LoopEdgeIssueKind::GuardTaskNotFound("nonexistent".to_string())
    );
}

#[test]
fn test_loop_self_loop() {
    let mut graph = WorkGraph::new();
    let mut t1 = make_task("t1", "Task 1");
    t1.loops_to = vec![LoopEdge {
        target: "t1".to_string(),
        guard: None,
        max_iterations: 3,
        delay: None,
    }];

    graph.add_node(Node::Task(t1));

    let issues = check_loop_edges(&graph);
    assert_eq!(issues.len(), 1);
    assert_eq!(issues[0].kind, LoopEdgeIssueKind::SelfLoop);
}

#[test]
fn test_loop_multiple_issues_same_edge() {
    let mut graph = WorkGraph::new();
    // Self-loop with zero max_iterations — should report both issues
    let mut t1 = make_task("t1", "Task 1");
    t1.loops_to = vec![LoopEdge {
        target: "t1".to_string(),
        guard: None,
        max_iterations: 0,
        delay: None,
    }];

    graph.add_node(Node::Task(t1));

    let issues = check_loop_edges(&graph);
    assert_eq!(issues.len(), 2);
    let kinds: Vec<&LoopEdgeIssueKind> = issues.iter().map(|i| &i.kind).collect();
    assert!(kinds.contains(&&LoopEdgeIssueKind::SelfLoop));
    assert!(kinds.contains(&&LoopEdgeIssueKind::ZeroMaxIterations));
}

#[test]
fn test_check_all_ok_with_valid_loop_edges() {
    let mut graph = WorkGraph::new();
    let t1 = make_task("t1", "Task 1");
    let mut t2 = make_task("t2", "Task 2");
    t2.loops_to = vec![LoopEdge {
        target: "t1".to_string(),
        guard: None,
        max_iterations: 3,
        delay: None,
    }];

    graph.add_node(Node::Task(t1));
    graph.add_node(Node::Task(t2));

    let result = check_all(&graph);
    assert!(result.ok);
    assert!(result.loop_edge_issues.is_empty());
}

#[test]
fn test_check_all_not_ok_with_loop_edge_issues() {
    let mut graph = WorkGraph::new();
    let mut t1 = make_task("t1", "Task 1");
    t1.loops_to = vec![LoopEdge {
        target: "nonexistent".to_string(),
        guard: None,
        max_iterations: 3,
        delay: None,
    }];

    graph.add_node(Node::Task(t1));

    let result = check_all(&graph);
    assert!(!result.ok);
    assert!(!result.loop_edge_issues.is_empty());
}

// --- Orphan detection tests for blocks, requires, and edge cases ---


#[test]
fn test_detects_orphan_blocks() {
    let mut graph = WorkGraph::new();

    let mut task = make_task("t1", "Task 1");
    task.blocks = vec!["nonexistent".to_string()];

    graph.add_node(Node::Task(task));

    let orphans = check_orphans(&graph);
    assert_eq!(orphans.len(), 1);
    assert_eq!(orphans[0].from, "t1");
    assert_eq!(orphans[0].to, "nonexistent");
    assert_eq!(orphans[0].relation, "blocks");
}

#[test]
fn test_no_orphan_blocks_with_valid_ref() {
    let mut graph = WorkGraph::new();

    let t1 = make_task("t1", "Task 1");
    let mut t2 = make_task("t2", "Task 2");
    t2.blocks = vec!["t1".to_string()];

    graph.add_node(Node::Task(t1));
    graph.add_node(Node::Task(t2));

    let orphans = check_orphans(&graph);
    assert!(orphans.is_empty());
}

#[test]
fn test_detects_orphan_requires() {
    let mut graph = WorkGraph::new();

    let mut task = make_task("t1", "Task 1");
    task.requires = vec!["nonexistent-resource".to_string()];

    graph.add_node(Node::Task(task));

    let orphans = check_orphans(&graph);
    assert_eq!(orphans.len(), 1);
    assert_eq!(orphans[0].from, "t1");
    assert_eq!(orphans[0].to, "nonexistent-resource");
    assert_eq!(orphans[0].relation, "requires");
}

#[test]
fn test_no_orphan_requires_with_valid_resource() {
    let mut graph = WorkGraph::new();

    let mut task = make_task("t1", "Task 1");
    task.requires = vec!["gpu".to_string()];

    let resource = Resource {
        id: "gpu".to_string(),
        name: Some("GPU Compute".to_string()),
        resource_type: Some("compute".to_string()),
        unit: Some("GPUs".to_string()),
    };

    graph.add_node(Node::Task(task));
    graph.add_node(Node::Resource(resource));

    let orphans = check_orphans(&graph);
    assert!(orphans.is_empty());
}

#[test]
fn test_requires_task_id_is_orphan() {
    // requires uses get_resource, so a task ID in requires is an orphan
    let mut graph = WorkGraph::new();

    let t1 = make_task("t1", "Task 1");
    let mut t2 = make_task("t2", "Task 2");
    t2.requires = vec!["t1".to_string()];

    graph.add_node(Node::Task(t1));
    graph.add_node(Node::Task(t2));

    let orphans = check_orphans(&graph);
    assert_eq!(orphans.len(), 1);
    assert_eq!(orphans[0].from, "t2");
    assert_eq!(orphans[0].to, "t1");
    assert_eq!(orphans[0].relation, "requires");
}

#[test]
fn test_multiple_orphans_in_same_task() {
    let mut graph = WorkGraph::new();

    let mut task = make_task("t1", "Task 1");
    task.blocked_by = vec!["ghost-a".to_string()];
    task.blocks = vec!["ghost-b".to_string()];
    task.requires = vec!["ghost-resource".to_string()];

    graph.add_node(Node::Task(task));

    let orphans = check_orphans(&graph);
    assert_eq!(orphans.len(), 3);

    let relations: Vec<&str> = orphans.iter().map(|o| o.relation.as_str()).collect();
    assert!(relations.contains(&"blocked_by"));
    assert!(relations.contains(&"blocks"));
    assert!(relations.contains(&"requires"));

    // All orphans come from t1
    assert!(orphans.iter().all(|o| o.from == "t1"));
}

#[test]
fn test_bidirectional_orphans() {
    // t1 blocks nonexistent, t2 blocked_by nonexistent — both are orphans
    let mut graph = WorkGraph::new();

    let mut t1 = make_task("t1", "Task 1");
    t1.blocks = vec!["phantom".to_string()];

    let mut t2 = make_task("t2", "Task 2");
    t2.blocked_by = vec!["phantom".to_string()];

    graph.add_node(Node::Task(t1));
    graph.add_node(Node::Task(t2));

    let orphans = check_orphans(&graph);
    assert_eq!(orphans.len(), 2);

    let from_ids: Vec<&str> = orphans.iter().map(|o| o.from.as_str()).collect();
    assert!(from_ids.contains(&"t1"));
    assert!(from_ids.contains(&"t2"));
}

#[test]
fn test_blocks_referencing_resource_is_valid() {
    // blocks uses get_node, so a Resource ID in blocks is NOT an orphan
    let mut graph = WorkGraph::new();

    let mut task = make_task("t1", "Task 1");
    task.blocks = vec!["budget".to_string()];

    let resource = Resource {
        id: "budget".to_string(),
        name: Some("Budget".to_string()),
        resource_type: Some("budget".to_string()),
        unit: Some("USD".to_string()),
    };

    graph.add_node(Node::Task(task));
    graph.add_node(Node::Resource(resource));

    let orphans = check_orphans(&graph);
    assert!(orphans.is_empty());
}

#[test]
fn test_valid_guard_task_reference() {
    let mut graph = WorkGraph::new();
    let t1 = make_task("t1", "Task 1");
    let t2 = make_task("t2", "Task 2");
    let mut t3 = make_task("t3", "Task 3");
    t3.loops_to = vec![LoopEdge {
        target: "t1".to_string(),
        guard: Some(LoopGuard::TaskStatus {
            task: "t2".to_string(),
            status: Status::Done,
        }),
        max_iterations: 5,
        delay: None,
    }];

    graph.add_node(Node::Task(t1));
    graph.add_node(Node::Task(t2));
    graph.add_node(Node::Task(t3));

    let issues = check_loop_edges(&graph);
    assert!(issues.is_empty());
}

#[test]
fn two_task_cycle_is_reported_once_in_search_order() {
    let mut graph = WorkGraph::new();
    let mut t1 = make_task("t1", "Task 1");
    t1.blocked_by = vec!["t2".to_string()];
    let mut t2 = make_task("t2", "Task 2");
    t2.blocked_by = vec!["t1".to_string()];
    graph.add_node(Node::Task(t1));
    graph.add_node(Node::Task(t2));
    assert_eq!(check_cycles(&graph), vec![vec!["t1".to_string(), "t2".to_string()]]);
    assert_eq!(check_all(&graph).cycles, check_cycles(&graph));
}

#[test]
fn each_back_edge_closes_one_cycle() {
    // a -> b -> c -> a and c -> b: two cycles, found from a.
    let mut graph = WorkGraph::new();
    let mut a = make_task("a", "A");
    a.blocked_by = vec!["b".to_string()];
    let mut b = make_task("b", "B");
    b.blocked_by = vec!["c".to_string()];
    let mut c = make_task("c", "C");
    c.blocked_by = vec!["a".to_string(), "b".to_string()];
    graph.add_node(Node::Task(a));
    graph.add_node(Node::Task(b));
    graph.add_node(Node::Task(c));
    let s = |v: &[&str]| v.iter().map(|x| x.to_string()).collect::<Vec<String>>();
    assert_eq!(check_cycles(&graph), vec![s(&["a", "b", "c"]), s(&["b", "c"])]);
}
