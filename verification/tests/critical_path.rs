use workgraph::critical_path::{build_forward_index, collect_cycle_nodes, detect_cycles_among_active, entry_points};
use workgraph::graph::{Node, Status, Task, WorkGraph};

fn make_task(id: &str, title: &str) -> Task {
    Task::new(id, title)
}

#[test]
fn test_cycle_detection() {
    let mut graph = WorkGraph::new();
    let mut t1 = make_task("t1", "Task 1");
    t1.blocked_by = vec!["t2".to_string()];
    let mut t2 = make_task("t2", "Task 2");
    t2.blocked_by = vec!["t1".to_string()];
    graph.add_node(Node::Task(t1));
    graph.add_node(Node::Task(t2));

    let cycles = detect_cycles_among_active(&graph);
    assert!(!cycles.is_empty());
}

#[test]
fn test_build_forward_index() {
    let mut graph = WorkGraph::new();
    let t1 = make_task("t1", "Task 1");
    let mut t2 = make_task("t2", "Task 2");
    t2.blocked_by = vec!["t1".to_string()];
    let mut t3 = make_task("t3", "Task 3");
    t3.blocked_by = vec!["t1".to_string()];
    graph.add_node(Node::Task(t1));
    graph.add_node(Node::Task(t2));
    graph.add_node(Node::Task(t3));

    let forward_index = build_forward_index(&graph, &vec![]);
    let t1_blocks = &forward_index.entries.iter().find(|e| e.blocker == "t1").unwrap().dependents;
    assert_eq!(t1_blocks.len(), 2);
    assert!(t1_blocks.contains(&"t2".to_string()));
    assert!(t1_blocks.contains(&"t3".to_string()));
}

#[test]
fn cycles_through_finished_tasks_are_ignored() {
    let mut graph = WorkGraph::new();
    let mut t1 = make_task("t1", "Task 1");
    t1.blocked_by = vec!["t2".to_string()];
    let mut t2 = make_task("t2", "Task 2");
    t2.blocked_by = vec!["t1".to_string()];
    t2.status = Status::Done;
    graph.add_node(Node::Task(t1));
    graph.add_node(Node::Task(t2));

    assert!(detect_cycles_among_active(&graph).is_empty());
}

#[test]
fn cycle_nodes_leave_index_and_entries() {
    let mut graph = WorkGraph::new();
    let mut a = make_task("a", "A");
    a.blocked_by = vec!["b".to_string()];
    let mut b = make_task("b", "B");
    b.blocked_by = vec!["a".to_string()];
    let mut c = make_task("c", "C");
    c.blocked_by = vec!["a".to_string(), "d".to_string()];
    let d = make_task("d", "D");
    let mut e = make_task("e", "E");
    e.status = Status::Done;
    graph.add_node(Node::Task(a));
    graph.add_node(Node::Task(b));
    graph.add_node(Node::Task(c));
    graph.add_node(Node::Task(d));
    graph.add_node(Node::Task(e));

    let cycles = detect_cycles_among_active(&graph);
    let members = collect_cycle_nodes(&cycles);
    assert_eq!(members.len(), 2);
    assert!(members.contains(&"a".to_string()) && members.contains(&"b".to_string()));

    let entries = entry_points(&graph, &members);
    assert_eq!(entries, vec!["d".to_string()]);
    let index = build_forward_index(&graph, &members);
    assert_eq!(index.entries.len(), 1);
    assert_eq!(index.entries[0].blocker, "d");
    assert_eq!(index.entries[0].dependents, vec!["c".to_string()]);
}
