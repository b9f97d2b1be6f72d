use workgraph::coordinate::{get_coordination_status, BlockedTaskSummary, TaskSummary};
use workgraph::graph::{Node, Status, Task, WorkGraph};

fn make_task(id: &str, title: &str) -> Task {
    Task::new(id, title)
}

#[test]
fn test_coordination_status_empty_graph() {
    let graph = WorkGraph::new();
    let status = get_coordination_status(&graph);

    assert!(status.ready.is_empty());
    assert!(status.in_progress.is_empty());
    assert!(status.blocked.is_empty());
    assert_eq!(status.done_count, 0);
    assert_eq!(status.total_count, 0);
}

#[test]
fn test_coordination_status_single_ready_task() {
    let mut graph = WorkGraph::new();
    graph.add_node(Node::Task(make_task("t1", "Task 1")));

    let status = get_coordination_status(&graph);

    assert_eq!(status.ready.len(), 1);
    assert_eq!(status.ready[0].id, "t1");
    assert!(status.in_progress.is_empty());
    assert!(status.blocked.is_empty());
    assert_eq!(status.done_count, 0);
    assert_eq!(status.total_count, 1);
}

#[test]
fn test_coordination_status_with_in_progress() {
    let mut graph = WorkGraph::new();
    let mut task = make_task("t1", "Task 1");
    task.status = Status::InProgress;
    task.assigned = Some("agent-1".to_string());
    graph.add_node(Node::Task(task));

    let status = get_coordination_status(&graph);

    assert!(status.ready.is_empty());
    assert_eq!(status.in_progress.len(), 1);
    assert_eq!(status.in_progress[0].id, "t1");
    assert_eq!(status.in_progress[0].assigned, Some("agent-1".to_string()));
}

#[test]
fn test_coordination_status_with_blocked() {
    let mut graph = WorkGraph::new();
    let blocker = make_task("blocker", "Blocker task");
    let mut blocked = make_task("blocked", "Blocked task");
    blocked.blocked_by = vec!["blocker".to_string()];
    graph.add_node(Node::Task(blocker));
    graph.add_node(Node::Task(blocked));

    let status = get_coordination_status(&graph);

    assert_eq!(status.ready.len(), 1);
    assert_eq!(status.ready[0].id, "blocker");
    assert_eq!(status.blocked.len(), 1);
    assert_eq!(status.blocked[0].id, "blocked");
    assert_eq!(status.blocked[0].blocked_by, vec!["blocker"]);
}

#[test]
fn test_coordination_status_counts_done() {
    let mut graph = WorkGraph::new();
    let mut done = make_task("done", "Done task");
    done.status = Status::Done;
    graph.add_node(Node::Task(done));
    graph.add_node(Node::Task(make_task("open", "Open task")));

    let status = get_coordination_status(&graph);

    assert_eq!(status.done_count, 1);
    assert_eq!(status.total_count, 2);
}

#[test]
fn test_coordination_status_unblocked_when_blocker_done() {
    let mut graph = WorkGraph::new();
    let mut blocker = make_task("blocker", "Blocker task");
    blocker.status = Status::Done;
    let mut blocked = make_task("blocked", "Was blocked task");
    blocked.blocked_by = vec!["blocker".to_string()];
    graph.add_node(Node::Task(blocker));
    graph.add_node(Node::Task(blocked));

    let status = get_coordination_status(&graph);

    assert_eq!(status.ready.len(), 1);
    assert_eq!(status.ready[0].id, "blocked");
    assert!(status.blocked.is_empty());
}

#[test]
fn test_task_summary_from_task() {
    let mut task = make_task("t1", "Task 1");
    task.assigned = Some("agent".to_string());

    let summary = TaskSummary::from_task(&task);

    assert_eq!(summary.id, "t1");
    assert_eq!(summary.title, "Task 1");
    assert_eq!(summary.assigned, Some("agent".to_string()));
}

#[test]
fn test_coordination_status_multi_level_blocking() {
    let mut graph = WorkGraph::new();
    let t1 = make_task("t1", "Root");
    let mut t2 = make_task("t2", "Middle");
    t2.blocked_by = vec!["t1".to_string()];
    let mut t3 = make_task("t3", "Leaf");
    t3.blocked_by = vec!["t2".to_string()];
    graph.add_node(Node::Task(t1));
    graph.add_node(Node::Task(t2));
    graph.add_node(Node::Task(t3));

    let status = get_coordination_status(&graph);

    assert_eq!(status.ready.len(), 1);
    assert_eq!(status.ready[0].id, "t1");
    assert_eq!(status.blocked.len(), 2);
}

#[test]
fn test_coordination_status_multiple_blockers_for_one_task() {
    let mut graph = WorkGraph::new();
    let mut t3 = make_task("t3", "Needs both");
    t3.blocked_by = vec!["t1".to_string(), "t2".to_string()];
    graph.add_node(Node::Task(make_task("t1", "Blocker 1")));
    graph.add_node(Node::Task(make_task("t2", "Blocker 2")));
    graph.add_node(Node::Task(t3));

    let status = get_coordination_status(&graph);

    assert_eq!(status.ready.len(), 2);
    assert_eq!(status.blocked.len(), 1);
    assert_eq!(status.blocked[0].blocked_by.len(), 2);
}

#[test]
fn test_coordination_status_partial_blocker_completion() {
    let mut graph = WorkGraph::new();
    let mut t1 = make_task("t1", "Done blocker");
    t1.status = Status::Done;
    let mut t3 = make_task("t3", "Needs both");
    t3.blocked_by = vec!["t1".to_string(), "t2".to_string()];
    graph.add_node(Node::Task(t1));
    graph.add_node(Node::Task(make_task("t2", "Open blocker")));
    graph.add_node(Node::Task(t3));

    let status = get_coordination_status(&graph);

    assert_eq!(status.blocked.len(), 1);
    assert_eq!(status.blocked[0].id, "t3");
}

#[test]
fn test_coordination_status_all_tasks_done() {
    let mut graph = WorkGraph::new();
    let mut t1 = make_task("t1", "Done 1");
    t1.status = Status::Done;
    let mut t2 = make_task("t2", "Done 2");
    t2.status = Status::Done;
    graph.add_node(Node::Task(t1));
    graph.add_node(Node::Task(t2));

    let status = get_coordination_status(&graph);

    assert!(status.ready.is_empty());
    assert!(status.in_progress.is_empty());
    assert!(status.blocked.is_empty());
    assert_eq!(status.done_count, 2);
    assert_eq!(status.total_count, 2);
}

#[test]
fn test_coordination_status_all_tasks_blocked() {
    let mut graph = WorkGraph::new();
    let mut t1 = make_task("t1", "Blocked 1");
    t1.blocked_by = vec!["nonexistent1".to_string()];
    let mut t2 = make_task("t2", "Blocked 2");
    t2.blocked_by = vec!["nonexistent2".to_string()];
    graph.add_node(Node::Task(t1));
    graph.add_node(Node::Task(t2));

    let status = get_coordination_status(&graph);

    assert!(status.total_count > 0, "Tasks with nonexistent blockers should be counted");
    assert_eq!(status.blocked.len(), 2, "Tasks with nonexistent blockers should be blocked");
}

#[test]
fn test_coordination_status_failed_tasks_not_in_progress() {
    let mut graph = WorkGraph::new();
    let mut t1 = make_task("t1", "Failed");
    t1.status = Status::Failed;
    let mut t2 = make_task("t2", "Abandoned");
    t2.status = Status::Abandoned;
    graph.add_node(Node::Task(t1));
    graph.add_node(Node::Task(t2));

    let status = get_coordination_status(&graph);

    assert!(status.in_progress.is_empty());
    assert!(status.ready.is_empty());
}

#[test]
fn test_coordination_status_done_not_ready() {
    let mut graph = WorkGraph::new();
    let mut t1 = make_task("t1", "Done task");
    t1.status = Status::Done;
    graph.add_node(Node::Task(t1));

    assert!(get_coordination_status(&graph).ready.is_empty());
}

#[test]
fn test_blocked_task_summary_from_task() {
    let mut task = make_task("blocked1", "Blocked task");
    task.blocked_by = vec!["dep1".to_string(), "dep2".to_string()];

    let summary = BlockedTaskSummary::from_task(&task);
    assert_eq!(summary.id, "blocked1");
    assert_eq!(summary.title, "Blocked task");
    assert_eq!(summary.blocked_by, vec!["dep1", "dep2"]);
}

#[test]
fn test_coordination_status_large_graph() {
    let mut graph = WorkGraph::new();
    for i in 0..50 {
        graph.add_node(Node::Task(make_task(&format!("ready-{}", i), &format!("Ready task {}", i))));
    }
    for i in 0..25 {
        let mut t = make_task(&format!("ip-{}", i), &format!("In progress {}", i));
        t.status = Status::InProgress;
        graph.add_node(Node::Task(t));
    }
    for i in 0..25 {
        let mut t = make_task(&format!("done-{}", i), &format!("Done {}", i));
        t.status = Status::Done;
        graph.add_node(Node::Task(t));
    }

    let status = get_coordination_status(&graph);

    assert_eq!(status.ready.len(), 50);
    assert_eq!(status.in_progress.len(), 25);
    assert_eq!(status.done_count, 25);
    assert_eq!(status.total_count, 100);
}
