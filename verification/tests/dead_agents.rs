use workgraph::dead_agents::{cleanup, DeadAgentInfo};
use workgraph::graph::{Node, Status, Task, WorkGraph};

const NOW: &str = "2024-05-01T12:00:00+00:00";

fn make_task(id: &str, title: &str, status: Status) -> Task {
    let mut t = Task::new(id, title);
    t.status = status;
    t
}

fn setup_with_agent_and_task() -> (WorkGraph, Vec<DeadAgentInfo>) {
    let mut graph = WorkGraph::new();
    let mut task = make_task("task-1", "Test Task", Status::InProgress);
    task.assigned = Some("test-agent".to_string());
    graph.add_node(Node::Task(task));
    let dead = vec![DeadAgentInfo {
        agent_id: "agent-1".to_string(),
        task_id: "task-1".to_string(),
        pid: 12345,
        last_heartbeat: "2020-01-01T00:00:00Z".to_string(),
        seconds_since_heartbeat: 3600,
    }];
    (graph, dead)
}

#[test]
fn test_cleanup_marks_dead_and_unclaims() {
    let (mut graph, dead) = setup_with_agent_and_task();
    let detection = cleanup(&mut graph, dead, NOW);
    assert_eq!(detection.dead_agents.len(), 1);
    assert_eq!(detection.tasks_unclaimed.len(), 1);
    assert_eq!(detection.tasks_unclaimed[0], "task-1");

    let task = graph.get_task("task-1").unwrap();
    assert_eq!(task.status, Status::Open);
    assert!(task.assigned.is_none());
}

#[test]
fn test_cleanup_no_dead_agents() {
    let mut graph = WorkGraph::new();
    let detection = cleanup(&mut graph, vec![], NOW);
    assert!(detection.dead_agents.is_empty());
    assert!(detection.tasks_unclaimed.is_empty());
}

#[test]
fn test_task_log_entry_on_unclaim() {
    let (mut graph, dead) = setup_with_agent_and_task();
    cleanup(&mut graph, dead, NOW);

    let task = graph.get_task("task-1").unwrap();
    assert!(!task.log.is_empty());
    let log = task.log.last().unwrap();
    assert!(log.message.contains("dead"));
    assert!(log.message.contains("agent-1"));
    assert_eq!(
        log.message,
        "Task unclaimed: agent 'agent-1' (PID 12345) detected as dead (no heartbeat for 3600 seconds)"
    );
}

#[test]
fn cleanup_reports_missing_tasks_and_skips_finished_ones() {
    let mut graph = WorkGraph::new();
    graph.add_node(Node::Task(make_task("done-1", "Done", Status::Done)));
    let dead = vec![
        DeadAgentInfo {
            agent_id: "agent-2".to_string(),
            task_id: "gone".to_string(),
            pid: 1,
            last_heartbeat: "2020-01-01T00:00:00Z".to_string(),
            seconds_since_heartbeat: 10,
        },
        DeadAgentInfo {
            agent_id: "agent-3".to_string(),
            task_id: "done-1".to_string(),
            pid: 2,
            last_heartbeat: "2020-01-01T00:00:00Z".to_string(),
            seconds_since_heartbeat: 10,
        },
    ];
    let detection = cleanup(&mut graph, dead, NOW);
    assert!(detection.tasks_unclaimed.is_empty());
    assert_eq!(detection.errors, vec!["Task 'gone' not found for dead agent 'agent-2'".to_string()]);
    assert_eq!(graph.get_task("done-1").unwrap().status, Status::Done);
}
