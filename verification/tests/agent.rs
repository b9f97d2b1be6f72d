use workgraph::agent::AgentState;
use workgraph::graph::{Node, Status, Task, WorkGraph};
use workgraph::ops::{agent_claim_at, agent_complete_at, agent_fail_at};

const NOW: &str = "2024-05-01T12:00:00+00:00";

fn setup_graph() -> WorkGraph {
    let mut graph = WorkGraph::new();
    graph.add_node(Node::Task(Task::new("t1", "Test task")));
    graph
}

#[test]
fn test_claim_task() {
    let mut graph = setup_graph();
    assert!(agent_claim_at(&mut graph, "t1", "test-agent", NOW));
    let task = graph.get_task("t1").unwrap();
    assert_eq!(task.status, Status::InProgress);
    assert_eq!(task.assigned, Some("test-agent".to_string()));
}

#[test]
fn test_complete_task() {
    let mut graph = setup_graph();
    agent_claim_at(&mut graph, "t1", "test-agent", NOW);
    assert!(agent_complete_at(&mut graph, "t1", "test-agent", NOW));
    let task = graph.get_task("t1").unwrap();
    assert_eq!(task.status, Status::Done);
    assert!(task.completed_at.is_some());
}

#[test]
fn test_fail_task() {
    let mut graph = setup_graph();
    agent_claim_at(&mut graph, "t1", "test-agent", NOW);
    assert!(agent_fail_at(&mut graph, "t1", "test-agent", "Test failure", NOW));
    let task = graph.get_task("t1").unwrap();
    assert_eq!(task.status, Status::Failed);
    assert_eq!(task.failure_reason, Some("Test failure".to_string()));
    assert_eq!(task.retry_count, 1);
    assert_eq!(task.log.last().unwrap().message, "Failed: Test failure");
}

#[test]
fn agent_ops_on_missing_task_change_nothing() {
    let mut graph = setup_graph();
    assert!(!agent_claim_at(&mut graph, "nope", "a", NOW));
    assert!(!agent_complete_at(&mut graph, "nope", "a", NOW));
    assert!(!agent_fail_at(&mut graph, "nope", "a", "r", NOW));
    assert_eq!(graph.get_task("t1").unwrap().status, Status::Open);
}

#[test]
fn test_agent_state_new() {
    let state = AgentState::new("test-agent");
    assert_eq!(state.actor_id, "test-agent");
    assert_eq!(state.session_count, 1);
    assert!(state.first_run.is_some());
    assert_eq!(state.total_tasks_completed, 0);
    assert_eq!(state.total_tasks_failed, 0);
}

#[test]
fn test_agent_state_record_completed() {
    let mut state = AgentState::new("test-agent");
    assert_eq!(state.total_tasks_completed, 0);
    assert!(state.task_history.is_empty());

    state.record_completed("task-1");
    assert_eq!(state.total_tasks_completed, 1);
    assert_eq!(state.task_history.len(), 1);
    assert_eq!(state.task_history[0].outcome, "completed");
    assert!(state.task_history[0].failure_reason.is_none());
}

#[test]
fn test_agent_state_record_failed() {
    let mut state = AgentState::new("test-agent");
    assert_eq!(state.total_tasks_failed, 0);

    state.record_failed("task-1", "Exit code 1");
    assert_eq!(state.total_tasks_failed, 1);
    assert_eq!(state.task_history.len(), 1);
    assert_eq!(state.task_history[0].outcome, "failed");
    assert_eq!(state.task_history[0].failure_reason, Some("Exit code 1".to_string()));
}

#[test]
fn agent_state_path_and_resume() {
    assert_eq!(AgentState::state_path("/wg", "bot"), "/wg/agents/bot.json");
    let mut state = AgentState::started_at("bot", "2024-01-01T00:00:00Z".to_string());
    state.resume("2024-01-02T00:00:00Z".to_string());
    assert_eq!(state.session_count, 2);
}
