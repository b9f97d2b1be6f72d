use workgraph::agency::{content_hash, find_by_prefix, AgencyError};
use workgraph::assign::{assign_error_message, run, AssignError, AssignOutcome};
use workgraph::graph::{Node, Task, WorkGraph};

fn make_task(id: &str, title: &str) -> Task {
    Task::new(id, title)
}

fn setup_workgraph(tasks: Vec<Task>) -> WorkGraph {
    let mut graph = WorkGraph::new();
    for task in tasks {
        graph.add_node(Node::Task(task));
    }
    graph
}

/// The ids of the agents on record.
fn setup_identity() -> Vec<String> {
    vec![content_hash("role_id: r1\nmotivation_id: m1\n"), content_hash("role_id: r2\nmotivation_id: m2\n")]
}

fn resolve(agents: &Vec<String>, prefix: &str) -> Result<String, AgencyError> {
    find_by_prefix(agents, prefix, "agent").map(|i| agents[i].clone())
}

#[test]
fn test_assign_explicit_agent_hash() {
    let mut graph = setup_workgraph(vec![make_task("t1", "Test task")]);
    let agents = setup_identity();
    let agent_id = resolve(&agents, &agents[0]).unwrap();

    let result = run(&mut graph, "t1", Some(&agent_id), false);
    assert!(result.is_ok(), "assign failed: {:?}", result.err());
    assert_eq!(graph.get_task("t1").unwrap().agent, Some(agent_id));
}

#[test]
fn test_assign_by_prefix() {
    let mut graph = setup_workgraph(vec![make_task("t1", "Test task")]);
    let agents = setup_identity();
    let prefix = &agents[0][..8];
    let agent_id = resolve(&agents, prefix).unwrap();

    let result = run(&mut graph, "t1", Some(&agent_id), false);
    assert!(result.is_ok(), "assign by prefix failed: {:?}", result.err());
    assert_eq!(graph.get_task("t1").unwrap().agent, Some(agents[0].clone()));
}

#[test]
fn test_assign_clear() {
    let mut task = make_task("t1", "Test task");
    task.agent = Some("some-agent-hash".to_string());
    let mut graph = setup_workgraph(vec![task]);

    let result = run(&mut graph, "t1", None, true);
    assert_eq!(result, Ok(AssignOutcome::Cleared(Some("some-agent-hash".to_string()))));
    assert!(graph.get_task("t1").unwrap().agent.is_none());
}

#[test]
fn test_assign_nonexistent_task() {
    let mut graph = setup_workgraph(vec![]);
    let agents = setup_identity();

    let result = run(&mut graph, "nonexistent", Some(&agents[0]), false);
    assert!(result.is_err());
    assert!(assign_error_message("nonexistent", &result.unwrap_err()).contains("not found"));
}

#[test]
fn test_assign_nonexistent_agent() {
    let agents = setup_identity();
    match resolve(&agents, "nonexistent") {
        Err(AgencyError::NotFound(m)) => assert!(m.contains("No agent matching 'nonexistent'")),
        other => panic!("unexpected {:?}", other),
    }
}

#[test]
fn test_assign_no_args_fails() {
    let mut graph = setup_workgraph(vec![make_task("t1", "Test task")]);
    let result = run(&mut graph, "t1", None, false);
    assert_eq!(result, Err(AssignError::Usage));
    assert!(assign_error_message("t1", &AssignError::Usage).contains("Usage:"));
}

#[test]
fn test_clear_no_agent_is_noop() {
    let mut graph = setup_workgraph(vec![make_task("t1", "Test task")]);
    let result = run(&mut graph, "t1", None, true);
    assert_eq!(result, Ok(AssignOutcome::Cleared(None)));
}
