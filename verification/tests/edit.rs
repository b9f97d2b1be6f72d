use workgraph::add::{add_task, NewTask};
use workgraph::edit::{edit_task, TaskEdit};
use workgraph::graph::WorkGraph;
use workgraph::messages::edit_error_message;

const NOW: &str = "2024-05-01T12:00:00+00:00";

fn new_task(title: &str, id: &str) -> NewTask {
    NewTask {
        title: title.to_string(),
        id: Some(id.to_string()),
        description: None,
        blocked_by: vec![],
        assign: None,
        tags: vec![],
        skills: vec![],
        inputs: vec![],
        deliverables: vec![],
        max_retries: None,
        model: None,
        verify: None,
        loops_to: None,
        loop_max: None,
        loop_guard: None,
        loop_delay: None,
    }
}

fn no_edit() -> TaskEdit {
    TaskEdit {
        title: None,
        description: None,
        add_blocked_by: vec![],
        remove_blocked_by: vec![],
        add_tag: vec![],
        remove_tag: vec![],
        model: None,
        add_skill: vec![],
        remove_skill: vec![],
        add_loops_to: None,
        loop_max: None,
        loop_guard: None,
        loop_delay: None,
        remove_loops_to: None,
        loop_iteration: None,
    }
}

fn create_test_graph() -> WorkGraph {
    let mut graph = WorkGraph::new();
    let mut n = new_task("Test Task", "test-task");
    n.description = Some("Original description".to_string());
    n.blocked_by = vec!["dep1".to_string()];
    n.tags = vec!["tag1".to_string()];
    n.skills = vec!["skill1".to_string()];
    n.model = Some("sonnet".to_string());
    add_task(&mut graph, &n, NOW).unwrap();
    graph
}

fn create_test_graph_with_two_tasks() -> WorkGraph {
    let mut graph = WorkGraph::new();
    add_task(&mut graph, &new_task("Blocker Task", "blocker-task"), NOW).unwrap();
    let mut n = new_task("Test Task", "test-task");
    n.description = Some("Original description".to_string());
    n.tags = vec!["tag1".to_string()];
    n.skills = vec!["skill1".to_string()];
    n.model = Some("sonnet".to_string());
    add_task(&mut graph, &n, NOW).unwrap();
    graph
}

fn strings(v: &[&str]) -> Vec<String> {
    v.iter().map(|s| s.to_string()).collect()
}

#[test]
fn test_edit_title() {
    let mut graph = create_test_graph();
    let mut e = no_edit();
    e.title = Some("New Title".to_string());
    assert!(edit_task(&mut graph, "test-task", &e).is_ok());
    assert_eq!(graph.get_task("test-task").unwrap().title, "New Title");
}

#[test]
fn test_edit_description() {
    let mut graph = create_test_graph();
    let mut e = no_edit();
    e.description = Some("New description".to_string());
    assert!(edit_task(&mut graph, "test-task", &e).is_ok());
    assert_eq!(graph.get_task("test-task").unwrap().description, Some("New description".to_string()));
}

#[test]
fn test_add_blocked_by() {
    let mut graph = create_test_graph();
    let mut e = no_edit();
    e.add_blocked_by = strings(&["dep2"]);
    assert!(edit_task(&mut graph, "test-task", &e).is_ok());
    let task = graph.get_task("test-task").unwrap();
    assert!(task.blocked_by.contains(&"dep2".to_string()));
    assert!(task.blocked_by.contains(&"dep1".to_string()));
}

#[test]
fn test_remove_blocked_by() {
    let mut graph = create_test_graph();
    let mut e = no_edit();
    e.remove_blocked_by = strings(&["dep1"]);
    assert!(edit_task(&mut graph, "test-task", &e).is_ok());
    assert!(!graph.get_task("test-task").unwrap().blocked_by.contains(&"dep1".to_string()));
}

#[test]
fn test_add_tag() {
    let mut graph = create_test_graph();
    let mut e = no_edit();
    e.add_tag = strings(&["tag2"]);
    assert!(edit_task(&mut graph, "test-task", &e).is_ok());
    let task = graph.get_task("test-task").unwrap();
    assert!(task.tags.contains(&"tag2".to_string()));
    assert!(task.tags.contains(&"tag1".to_string()));
}

#[test]
fn test_remove_tag() {
    let mut graph = create_test_graph();
    let mut e = no_edit();
    e.remove_tag = strings(&["tag1"]);
    assert!(edit_task(&mut graph, "test-task", &e).is_ok());
    assert!(!graph.get_task("test-task").unwrap().tags.contains(&"tag1".to_string()));
}

#[test]
fn test_edit_model() {
    let mut graph = create_test_graph();
    let mut e = no_edit();
    e.model = Some("opus".to_string());
    assert!(edit_task(&mut graph, "test-task", &e).is_ok());
    assert_eq!(graph.get_task("test-task").unwrap().model, Some("opus".to_string()));
}

#[test]
fn test_add_skill() {
    let mut graph = create_test_graph();
    let mut e = no_edit();
    e.add_skill = strings(&["skill2"]);
    assert!(edit_task(&mut graph, "test-task", &e).is_ok());
    let task = graph.get_task("test-task").unwrap();
    assert!(task.skills.contains(&"skill2".to_string()));
    assert!(task.skills.contains(&"skill1".to_string()));
}

#[test]
fn test_remove_skill() {
    let mut graph = create_test_graph();
    let mut e = no_edit();
    e.remove_skill = strings(&["skill1"]);
    assert!(edit_task(&mut graph, "test-task", &e).is_ok());
    assert!(!graph.get_task("test-task").unwrap().skills.contains(&"skill1".to_string()));
}

#[test]
fn test_task_not_found() {
    let mut graph = create_test_graph();
    let mut e = no_edit();
    e.title = Some("New Title".to_string());
    let result = edit_task(&mut graph, "nonexistent-task", &e);
    assert!(result.is_err());
    assert!(edit_error_message("nonexistent-task", &result.unwrap_err()).contains("not found"));
}

#[test]
fn test_no_changes() {
    let mut graph = create_test_graph();
    assert!(edit_task(&mut graph, "test-task", &no_edit()).is_ok());
}

#[test]
fn test_self_blocking_rejected() {
    let mut graph = create_test_graph();
    let mut e = no_edit();
    e.add_blocked_by = strings(&["test-task"]);
    let result = edit_task(&mut graph, "test-task", &e);
    assert!(result.is_err());
    assert!(edit_error_message("test-task", &result.unwrap_err()).contains("cannot block itself"));
}

#[test]
fn test_self_loop_rejected() {
    let mut graph = create_test_graph();
    let mut e = no_edit();
    e.add_loops_to = Some("test-task".to_string());
    e.loop_max = Some(3);
    let result = edit_task(&mut graph, "test-task", &e);
    assert!(result.is_err());
    assert!(edit_error_message("test-task", &result.unwrap_err()).contains("cannot loop to itself"));
}

#[test]
fn test_add_blocked_by_updates_blocker_blocks() {
    let mut graph = create_test_graph_with_two_tasks();
    let mut e = no_edit();
    e.add_blocked_by = strings(&["blocker-task"]);
    assert!(edit_task(&mut graph, "test-task", &e).is_ok());
    let blocker = graph.get_task("blocker-task").unwrap();
    assert!(blocker.blocks.contains(&"test-task".to_string()), "blocker-task.blocks should contain test-task");
}

#[test]
fn test_remove_blocked_by_updates_blocker_blocks() {
    let mut graph = create_test_graph_with_two_tasks();
    let mut e = no_edit();
    e.add_blocked_by = strings(&["blocker-task"]);
    edit_task(&mut graph, "test-task", &e).unwrap();

    let mut e = no_edit();
    e.remove_blocked_by = strings(&["blocker-task"]);
    assert!(edit_task(&mut graph, "test-task", &e).is_ok());
    let blocker = graph.get_task("blocker-task").unwrap();
    assert!(
        !blocker.blocks.contains(&"test-task".to_string()),
        "blocker-task.blocks should NOT contain test-task after removal"
    );
}
