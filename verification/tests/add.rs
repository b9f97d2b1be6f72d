use workgraph::add::{add_task, generate_id, AddError, NewTask};
use workgraph::graph::{LoopGuard, Node, Status, Task, WorkGraph};
use workgraph::messages::{add_error_message, guard_error_message};
use workgraph::parse::parse_guard_expr;

const NOW: &str = "2024-05-01T12:00:00+00:00";

fn stub_task(id: &str) -> Task {
    Task::new(id, id)
}

fn new_task(title: &str) -> NewTask {
    NewTask {
        title: title.to_string(),
        id: None,
        description: None,
        blocked_by: vec![],
        assign: None,
        tags: vec![],
        skills: vec![],
        inputs: vec![],
        deliverables: vec![],
        max_retries: None,
        model: None,
        verify: None,
        loops_to: None,
        loop_max: None,
        loop_guard: None,
        loop_delay: None,
    }
}

fn guard_msg(expr: &str) -> String {
    guard_error_message(&parse_guard_expr(expr).unwrap_err())
}

fn task_status(task: &str, status: Status) -> LoopGuard {
    LoopGuard::TaskStatus { task: task.to_string(), status }
}

#[test]
fn guard_always_lowercase() {
    assert_eq!(parse_guard_expr("always").unwrap(), LoopGuard::Always);
}

#[test]
fn guard_always_mixed_case() {
    assert_eq!(parse_guard_expr("Always").unwrap(), LoopGuard::Always);
}

#[test]
fn guard_always_uppercase() {
    assert_eq!(parse_guard_expr("ALWAYS").unwrap(), LoopGuard::Always);
}

#[test]
fn guard_always_with_whitespace() {
    assert_eq!(parse_guard_expr("  always  ").unwrap(), LoopGuard::Always);
}

#[test]
fn guard_task_status_done() {
    assert_eq!(parse_guard_expr("task:my-task=done").unwrap(), task_status("my-task", Status::Done));
}

#[test]
fn guard_task_status_open() {
    assert_eq!(parse_guard_expr("task:build-step=open").unwrap(), task_status("build-step", Status::Open));
}

#[test]
fn guard_task_status_failed() {
    assert_eq!(parse_guard_expr("task:deploy=failed").unwrap(), task_status("deploy", Status::Failed));
}

#[test]
fn guard_task_status_abandoned() {
    assert_eq!(parse_guard_expr("task:cleanup=abandoned").unwrap(), task_status("cleanup", Status::Abandoned));
}

#[test]
fn guard_task_status_in_progress() {
    assert_eq!(
        parse_guard_expr("task:long-running=in-progress").unwrap(),
        task_status("long-running", Status::InProgress)
    );
}

#[test]
fn guard_task_status_blocked() {
    assert_eq!(parse_guard_expr("task:waiting=blocked").unwrap(), task_status("waiting", Status::Blocked));
}

#[test]
fn guard_task_status_pending_review_maps_to_done() {
    assert_eq!(parse_guard_expr("task:pr-check=pending-review").unwrap(), task_status("pr-check", Status::Done));
}

#[test]
fn guard_task_status_case_insensitive() {
    assert_eq!(parse_guard_expr("task:check=Done").unwrap(), task_status("check", Status::Done));
}

#[test]
fn guard_task_id_with_underscores() {
    assert_eq!(parse_guard_expr("task:my_task_id=done").unwrap(), task_status("my_task_id", Status::Done));
}

#[test]
fn guard_task_id_with_dashes() {
    assert_eq!(parse_guard_expr("task:my-task-id=open").unwrap(), task_status("my-task-id", Status::Open));
}

#[test]
fn guard_unknown_status_errors() {
    let msg = guard_msg("task:foo=bogus");
    assert!(msg.contains("Unknown status"), "got: {msg}");
}

#[test]
fn guard_missing_equals_errors() {
    let msg = guard_msg("task:foo");
    assert!(msg.contains("Invalid guard format"), "got: {msg}");
}

#[test]
fn guard_missing_colon_errors() {
    let msg = guard_msg("taskfoo=done");
    assert!(msg.contains("Invalid guard expression"), "got: {msg}");
}

#[test]
fn guard_empty_string_errors() {
    assert!(parse_guard_expr("").is_err());
}

#[test]
fn guard_whitespace_only_errors() {
    assert!(parse_guard_expr("   ").is_err());
}

#[test]
fn id_slug_from_simple_title() {
    let graph = WorkGraph::new();
    assert_eq!(generate_id("Build the widget", &graph), "build-the-widget");
}

#[test]
fn id_slug_truncates_to_three_words() {
    let graph = WorkGraph::new();
    assert_eq!(generate_id("Build the amazing super widget", &graph), "build-the-amazing");
}

#[test]
fn id_slug_strips_special_chars() {
    let graph = WorkGraph::new();
    assert_eq!(generate_id("Fix (bug) #123!", &graph), "fix-bug-123");
}

#[test]
fn id_slug_collapses_multiple_separators() {
    let graph = WorkGraph::new();
    assert_eq!(generate_id("a---b   c", &graph), "a-b-c");
}

#[test]
fn id_slug_empty_title_gives_task() {
    let graph = WorkGraph::new();
    assert_eq!(generate_id("", &graph), "task");
}

#[test]
fn id_slug_whitespace_title_gives_task() {
    let graph = WorkGraph::new();
    assert_eq!(generate_id("   ", &graph), "task");
}

#[test]
fn id_uniqueness_appends_suffix() {
    let mut graph = WorkGraph::new();
    graph.add_node(Node::Task(stub_task("build-it")));
    assert_eq!(generate_id("Build it", &graph), "build-it-2");
}

#[test]
fn id_uniqueness_increments_until_free() {
    let mut graph = WorkGraph::new();
    graph.add_node(Node::Task(stub_task("build-it")));
    graph.add_node(Node::Task(stub_task("build-it-2")));
    graph.add_node(Node::Task(stub_task("build-it-3")));
    assert_eq!(generate_id("Build it", &graph), "build-it-4");
}

#[test]
fn id_explicit_no_collision() {
    let graph = WorkGraph::new();
    assert_eq!(generate_id("Deploy service", &graph), "deploy-service");
}

#[test]
fn empty_title_rejected() {
    let mut graph = WorkGraph::new();
    let result = add_task(&mut graph, &new_task(""), NOW);
    assert!(result.is_err());
    assert!(add_error_message(&result.unwrap_err()).contains("cannot be empty"));
}

#[test]
fn whitespace_only_title_rejected() {
    let mut graph = WorkGraph::new();
    let result = add_task(&mut graph, &new_task("   "), NOW);
    assert!(result.is_err());
    assert!(add_error_message(&result.unwrap_err()).contains("cannot be empty"));
}

#[test]
fn self_blocking_rejected() {
    let mut graph = WorkGraph::new();
    let mut n = new_task("My task");
    n.id = Some("my-task".to_string());
    n.blocked_by = vec!["my-task".to_string()];
    let result = add_task(&mut graph, &n, NOW);
    assert!(result.is_err());
    assert!(
        add_error_message(&result.unwrap_err()).contains("cannot block itself"),
        "Expected 'cannot block itself' error"
    );
}

#[test]
fn nonexistent_blocker_warns_but_succeeds() {
    let mut graph = WorkGraph::new();
    let mut n = new_task("My task");
    n.blocked_by = vec!["nonexistent".to_string()];
    let result = add_task(&mut graph, &n, NOW);
    assert!(result.is_ok());
    assert_eq!(result.unwrap().missing_blockers, vec!["nonexistent".to_string()]);
}

#[test]
fn blocked_by_updates_blocker_blocks_field() {
    let mut graph = WorkGraph::new();
    graph.add_node(Node::Task(stub_task("blocker-a")));
    graph.add_node(Node::Task(stub_task("blocker-b")));

    let mut n = new_task("Dependent task");
    n.id = Some("dep-task".to_string());
    n.blocked_by = vec!["blocker-a".to_string(), "blocker-b".to_string()];
    let result = add_task(&mut graph, &n, NOW);
    assert!(result.is_ok());

    let dep = graph.get_task("dep-task").unwrap();
    assert!(dep.blocked_by.contains(&"blocker-a".to_string()));
    assert!(dep.blocked_by.contains(&"blocker-b".to_string()));

    let a = graph.get_task("blocker-a").unwrap();
    assert!(a.blocks.contains(&"dep-task".to_string()), "blocker-a.blocks should contain dep-task, got: {:?}", a.blocks);
    let b = graph.get_task("blocker-b").unwrap();
    assert!(b.blocks.contains(&"dep-task".to_string()), "blocker-b.blocks should contain dep-task, got: {:?}", b.blocks);
}

#[test]
fn duplicate_id_refused_with_message() {
    let mut graph = WorkGraph::new();
    graph.add_node(Node::Task(stub_task("x")));
    let mut n = new_task("Another");
    n.id = Some("x".to_string());
    let e = add_task(&mut graph, &n, NOW).unwrap_err();
    assert!(matches!(e, AddError::IdExists(_)));
    assert_eq!(add_error_message(&e), "Task with ID 'x' already exists");
}

#[test]
fn loop_options_need_target_and_max() {
    let mut graph = WorkGraph::new();
    let mut n = new_task("Looping");
    n.loop_max = Some(3);
    let e = add_task(&mut graph, &n, NOW).unwrap_err();
    assert_eq!(add_error_message(&e), "--loop-max, --loop-guard, and --loop-delay require --loops-to");

    let mut n = new_task("Looping");
    n.loops_to = Some("elsewhere".to_string());
    let e = add_task(&mut graph, &n, NOW).unwrap_err();
    assert_eq!(add_error_message(&e), "--loop-max is required when using --loops-to");

    let mut n = new_task("Looping");
    n.loops_to = Some("elsewhere".to_string());
    n.loop_max = Some(3);
    n.loop_delay = Some("soon".to_string());
    let e = add_task(&mut graph, &n, NOW).unwrap_err();
    assert_eq!(add_error_message(&e), "Invalid delay 'soon'. Use format: 30s, 5m, 1h, 24h, 7d");
    assert!(graph.nodes.is_empty());
}

#[test]
fn added_task_is_open_with_creation_time() {
    let mut graph = WorkGraph::new();
    let out = add_task(&mut graph, &new_task("Write the docs"), NOW).unwrap();
    assert_eq!(out.id, "write-the-docs");
    let t = graph.get_task("write-the-docs").unwrap();
    assert_eq!(t.status, Status::Open);
    assert_eq!(t.created_at, Some(NOW.to_string()));
}
