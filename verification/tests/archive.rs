use chrono::{Duration, Utc};
use workgraph::archive::{
    archive_partition, fits_span, parse_duration, parse_duration_parts, parse_i64, should_archive,
    should_archive_at, DurationError, DurationUnit,
};
use workgraph::graph::{Node, Status, Task, WorkGraph};
use workgraph::time::Instant;

fn make_task(id: &str, title: &str, status: Status, completed_at: Option<&str>) -> Task {
    let mut t = Task::new(id, title);
    t.status = status;
    t.completed_at = completed_at.map(String::from);
    t
}

fn secs(d: Duration) -> i64 {
    d.num_seconds()
}

#[test]
fn test_parse_duration_days() {
    let d = parse_duration("30d").unwrap();
    assert_eq!(d, secs(Duration::days(30)));
}

#[test]
fn test_parse_duration_weeks() {
    let d = parse_duration("2w").unwrap();
    assert_eq!(d, secs(Duration::weeks(2)));
}

#[test]
fn test_parse_duration_hours() {
    let d = parse_duration("24h").unwrap();
    assert_eq!(d, secs(Duration::hours(24)));
}

#[test]
fn test_parse_duration_no_unit() {
    let d = parse_duration("7").unwrap();
    assert_eq!(d, secs(Duration::days(7)));
}

#[test]
fn test_should_archive_done_task() {
    let task = make_task("t1", "Test", Status::Done, None);
    assert!(should_archive(&task, None));
}

#[test]
fn test_should_not_archive_open_task() {
    let task = make_task("t1", "Test", Status::Open, None);
    assert!(!should_archive(&task, None));
}

#[test]
fn test_should_archive_old_task() {
    let completed_at = (Utc::now() - Duration::days(40)).to_rfc3339();
    let task = make_task("t1", "Test", Status::Done, Some(&completed_at));
    let min_age = secs(Duration::days(30));
    assert!(should_archive(&task, Some(min_age)));
}

#[test]
fn test_should_not_archive_recent_task() {
    let completed_at = (Utc::now() - Duration::days(10)).to_rfc3339();
    let task = make_task("t1", "Test", Status::Done, Some(&completed_at));
    let min_age = secs(Duration::days(30));
    assert!(!should_archive(&task, Some(min_age)));
}

#[test]
fn test_run_dry_run() {
    let mut graph = WorkGraph::new();
    graph.add_node(Node::Task(make_task("t1", "Done Task", Status::Done, Some("2024-01-01T00:00:00Z"))));
    graph.add_node(Node::Task(make_task("t2", "Open Task", Status::Open, None)));
    let now = Instant { secs: Utc::now().timestamp(), nanos: 0 };

    let (archived, kept) = archive_partition(graph, None, now);
    assert_eq!(archived.len(), 1);
    assert_eq!(kept.nodes.len(), 1);
}

#[test]
fn test_run_archive() {
    let mut graph = WorkGraph::new();
    graph.add_node(Node::Task(make_task("t1", "Done Task", Status::Done, Some("2024-01-01T00:00:00Z"))));
    graph.add_node(Node::Task(make_task("t2", "Open Task", Status::Open, None)));
    let now = Instant { secs: Utc::now().timestamp(), nanos: 0 };

    let (archived, kept) = archive_partition(graph, None, now);
    assert!(kept.get_task("t1").is_none());
    assert!(kept.get_task("t2").is_some());
    assert_eq!(archived.len(), 1);
    assert_eq!(archived[0].id, "t1");
}

#[test]
fn parse_duration_trims_and_refuses() {
    assert_eq!(parse_duration("  3h ").unwrap(), 3 * 3600);
    assert_eq!(parse_duration("-2d").unwrap(), -2 * 86400);
    assert_eq!(parse_duration("+1w").unwrap(), 7 * 86400);
    assert!(matches!(parse_duration("   "), Err(DurationError::Empty)));
    match parse_duration("xd") {
        Err(DurationError::InvalidNumber(n)) => assert_eq!(n, "x"),
        other => panic!("unexpected {:?}", other),
    }
    match parse_duration("5m") {
        Err(DurationError::InvalidNumber(n)) => assert_eq!(n, "5m"),
        other => panic!("unexpected {:?}", other),
    }
}

#[test]
fn parse_duration_parts_and_range() {
    assert!(matches!(parse_duration_parts("12w"), Ok((12, DurationUnit::Weeks))));
    assert!(fits_span(1000, DurationUnit::Days));
    assert!(!fits_span(i64::MAX / 1000, DurationUnit::Hours));
    assert!(!fits_span(i64::MIN, DurationUnit::Days));
}

#[test]
fn parse_i64_matches_std() {
    for s in ["0", "42", "-17", "+5", "9223372036854775807", "-9223372036854775808", "9223372036854775808", "", "-", "+", "1a", " 1"] {
        assert_eq!(parse_i64(s), s.parse::<i64>().ok(), "input {:?}", s);
    }
}

#[test]
fn archive_age_filter_at_fixed_time() {
    let now = Instant { secs: 1_700_000_000, nanos: 0 };
    let old = make_task("t1", "Old", Status::Done, Some("2023-01-01T00:00:00Z"));
    let unreadable = make_task("t2", "Bad", Status::Done, Some("yesterday"));
    let none = make_task("t3", "None", Status::Done, None);
    assert!(should_archive_at(&old, Some(86400), now));
    assert!(!should_archive_at(&old, Some(1_000_000_000), now));
    assert!(!should_archive_at(&unreadable, Some(0), now));
    assert!(!should_archive_at(&none, Some(0), now));
    assert!(should_archive_at(&none, None, now));
}
