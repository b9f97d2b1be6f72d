use chrono::{DateTime, Duration, Utc};
use workgraph::analyze::{
    compute_aging, compute_bottlenecks, compute_structural_health, compute_summary, compute_workload,
    classify_cycle, find_dead_end_open_tasks, generate_recommendations, AgingIssue, AgingSection,
    BottleneckInfo, CycleClassification, Severity, StructuralHealth, StructuralIssue,
};
use workgraph::deps::{collect_transitive_dependents, ReverseEntry, ReverseIndex};
use workgraph::graph::{Node, Status, Task, WorkGraph};
use workgraph::time::Instant;

fn make_task(id: &str, title: &str) -> Task {
    Task::new(id, title)
}

fn at(dt: DateTime<Utc>) -> Instant {
    Instant { secs: dt.timestamp(), nanos: dt.timestamp_subsec_nanos() }
}

fn empty_aging() -> AgingSection {
    AgingSection { old_open_count: 0, stale_in_progress_count: 0, issues: vec![] }
}

fn index(entries: Vec<(&str, Vec<&str>)>) -> ReverseIndex {
    ReverseIndex {
        entries: entries
            .into_iter()
            .map(|(b, ds)| ReverseEntry {
                blocker: b.to_string(),
                dependents: ds.into_iter().map(|d| d.to_string()).collect(),
            })
            .collect(),
    }
}

#[test]
fn test_compute_summary_empty() {
    let graph = WorkGraph::new();
    let summary = compute_summary(&graph);

    assert_eq!(summary.total_tasks, 0);
    assert_eq!(summary.open, 0);
    assert_eq!(summary.in_progress, 0);
    assert_eq!(summary.done, 0);
    assert_eq!(summary.blocked, 0);
    assert_eq!(summary.ready, 0);
}

#[test]
fn test_compute_summary_with_tasks() {
    let mut graph = WorkGraph::new();
    graph.add_node(Node::Task(make_task("t1", "Task 1")));
    let mut t2 = make_task("t2", "Task 2");
    t2.status = Status::Done;
    graph.add_node(Node::Task(t2));
    let mut t3 = make_task("t3", "Task 3");
    t3.status = Status::InProgress;
    graph.add_node(Node::Task(t3));

    let summary = compute_summary(&graph);

    assert_eq!(summary.total_tasks, 3);
    assert_eq!(summary.open, 1);
    assert_eq!(summary.in_progress, 1);
    assert_eq!(summary.done, 1);
}

#[test]
fn test_compute_structural_health_clean() {
    let mut graph = WorkGraph::new();
    graph.add_node(Node::Task(make_task("t1", "Task 1")));

    let structural = compute_structural_health(&graph);

    let ok_count = structural.issues.iter().filter(|i| i.severity == Severity::Okay).count();
    assert!(ok_count >= 2);
}

#[test]
fn test_compute_structural_health_with_orphan() {
    let mut graph = WorkGraph::new();
    let mut t1 = make_task("t1", "Task 1");
    t1.blocked_by = vec!["nonexistent".to_string()];
    graph.add_node(Node::Task(t1));

    let structural = compute_structural_health(&graph);

    assert!(structural.issues.iter().any(|i| i.severity == Severity::Critical));
}

#[test]
fn test_compute_bottlenecks_with_chain() {
    let mut graph = WorkGraph::new();
    let now = at(Utc::now());

    let t1 = make_task("t1", "Root Task");
    let mut t2 = make_task("t2", "Task 2");
    t2.blocked_by = vec!["t1".to_string()];
    let mut t3 = make_task("t3", "Task 3");
    t3.blocked_by = vec!["t2".to_string()];
    let mut t4 = make_task("t4", "Task 4");
    t4.blocked_by = vec!["t3".to_string()];

    graph.add_node(Node::Task(t1));
    graph.add_node(Node::Task(t2));
    graph.add_node(Node::Task(t3));
    graph.add_node(Node::Task(t4));

    let bottlenecks = compute_bottlenecks(&graph, &now);

    assert!(!bottlenecks.is_empty());
    assert_eq!(bottlenecks[0].id, "t1");
    assert_eq!(bottlenecks[0].transitive_blocks, 3);
}

#[test]
fn test_compute_workload() {
    let mut graph = WorkGraph::new();
    let mut t1 = make_task("t1", "Task 1");
    t1.assigned = Some("alice".to_string());
    graph.add_node(Node::Task(t1));

    let workload = compute_workload(&graph);

    assert_eq!(workload.total_actors, 1);
    assert_eq!(workload.balanced_actors, 1);
}

#[test]
fn test_compute_aging() {
    let mut graph = WorkGraph::new();
    let now = Utc::now();
    let old_date = now - Duration::days(100);

    let mut t1 = make_task("t1", "Old Task");
    t1.created_at = Some(old_date.to_rfc3339());
    graph.add_node(Node::Task(t1));

    let aging = compute_aging(&graph, &at(now));

    assert_eq!(aging.old_open_count, 1);
    assert!(!aging.issues.is_empty());
}

#[test]
fn test_generate_recommendations_with_bottleneck() {
    let structural = StructuralHealth { issues: vec![] };
    let bottlenecks = vec![BottleneckInfo {
        id: "critical-task".to_string(),
        transitive_blocks: 8,
        status: Status::Open,
        assigned: None,
        severity: Severity::Critical,
        days_in_progress: None,
    }];

    let recommendations = generate_recommendations(&structural, &bottlenecks, &empty_aging());

    assert!(!recommendations.is_empty());
    assert_eq!(recommendations[0].task, Some("critical-task".to_string()));
}

#[test]
fn test_find_dead_end_open_tasks() {
    let mut graph = WorkGraph::new();
    let t1 = make_task("t1", "Task 1");
    let mut t2 = make_task("t2", "Task 2");
    t2.blocked_by = vec!["t1".to_string()];
    let t3 = make_task("t3", "Forgotten task");
    let t4 = make_task("deploy", "Deploy to production");

    graph.add_node(Node::Task(t1));
    graph.add_node(Node::Task(t2));
    graph.add_node(Node::Task(t3));
    graph.add_node(Node::Task(t4));

    let dead_ends = find_dead_end_open_tasks(&graph);

    assert!(dead_ends.contains(&"t2".to_string()));
    assert!(dead_ends.contains(&"t3".to_string()));
    assert!(!dead_ends.contains(&"deploy".to_string()));
}

#[test]
fn test_compute_summary_single_task() {
    let mut graph = WorkGraph::new();
    graph.add_node(Node::Task(make_task("t1", "Only task")));
    let summary = compute_summary(&graph);

    assert_eq!(summary.total_tasks, 1);
    assert_eq!(summary.open, 1);
    assert_eq!(summary.ready, 1);
    assert_eq!(summary.blocked, 0);
}

#[test]
fn test_compute_summary_blocked_task_counted() {
    let mut graph = WorkGraph::new();
    let t1 = make_task("t1", "Blocker");
    let mut t2 = make_task("t2", "Blocked");
    t2.blocked_by = vec!["t1".to_string()];
    graph.add_node(Node::Task(t1));
    graph.add_node(Node::Task(t2));

    let summary = compute_summary(&graph);
    assert_eq!(summary.blocked, 1);
    assert_eq!(summary.ready, 1);
    assert_eq!(summary.open, 2);
}

#[test]
fn test_compute_summary_explicit_blocked_status() {
    let mut graph = WorkGraph::new();
    let mut t1 = make_task("t1", "Explicitly blocked");
    t1.status = Status::Blocked;
    graph.add_node(Node::Task(t1));

    let summary = compute_summary(&graph);
    assert_eq!(summary.blocked, 1);
}

#[test]
fn test_compute_summary_failed_abandoned_not_counted() {
    let mut graph = WorkGraph::new();
    let mut t1 = make_task("t1", "Failed");
    t1.status = Status::Failed;
    let mut t2 = make_task("t2", "Abandoned");
    t2.status = Status::Abandoned;
    graph.add_node(Node::Task(t1));
    graph.add_node(Node::Task(t2));

    let summary = compute_summary(&graph);
    assert_eq!(summary.total_tasks, 2);
    assert_eq!(summary.open, 0);
    assert_eq!(summary.in_progress, 0);
    assert_eq!(summary.done, 0);
}

#[test]
fn test_compute_summary_pending_review_counted_as_in_progress() {
    let mut graph = WorkGraph::new();
    let mut t1 = make_task("t1", "Pending review");
    t1.status = Status::PendingReview;
    graph.add_node(Node::Task(t1));

    let summary = compute_summary(&graph);
    assert_eq!(summary.in_progress, 1);
}

#[test]
fn test_compute_bottlenecks_empty_graph() {
    let graph = WorkGraph::new();
    let bottlenecks = compute_bottlenecks(&graph, &at(Utc::now()));
    assert!(bottlenecks.is_empty());
}

#[test]
fn test_compute_bottlenecks_no_dependencies() {
    let mut graph = WorkGraph::new();
    graph.add_node(Node::Task(make_task("t1", "Task 1")));
    graph.add_node(Node::Task(make_task("t2", "Task 2")));
    graph.add_node(Node::Task(make_task("t3", "Task 3")));

    let bottlenecks = compute_bottlenecks(&graph, &at(Utc::now()));
    assert!(bottlenecks.is_empty());
}

#[test]
fn test_compute_bottlenecks_fan_out() {
    let mut graph = WorkGraph::new();
    let t1 = make_task("t1", "Root");
    for i in 2..=5 {
        let mut t = make_task(&format!("t{}", i), &format!("Task {}", i));
        t.blocked_by = vec!["t1".to_string()];
        graph.add_node(Node::Task(t));
    }
    graph.add_node(Node::Task(t1));

    let bottlenecks = compute_bottlenecks(&graph, &at(Utc::now()));
    assert_eq!(bottlenecks.len(), 1);
    assert_eq!(bottlenecks[0].id, "t1");
    assert_eq!(bottlenecks[0].transitive_blocks, 4);
}

#[test]
fn test_compute_bottlenecks_done_task_severity_ok() {
    let mut graph = WorkGraph::new();
    let mut t1 = make_task("t1", "Done root");
    t1.status = Status::Done;
    for i in 2..=5 {
        let mut t = make_task(&format!("t{}", i), &format!("Task {}", i));
        t.blocked_by = vec!["t1".to_string()];
        graph.add_node(Node::Task(t));
    }
    graph.add_node(Node::Task(t1));

    let bottlenecks = compute_bottlenecks(&graph, &at(Utc::now()));
    assert!(!bottlenecks.is_empty());
    assert_eq!(bottlenecks[0].severity, Severity::Okay);
}

#[test]
fn test_compute_bottlenecks_in_progress_with_days() {
    let mut graph = WorkGraph::new();
    let now = Utc::now();
    let mut t1 = make_task("t1", "In progress root");
    t1.status = Status::InProgress;
    t1.started_at = Some((now - Duration::days(5)).to_rfc3339());
    for i in 2..=5 {
        let mut t = make_task(&format!("t{}", i), &format!("Task {}", i));
        t.blocked_by = vec!["t1".to_string()];
        graph.add_node(Node::Task(t));
    }
    graph.add_node(Node::Task(t1));

    let bottlenecks = compute_bottlenecks(&graph, &at(now));
    assert!(!bottlenecks.is_empty());
    assert_eq!(bottlenecks[0].days_in_progress, Some(5));
}

#[test]
fn test_compute_bottlenecks_truncated_to_5() {
    let mut graph = WorkGraph::new();
    for root_idx in 0..8 {
        let root_id = format!("root{}", root_idx);
        graph.add_node(Node::Task(make_task(&root_id, &format!("Root {}", root_idx))));
        for child_idx in 0..3 {
            let child_id = format!("child{}_{}", root_idx, child_idx);
            let mut t = make_task(&child_id, &format!("Child {}-{}", root_idx, child_idx));
            t.blocked_by = vec![root_id.clone()];
            graph.add_node(Node::Task(t));
        }
    }

    let bottlenecks = compute_bottlenecks(&graph, &at(Utc::now()));
    assert!(bottlenecks.len() <= 5);
}

#[test]
fn test_compute_bottlenecks_severity_critical_for_large_open() {
    let mut graph = WorkGraph::new();
    graph.add_node(Node::Task(make_task("blocker", "Big blocker")));
    for i in 0..4 {
        let mut t = make_task(&format!("c{}", i), &format!("Child {}", i));
        t.blocked_by = vec!["blocker".to_string()];
        graph.add_node(Node::Task(t));
    }

    let bottlenecks = compute_bottlenecks(&graph, &at(Utc::now()));
    assert!(!bottlenecks.is_empty());
    assert_eq!(bottlenecks[0].severity, Severity::Critical);
}

#[test]
fn test_compute_workload_empty_graph() {
    let graph = WorkGraph::new();
    let workload = compute_workload(&graph);
    assert_eq!(workload.total_actors, 0);
    assert!(workload.overloaded.is_empty());
}

#[test]
fn test_compute_workload_done_tasks_excluded() {
    let mut graph = WorkGraph::new();
    let mut t1 = make_task("t1", "Done task");
    t1.status = Status::Done;
    t1.assigned = Some("alice".to_string());
    graph.add_node(Node::Task(t1));

    let workload = compute_workload(&graph);
    assert_eq!(workload.total_actors, 0);
}

#[test]
fn test_compute_workload_multiple_actors() {
    let mut graph = WorkGraph::new();
    let mut t1 = make_task("t1", "Alice task");
    t1.assigned = Some("alice".to_string());
    let mut t2 = make_task("t2", "Bob task");
    t2.assigned = Some("bob".to_string());
    let mut t3 = make_task("t3", "Alice task 2");
    t3.assigned = Some("alice".to_string());
    graph.add_node(Node::Task(t1));
    graph.add_node(Node::Task(t2));
    graph.add_node(Node::Task(t3));

    let workload = compute_workload(&graph);
    assert_eq!(workload.total_actors, 2);
}

#[test]
fn test_compute_workload_unassigned_not_counted() {
    let mut graph = WorkGraph::new();
    graph.add_node(Node::Task(make_task("t1", "Unassigned")));

    let workload = compute_workload(&graph);
    assert_eq!(workload.total_actors, 0);
}

#[test]
fn test_compute_aging_empty_graph() {
    let graph = WorkGraph::new();
    let aging = compute_aging(&graph, &at(Utc::now()));

    assert_eq!(aging.old_open_count, 0);
    assert_eq!(aging.stale_in_progress_count, 0);
    assert!(aging.issues.is_empty());
}

#[test]
fn test_compute_aging_recent_task_not_flagged() {
    let mut graph = WorkGraph::new();
    let now = Utc::now();
    let mut t1 = make_task("t1", "Recent task");
    t1.created_at = Some((now - Duration::days(10)).to_rfc3339());
    graph.add_node(Node::Task(t1));

    let aging = compute_aging(&graph, &at(now));
    assert_eq!(aging.old_open_count, 0);
    assert!(aging.issues.is_empty());
}

#[test]
fn test_compute_aging_stale_in_progress() {
    let mut graph = WorkGraph::new();
    let now = Utc::now();
    let mut t1 = make_task("t1", "Stale in-progress");
    t1.status = Status::InProgress;
    t1.started_at = Some((now - Duration::days(20)).to_rfc3339());
    graph.add_node(Node::Task(t1));

    let aging = compute_aging(&graph, &at(now));
    assert_eq!(aging.stale_in_progress_count, 1);
    assert_eq!(aging.issues.len(), 1);
    assert_eq!(aging.issues[0].issue_type, "stale_in_progress");
    assert!(aging.issues[0].days >= 20);
}

#[test]
fn test_compute_aging_in_progress_not_stale() {
    let mut graph = WorkGraph::new();
    let now = Utc::now();
    let mut t1 = make_task("t1", "Fresh in-progress");
    t1.status = Status::InProgress;
    t1.started_at = Some((now - Duration::days(5)).to_rfc3339());
    graph.add_node(Node::Task(t1));

    let aging = compute_aging(&graph, &at(now));
    assert_eq!(aging.stale_in_progress_count, 0);
}

#[test]
fn test_compute_aging_issues_sorted_by_days_desc() {
    let mut graph = WorkGraph::new();
    let now = Utc::now();
    let mut t1 = make_task("t1", "100 days old");
    t1.created_at = Some((now - Duration::days(100)).to_rfc3339());
    let mut t2 = make_task("t2", "200 days old");
    t2.created_at = Some((now - Duration::days(200)).to_rfc3339());
    let mut t3 = make_task("t3", "150 days old");
    t3.created_at = Some((now - Duration::days(150)).to_rfc3339());
    graph.add_node(Node::Task(t1));
    graph.add_node(Node::Task(t2));
    graph.add_node(Node::Task(t3));

    let aging = compute_aging(&graph, &at(now));
    assert_eq!(aging.old_open_count, 3);
    assert!(aging.issues[0].days >= aging.issues[1].days);
    if aging.issues.len() > 2 {
        assert!(aging.issues[1].days >= aging.issues[2].days);
    }
}

#[test]
fn test_compute_aging_truncated_to_5() {
    let mut graph = WorkGraph::new();
    let now = Utc::now();
    for i in 0..8 {
        let mut t = make_task(&format!("t{}", i), &format!("Old task {}", i));
        t.created_at = Some((now - Duration::days(100 + i as i64)).to_rfc3339());
        graph.add_node(Node::Task(t));
    }

    let aging = compute_aging(&graph, &at(now));
    assert_eq!(aging.old_open_count, 8);
    assert!(aging.issues.len() <= 5);
}

#[test]
fn test_compute_aging_no_created_at_ignored() {
    let mut graph = WorkGraph::new();
    graph.add_node(Node::Task(make_task("t1", "No timestamp")));

    let aging = compute_aging(&graph, &at(Utc::now()));
    assert_eq!(aging.old_open_count, 0);
}

#[test]
fn test_structural_health_dead_end_tasks() {
    let mut graph = WorkGraph::new();
    graph.add_node(Node::Task(make_task("orphan1", "Orphan 1")));
    graph.add_node(Node::Task(make_task("orphan2", "Orphan 2")));

    let structural = compute_structural_health(&graph);

    assert!(structural
        .issues
        .iter()
        .any(|i| i.severity == Severity::Warning && i.message.contains("dead-end")));
}

#[test]
fn test_structural_health_done_tasks_not_dead_end() {
    let mut graph = WorkGraph::new();
    let mut t1 = make_task("t1", "Done task");
    t1.status = Status::Done;
    graph.add_node(Node::Task(t1));

    let structural = compute_structural_health(&graph);

    assert!(!structural
        .issues
        .iter()
        .any(|i| i.severity == Severity::Warning && i.message.contains("dead-end")));
}

#[test]
fn test_structural_health_deploy_not_dead_end() {
    let mut graph = WorkGraph::new();
    graph.add_node(Node::Task(make_task("deploy-prod", "Deploy to production")));
    graph.add_node(Node::Task(make_task("release-v2", "Release version 2")));
    graph.add_node(Node::Task(make_task("final-review", "Final review")));

    let dead_ends = find_dead_end_open_tasks(&graph);
    assert!(!dead_ends.contains(&"deploy-prod".to_string()));
    assert!(!dead_ends.contains(&"release-v2".to_string()));
    assert!(!dead_ends.contains(&"final-review".to_string()));
}

#[test]
fn test_recommendations_stale_in_progress_bottleneck() {
    let structural = StructuralHealth { issues: vec![] };
    let bottlenecks = vec![BottleneckInfo {
        id: "stale-task".to_string(),
        transitive_blocks: 3,
        status: Status::InProgress,
        assigned: Some("alice".to_string()),
        severity: Severity::Warning,
        days_in_progress: Some(20),
    }];

    let recs = generate_recommendations(&structural, &bottlenecks, &empty_aging());
    assert!(!recs.is_empty());
    let stale_rec = recs.iter().find(|r| r.action == "check_on");
    assert!(stale_rec.is_some());
    assert!(stale_rec.unwrap().reason.contains("20 days"));
}

#[test]
fn test_recommendations_old_open_tasks() {
    let structural = StructuralHealth { issues: vec![] };
    let aging = AgingSection {
        old_open_count: 2,
        stale_in_progress_count: 0,
        issues: vec![
            AgingIssue { task_id: "old1".to_string(), days: 120, issue_type: "old_open".to_string(), assigned: None },
            AgingIssue { task_id: "old2".to_string(), days: 95, issue_type: "old_open".to_string(), assigned: None },
        ],
    };

    let recs = generate_recommendations(&structural, &vec![], &aging);
    let review_recs: Vec<_> = recs.iter().filter(|r| r.action == "review").collect();
    assert_eq!(review_recs.len(), 2);
}

#[test]
fn test_recommendations_structural_critical() {
    let structural = StructuralHealth {
        issues: vec![StructuralIssue {
            severity: Severity::Critical,
            message: "3 orphan reference(s) found".to_string(),
            details: None,
        }],
    };

    let recs = generate_recommendations(&structural, &vec![], &empty_aging());
    let fix_recs: Vec<_> = recs.iter().filter(|r| r.action == "fix_structural").collect();
    assert_eq!(fix_recs.len(), 1);
    assert!(fix_recs[0].reason.contains("orphan"));
}

#[test]
fn test_recommendations_truncated_to_5() {
    let structural = StructuralHealth {
        issues: vec![
            StructuralIssue { severity: Severity::Critical, message: "issue 1".to_string(), details: None },
            StructuralIssue { severity: Severity::Critical, message: "issue 2".to_string(), details: None },
        ],
    };
    let bottlenecks = vec![
        BottleneckInfo {
            id: "b1".to_string(),
            transitive_blocks: 10,
            status: Status::Open,
            assigned: None,
            severity: Severity::Critical,
            days_in_progress: None,
        },
        BottleneckInfo {
            id: "b2".to_string(),
            transitive_blocks: 8,
            status: Status::Open,
            assigned: None,
            severity: Severity::Critical,
            days_in_progress: None,
        },
    ];
    let aging = AgingSection {
        old_open_count: 3,
        stale_in_progress_count: 0,
        issues: vec![
            AgingIssue { task_id: "old1".to_string(), days: 200, issue_type: "old_open".to_string(), assigned: None },
            AgingIssue { task_id: "old2".to_string(), days: 150, issue_type: "old_open".to_string(), assigned: None },
            AgingIssue { task_id: "old3".to_string(), days: 120, issue_type: "old_open".to_string(), assigned: None },
        ],
    };

    let recs = generate_recommendations(&structural, &bottlenecks, &aging);
    assert!(recs.len() <= 5);
}

#[test]
fn test_recommendations_empty_when_all_clear() {
    let structural = StructuralHealth { issues: vec![] };
    let recs = generate_recommendations(&structural, &vec![], &empty_aging());
    assert!(recs.is_empty());
}

#[test]
fn test_classify_cycle_intentional_with_recurring_tag() {
    let mut graph = WorkGraph::new();
    let mut t1 = make_task("t1", "Recurring task");
    t1.tags = vec!["recurring".to_string()];
    graph.add_node(Node::Task(t1));
    graph.add_node(Node::Task(make_task("t2", "Task 2")));

    let cycle = vec!["t1".to_string(), "t2".to_string()];
    let classified = classify_cycle(&cycle, &graph);
    assert_eq!(classified.classification, CycleClassification::Intentional);
}

#[test]
fn test_classify_cycle_intentional_with_cycle_tag() {
    let mut graph = WorkGraph::new();
    let mut t1 = make_task("t1", "Task 1");
    t1.tags = vec!["cycle:intentional".to_string()];
    graph.add_node(Node::Task(t1));
    graph.add_node(Node::Task(make_task("t2", "Task 2")));

    let cycle = vec!["t1".to_string(), "t2".to_string()];
    let classified = classify_cycle(&cycle, &graph);
    assert_eq!(classified.classification, CycleClassification::Intentional);
}

#[test]
fn test_classify_cycle_short_without_tag_is_warning() {
    let mut graph = WorkGraph::new();
    graph.add_node(Node::Task(make_task("t1", "Task 1")));
    graph.add_node(Node::Task(make_task("t2", "Task 2")));

    let cycle = vec!["t1".to_string(), "t2".to_string()];
    let classified = classify_cycle(&cycle, &graph);
    assert_eq!(classified.classification, CycleClassification::Warning);
}

#[test]
fn test_classify_cycle_long_is_warning() {
    let mut graph = WorkGraph::new();
    let mut cycle = vec![];
    for i in 0..6 {
        let id = format!("t{}", i);
        graph.add_node(Node::Task(make_task(&id, &format!("Task {}", i))));
        cycle.push(id);
    }

    let classified = classify_cycle(&cycle, &graph);
    assert_eq!(classified.classification, CycleClassification::Warning);
    assert!(classified.reason.contains("Long cycle"));
}

#[test]
fn test_classify_cycle_medium_is_info() {
    let mut graph = WorkGraph::new();
    let mut cycle = vec![];
    for i in 0..3 {
        let id = format!("t{}", i);
        graph.add_node(Node::Task(make_task(&id, &format!("Task {}", i))));
        cycle.push(id);
    }

    let classified = classify_cycle(&cycle, &graph);
    assert_eq!(classified.classification, CycleClassification::Info);
    assert!(classified.reason.contains("Medium cycle"));
}

#[test]
fn test_collect_transitive_dependents_deep_chain() {
    let reverse_index = index(vec![("t1", vec!["t2"]), ("t2", vec!["t3"]), ("t3", vec!["t4"]), ("t4", vec!["t5"])]);

    let mut visited = Vec::new();
    collect_transitive_dependents(&reverse_index, "t1", &mut visited);
    assert_eq!(visited.len(), 4);
    assert!(visited.contains(&"t2".to_string()));
    assert!(visited.contains(&"t5".to_string()));
}

#[test]
fn test_collect_transitive_dependents_diamond() {
    let reverse_index = index(vec![("t1", vec!["t2", "t3"]), ("t2", vec!["t4"]), ("t3", vec!["t4"])]);

    let mut visited = Vec::new();
    collect_transitive_dependents(&reverse_index, "t1", &mut visited);
    assert_eq!(visited.len(), 3);
}

#[test]
fn test_collect_transitive_dependents_no_dependents() {
    let reverse_index = index(vec![]);
    let mut visited = Vec::new();
    collect_transitive_dependents(&reverse_index, "t1", &mut visited);
    assert!(visited.is_empty());
}

#[test]
fn test_dead_end_empty_graph() {
    let graph = WorkGraph::new();
    assert!(find_dead_end_open_tasks(&graph).is_empty());
}

#[test]
fn test_dead_end_all_done() {
    let mut graph = WorkGraph::new();
    let mut t1 = make_task("t1", "Done 1");
    t1.status = Status::Done;
    let mut t2 = make_task("t2", "Done 2");
    t2.status = Status::Done;
    graph.add_node(Node::Task(t1));
    graph.add_node(Node::Task(t2));

    assert!(find_dead_end_open_tasks(&graph).is_empty());
}

#[test]
fn test_dead_end_doc_excluded() {
    let mut graph = WorkGraph::new();
    graph.add_node(Node::Task(make_task("write-docs", "Write documentation for API")));

    assert!(!find_dead_end_open_tasks(&graph).contains(&"write-docs".to_string()));
}

#[test]
fn summary_counts_every_status_once() {
    let mut graph = WorkGraph::new();
    let statuses = [
        Status::Open,
        Status::InProgress,
        Status::Done,
        Status::Blocked,
        Status::Failed,
        Status::Abandoned,
        Status::PendingReview,
    ];
    for (i, s) in statuses.iter().enumerate() {
        let mut t = make_task(&format!("t{}", i), "T");
        t.status = *s;
        graph.add_node(Node::Task(t));
    }
    let summary = compute_summary(&graph);
    assert_eq!(summary.total_tasks, 7);
    assert_eq!(summary.open, 1);
    assert_eq!(summary.in_progress, 2);
    assert_eq!(summary.done, 1);
    assert_eq!(summary.blocked, 1);
    assert_eq!(summary.ready, 1);
}
