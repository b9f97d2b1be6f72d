use chrono::{DateTime, Duration, Utc};
use workgraph::aging::{
    collect_task_ages, count_by_bucket, find_oldest_tasks, find_stale_in_progress, render_bar, AgeBucket,
};
use workgraph::graph::{Node, Status, Task, WorkGraph};
use workgraph::time::Instant;

fn make_task(id: &str, title: &str) -> Task {
    Task::new(id, title)
}

fn instant(t: DateTime<Utc>) -> Instant {
    Instant { secs: t.timestamp(), nanos: t.timestamp_subsec_nanos() }
}

fn id_at(graph: &WorkGraph, index: usize) -> String {
    match &graph.nodes[index] {
        Node::Task(t) => t.id.clone(),
        Node::Resource(r) => r.id.clone(),
    }
}

#[test]
fn test_age_bucket_from_days() {
    assert_eq!(AgeBucket::from_days(0), AgeBucket::LessThanOneDay);
    assert_eq!(AgeBucket::from_days(1), AgeBucket::OneToSevenDays);
    assert_eq!(AgeBucket::from_days(6), AgeBucket::OneToSevenDays);
    assert_eq!(AgeBucket::from_days(7), AgeBucket::OneToFourWeeks);
    assert_eq!(AgeBucket::from_days(27), AgeBucket::OneToFourWeeks);
    assert_eq!(AgeBucket::from_days(28), AgeBucket::OneToThreeMonths);
    assert_eq!(AgeBucket::from_days(89), AgeBucket::OneToThreeMonths);
    assert_eq!(AgeBucket::from_days(90), AgeBucket::MoreThanThreeMonths);
    assert_eq!(AgeBucket::from_days(365), AgeBucket::MoreThanThreeMonths);
}

#[test]
fn test_age_bucket_labels() {
    assert_eq!(AgeBucket::LessThanOneDay.label(), "< 1 day");
    assert_eq!(AgeBucket::OneToSevenDays.label(), "1-7 days");
    assert_eq!(AgeBucket::OneToFourWeeks.label(), "1-4 weeks");
    assert_eq!(AgeBucket::OneToThreeMonths.label(), "1-3 months");
    assert_eq!(AgeBucket::MoreThanThreeMonths.label(), "> 3 months");
}

#[test]
fn test_age_bucket_warning_levels() {
    assert_eq!(AgeBucket::LessThanOneDay.warning_level(), None);
    assert_eq!(AgeBucket::OneToSevenDays.warning_level(), None);
    assert_eq!(AgeBucket::OneToFourWeeks.warning_level(), None);
    assert_eq!(AgeBucket::OneToThreeMonths.warning_level(), Some("WARNING"));
    assert_eq!(AgeBucket::MoreThanThreeMonths.warning_level(), Some("CRITICAL"));
}

#[test]
fn render_bar_lays_out_filled_and_empty_cells() {
    assert_eq!(render_bar(0, 10, 10, 0), "[          ]");
    assert_eq!(render_bar(10, 10, 10, 10), "[||||||||||]");
    assert_eq!(render_bar(5, 10, 10, 5), "[|||||     ]");
    assert_eq!(render_bar(7, 25, 25, 8), "[||||||||                 ]");
}

#[test]
fn render_bar_without_counts_is_blank() {
    assert_eq!(render_bar(0, 0, 10, 0), "          "); // no brackets, just spaces
}

#[test]
fn render_bar_keeps_zero_counts_empty_and_clamps_to_width() {
    assert_eq!(render_bar(0, 3, 4, 4), "[    ]");
    assert_eq!(render_bar(3, 3, 4, 9), "[||||]");
}

#[test]
fn test_collect_task_ages_with_timestamp() {
    let mut graph = WorkGraph::new();
    let now = Utc::now();
    let five_days_ago = now - Duration::days(5);

    let mut task = make_task("t1", "Task 1");
    task.created_at = Some(five_days_ago.to_rfc3339());
    graph.add_node(Node::Task(task));

    let (tasks, unknown) = collect_task_ages(&graph, &instant(now));
    assert_eq!(tasks.len(), 1);
    assert_eq!(unknown, 0);
    assert_eq!(tasks[0].age_days, 5);
    assert_eq!(tasks[0].bucket, AgeBucket::OneToSevenDays);
}

#[test]
fn test_collect_task_ages_without_timestamp() {
    let mut graph = WorkGraph::new();
    let now = Utc::now();

    let task = make_task("t1", "Task 1"); // no created_at
    graph.add_node(Node::Task(task));

    let (tasks, unknown) = collect_task_ages(&graph, &instant(now));
    assert_eq!(tasks.len(), 0);
    assert_eq!(unknown, 1);
}

#[test]
fn collect_task_ages_counts_unreadable_timestamp_as_unknown() {
    let mut graph = WorkGraph::new();
    let mut task = make_task("t1", "Task 1");
    task.created_at = Some("yesterday".to_string());
    graph.add_node(Node::Task(task));

    let (tasks, unknown) = collect_task_ages(&graph, &instant(Utc::now()));
    assert_eq!(tasks.len(), 0);
    assert_eq!(unknown, 1);
}

#[test]
fn test_collect_task_ages_skips_done_tasks() {
    let mut graph = WorkGraph::new();
    let now = Utc::now();
    let five_days_ago = now - Duration::days(5);

    let mut task = make_task("t1", "Task 1");
    task.status = Status::Done;
    task.created_at = Some(five_days_ago.to_rfc3339());
    graph.add_node(Node::Task(task));

    let (tasks, unknown) = collect_task_ages(&graph, &instant(now));
    assert_eq!(tasks.len(), 0);
    assert_eq!(unknown, 0);
}

#[test]
fn test_count_by_bucket() {
    let mut graph = WorkGraph::new();
    let now = Utc::now();

    let mut t1 = make_task("t1", "Task 1");
    t1.created_at = Some((now - Duration::hours(12)).to_rfc3339()); // < 1 day

    let mut t2 = make_task("t2", "Task 2");
    t2.created_at = Some((now - Duration::days(3)).to_rfc3339()); // 1-7 days

    let mut t3 = make_task("t3", "Task 3");
    t3.created_at = Some((now - Duration::days(14)).to_rfc3339()); // 1-4 weeks

    let mut t4 = make_task("t4", "Task 4");
    t4.created_at = Some((now - Duration::days(60)).to_rfc3339()); // 1-3 months

    let mut t5 = make_task("t5", "Task 5");
    t5.created_at = Some((now - Duration::days(120)).to_rfc3339()); // > 3 months

    graph.add_node(Node::Task(t1));
    graph.add_node(Node::Task(t2));
    graph.add_node(Node::Task(t3));
    graph.add_node(Node::Task(t4));
    graph.add_node(Node::Task(t5));

    let (tasks, _) = collect_task_ages(&graph, &instant(now));
    let distribution = count_by_bucket(&tasks);

    assert_eq!(distribution[0].1, 1); // < 1 day
    assert_eq!(distribution[1].1, 1); // 1-7 days
    assert_eq!(distribution[2].1, 1); // 1-4 weeks
    assert_eq!(distribution[3].1, 1); // 1-3 months
    assert_eq!(distribution[4].1, 1); // > 3 months
}

#[test]
fn test_find_oldest_tasks() {
    let mut graph = WorkGraph::new();
    let now = Utc::now();

    let mut t1 = make_task("t1", "Task 1");
    t1.created_at = Some((now - Duration::days(10)).to_rfc3339());

    let mut t2 = make_task("t2", "Task 2");
    t2.created_at = Some((now - Duration::days(30)).to_rfc3339());

    let mut t3 = make_task("t3", "Task 3");
    t3.created_at = Some((now - Duration::days(5)).to_rfc3339());

    graph.add_node(Node::Task(t1));
    graph.add_node(Node::Task(t2));
    graph.add_node(Node::Task(t3));

    let (tasks, _) = collect_task_ages(&graph, &instant(now));
    let oldest = find_oldest_tasks(&tasks, 2);

    assert_eq!(oldest.len(), 2);
    assert_eq!(id_at(&graph, oldest[0].index), "t2"); // 30 days
    assert_eq!(id_at(&graph, oldest[1].index), "t1"); // 10 days
}

#[test]
fn test_find_stale_in_progress() {
    let mut graph = WorkGraph::new();
    let now = Utc::now();

    let mut t1 = make_task("t1", "Task 1");
    t1.status = Status::InProgress;
    t1.started_at = Some((now - Duration::days(20)).to_rfc3339());

    let mut t2 = make_task("t2", "Task 2");
    t2.status = Status::InProgress;
    t2.started_at = Some((now - Duration::days(5)).to_rfc3339());

    let mut t3 = make_task("t3", "Task 3");
    t3.started_at = Some((now - Duration::days(20)).to_rfc3339());

    graph.add_node(Node::Task(t1));
    graph.add_node(Node::Task(t2));
    graph.add_node(Node::Task(t3));

    let stale = find_stale_in_progress(&graph, &instant(now), 14);
    assert_eq!(stale.len(), 1);
    assert_eq!(id_at(&graph, stale[0].index), "t1");
    assert_eq!(stale[0].started_days_ago, 20);
}
