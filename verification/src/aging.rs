//! How long open work has been waiting: age buckets, stale tasks and bars.
use vstd::prelude::*;
use vstd::string::*;
use crate::graph::{Node, NodeView, Status, TaskView, WorkGraph};
use crate::order::{is_stable_desc, sort_desc_by_key};
use crate::time::{days_of, elapsed, elapsed_nanos, parse_rfc3339, rfc3339_instant, whole_days, Instant, NANOS_PER_DAY};

verus! {

/// Age bucket of a task.
#[derive(Debug, Clone, Copy, PartialEq, Eq, Structural)]
pub enum AgeBucket {
    LessThanOneDay,
    OneToSevenDays,
    OneToFourWeeks,
    OneToThreeMonths,
    MoreThanThreeMonths,
}

pub open spec fn bucket_of(days: int) -> AgeBucket {
    if days < 1 {
        AgeBucket::LessThanOneDay
    } else if days < 7 {
        AgeBucket::OneToSevenDays
    } else if days < 28 {
        AgeBucket::OneToFourWeeks
    } else if days < 90 {
        AgeBucket::OneToThreeMonths
    } else {
        AgeBucket::MoreThanThreeMonths
    }
}

pub open spec fn bucket_label(b: AgeBucket) -> Seq<char> {
    match b {
        AgeBucket::LessThanOneDay => "< 1 day"@,
        AgeBucket::OneToSevenDays => "1-7 days"@,
        AgeBucket::OneToFourWeeks => "1-4 weeks"@,
        AgeBucket::OneToThreeMonths => "1-3 months"@,
        AgeBucket::MoreThanThreeMonths => "> 3 months"@,
    }
}

pub open spec fn bucket_warning(b: AgeBucket) -> Option<Seq<char>> {
    match b {
        AgeBucket::OneToThreeMonths => Some("WARNING"@),
        AgeBucket::MoreThanThreeMonths => Some("CRITICAL"@),
        _ => None,
    }
}

/// Position of a bucket, from youngest to oldest.
pub open spec fn bucket_rank(b: AgeBucket) -> int {
    match b {
        AgeBucket::LessThanOneDay => 0,
        AgeBucket::OneToSevenDays => 1,
        AgeBucket::OneToFourWeeks => 2,
        AgeBucket::OneToThreeMonths => 3,
        AgeBucket::MoreThanThreeMonths => 4,
    }
}

impl AgeBucket {
    pub fn label(&self) -> (r: &'static str)
        ensures
            r@ == bucket_label(*self),
    {
        match self {
            AgeBucket::LessThanOneDay => "< 1 day",
            AgeBucket::OneToSevenDays => "1-7 days",
            AgeBucket::OneToFourWeeks => "1-4 weeks",
            AgeBucket::OneToThreeMonths => "1-3 months",
            AgeBucket::MoreThanThreeMonths => "> 3 months",
        }
    }

    pub fn warning_level(&self) -> (r: Option<&'static str>)
        ensures
            match r {
                Some(s) => bucket_warning(*self) == Some(s@),
                None => bucket_warning(*self) is None,
            },
    {
        match self {
            AgeBucket::OneToThreeMonths => Some("WARNING"),
            AgeBucket::MoreThanThreeMonths => Some("CRITICAL"),
            _ => None,
        }
    }

    pub fn from_days(days: i64) -> (r: AgeBucket)
        ensures
            r == bucket_of(days as int),
    {
        if days < 1 {
            AgeBucket::LessThanOneDay
        } else if days < 7 {
            AgeBucket::OneToSevenDays
        } else if days < 28 {
            AgeBucket::OneToFourWeeks
        } else if days < 90 {
            AgeBucket::OneToThreeMonths
        } else {
            AgeBucket::MoreThanThreeMonths
        }
    }

    /// All buckets from youngest to oldest.
    pub fn all() -> (r: [AgeBucket; 5])
        ensures
            forall|i: int| 0 <= i < 5 ==> bucket_rank(#[trigger] r@[i]) == i,
    {
        [
            AgeBucket::LessThanOneDay,
            AgeBucket::OneToSevenDays,
            AgeBucket::OneToFourWeeks,
            AgeBucket::OneToThreeMonths,
            AgeBucket::MoreThanThreeMonths,
        ]
    }
}

/// Number of filled cells of a bar for `count`, given `scaled`, the
/// proportion of `width` that `count` is of the largest count, rounded up
/// (computed by the caller in floating point): none for a zero count, and
/// never more than `width`.
pub open spec fn bar_fill(count: nat, scaled: nat, width: nat) -> nat {
    if count == 0 {
        0
    } else if scaled < width {
        scaled
    } else {
        width
    }
}

pub open spec fn repeat_char(c: char, n: nat) -> Seq<char> {
    Seq::new(n, |_i: int| c)
}

/// The text of a distribution bar: `width` spaces when nothing is counted,
/// otherwise `[`, the filled cells as `|`, the rest as spaces, and `]`.
pub open spec fn bar_text(count: nat, max_count: nat, width: nat, scaled: nat) -> Seq<char> {
    if max_count == 0 {
        repeat_char(' ', width)
    } else {
        let f = bar_fill(count, scaled, width);
        "["@ + repeat_char('|', f) + repeat_char(' ', (width - f) as nat) + "]"@
    }
}

fn push_repeated(out: &mut String, piece: &str, n: usize)
    requires
        piece@.len() == 1,
    ensures
        final(out)@ == old(out)@ + repeat_char(piece@[0], n as nat),
{
    let mut i: usize = 0;
    while i < n
        invariant
            i <= n,
            piece@.len() == 1,
            out@ == old(out)@ + repeat_char(piece@[0], i as nat),
        decreases n - i,
    {
        let ghost before = out@;
        out.append(piece);
        proof {
            assert(piece@ =~= seq![piece@[0]]);
            assert(out@ =~= old(out)@ + repeat_char(piece@[0], (i + 1) as nat));
        }
        i = i + 1;
    }
}

/// An ASCII bar for the age distribution. `scaled` is `count / max_count *
/// width` rounded up, which the caller computes in floating point.
pub fn render_bar(count: usize, max_count: usize, width: usize, scaled: usize) -> (r: String)
    ensures
        r@ == bar_text(count as nat, max_count as nat, width as nat, scaled as nat),
{
    proof {
        reveal_strlit(" ");
        reveal_strlit("|");
        reveal_strlit("[");
        reveal_strlit("]");
    }
    let mut out = String::new();
    if max_count == 0 {
        push_repeated(&mut out, " ", width);
        assert(out@ =~= bar_text(count as nat, max_count as nat, width as nat, scaled as nat));
        return out;
    }
    let filled: usize = if count == 0 {
        0
    } else if scaled < width {
        scaled
    } else {
        width
    };
    out.append("[");
    push_repeated(&mut out, "|", filled);
    push_repeated(&mut out, " ", width - filled);
    out.append("]");
    assert(out@ =~= bar_text(count as nat, max_count as nat, width as nat, scaled as nat));
    out
}

// ---------------------------------------------------------------------------
// Ages of open work
// ---------------------------------------------------------------------------

/// A task (by its position in the graph) with its age.
#[derive(Debug, Clone, Copy)]
pub struct TaskAgeInfo {
    pub index: usize,
    pub age_days: i64,
    pub bucket: AgeBucket,
}

/// Age in whole days of a task created at `created`, seen at `now`.
pub open spec fn age_days_at(now: Instant, created: (i64, u32)) -> int {
    whole_days(elapsed_nanos(now, Instant { secs: created.0, nanos: created.1 }))
}

/// Whether the task at this position counts for the age distribution, and
/// its age when its creation time is known.
pub open spec fn task_age(now: Instant, n: NodeView) -> Option<Option<int>> {
    match n {
        NodeView::Task(t) => if t.status == Status::Open || t.status == Status::InProgress {
            Some(
                match t.created_at {
                    Some(c) => match rfc3339_instant(c) {
                        Some(p) => Some(age_days_at(now, p)),
                        None => None,
                    },
                    None => None,
                },
            )
        } else {
            None
        },
        NodeView::Resource(_) => None,
    }
}

/// Ages of the open and in-progress tasks among `nodes[..k]` whose creation
/// time parses.
pub open spec fn known_ages(now: Instant, nodes: Seq<NodeView>, k: int) -> Seq<(int, int)>
    decreases k,
{
    if k <= 0 {
        Seq::empty()
    } else {
        known_ages(now, nodes, k - 1) + match task_age(now, nodes[k - 1]) {
            Some(Some(d)) => seq![(k - 1, d)],
            _ => Seq::empty(),
        }
    }
}

/// Number of open and in-progress tasks among `nodes[..k]` without a
/// parseable creation time.
pub open spec fn unknown_ages(now: Instant, nodes: Seq<NodeView>, k: int) -> nat
    decreases k,
{
    if k <= 0 {
        0
    } else {
        unknown_ages(now, nodes, k - 1) + match task_age(now, nodes[k - 1]) {
            Some(None) => 1nat,
            _ => 0nat,
        }
    }
}

pub open spec fn age_view(a: TaskAgeInfo) -> (int, int) {
    (a.index as int, a.age_days as int)
}

/// Collect the open and in-progress tasks with their ages, and count those
/// whose creation time is missing or unreadable.
pub fn collect_task_ages(graph: &WorkGraph, now: &Instant) -> (r: (Vec<TaskAgeInfo>, usize))
    ensures
        r.0@.map_values(|a: TaskAgeInfo| age_view(a)) == known_ages(*now, graph@, graph@.len() as int),
        forall|i: int| 0 <= i < r.0@.len() ==> (#[trigger] r.0@[i]).bucket == bucket_of(r.0@[i].age_days as int),
        r.1 == unknown_ages(*now, graph@, graph@.len() as int),
{
    let mut ages: Vec<TaskAgeInfo> = Vec::new();
    let mut unknown: usize = 0;
    let mut i: usize = 0;
    assert(ages@.map_values(|a: TaskAgeInfo| age_view(a)) =~= Seq::<(int, int)>::empty());
    while i < graph.nodes.len()
        invariant
            i <= graph.nodes.len(),
            graph@.len() == graph.nodes.len(),
            ages@.map_values(|a: TaskAgeInfo| age_view(a)) == known_ages(*now, graph@, i as int),
            forall|j: int| 0 <= j < ages@.len() ==> (#[trigger] ages@[j]).bucket == bucket_of(ages@[j].age_days as int),
            unknown == unknown_ages(*now, graph@, i as int),
            unknown <= i,
        decreases graph.nodes.len() - i,
    {
        assert(graph@[i as int] == graph.nodes@[i as int]@);
        let ghost before = ages@;
        if let Node::Task(task) = &graph.nodes[i] {
            if task.status == Status::Open || task.status == Status::InProgress {
                let parsed = match &task.created_at {
                    Some(c) => parse_rfc3339(c.as_str()),
                    None => None,
                };
                match parsed {
                    Some(created) => {
                        let days = days_of(elapsed(*now, created));
                        let bucket = AgeBucket::from_days(days);
                        ages.push(TaskAgeInfo { index: i, age_days: days, bucket });
                        assert(ages@.map_values(|a: TaskAgeInfo| age_view(a)) =~= before.map_values(
                            |a: TaskAgeInfo| age_view(a),
                        ).push((i as int, days as int)));
                    },
                    None => {
                        unknown = unknown + 1;
                    },
                }
            }
        }
        i = i + 1;
    }
    (ages, unknown)
}

/// Number of tasks in the bucket of rank `b`.
pub open spec fn bucket_count(tasks: Seq<TaskAgeInfo>, b: int) -> nat {
    tasks.filter(|a: TaskAgeInfo| bucket_rank(a.bucket) == b).len()
}

/// Count the collected tasks per bucket, youngest bucket first.
pub fn count_by_bucket(tasks: &Vec<TaskAgeInfo>) -> (r: [(AgeBucket, usize); 5])
    ensures
        forall|b: int| 0 <= b < 5 ==> bucket_rank((#[trigger] r@[b]).0) == b && r@[b].1 == bucket_count(tasks@, b),
{
    let mut counts: [usize; 5] = [0, 0, 0, 0, 0];
    let mut i: usize = 0;
    while i < tasks.len()
        invariant
            i <= tasks.len(),
            forall|b: int| 0 <= b < 5 ==> #[trigger] counts@[b] == bucket_count(tasks@.take(i as int), b),
            forall|b: int| 0 <= b < 5 ==> #[trigger] counts@[b] <= i,
        decreases tasks.len() - i,
    {
        let idx: usize = match tasks[i].bucket {
            AgeBucket::LessThanOneDay => 0,
            AgeBucket::OneToSevenDays => 1,
            AgeBucket::OneToFourWeeks => 2,
            AgeBucket::OneToThreeMonths => 3,
            AgeBucket::MoreThanThreeMonths => 4,
        };
        proof {
            assert(tasks@.take(i + 1) =~= tasks@.take(i as int).push(tasks@[i as int]));
            assert(tasks@.take(i + 1).drop_last() =~= tasks@.take(i as int));
            assert forall|b: int| 0 <= b < 5 implies #[trigger] bucket_count(tasks@.take(i + 1), b) == bucket_count(tasks@.take(i as int), b) + (if bucket_rank(tasks@[i as int].bucket) == b {
                1int
            } else {
                0int
            }) by {
                reveal_with_fuel(Seq::filter, 1);
            }
        }
        counts[idx] = counts[idx] + 1;
        i = i + 1;
    }
    assert(tasks@.take(tasks@.len() as int) =~= tasks@);
    let buckets = AgeBucket::all();
    [
        (buckets[0], counts[0]),
        (buckets[1], counts[1]),
        (buckets[2], counts[2]),
        (buckets[3], counts[3]),
        (buckets[4], counts[4]),
    ]
}

pub open spec fn age_keys(tasks: Seq<TaskAgeInfo>) -> Seq<i64> {
    tasks.map_values(|a: TaskAgeInfo| a.age_days)
}

pub open spec fn pair_keys(s: Seq<(int, int)>) -> Seq<i64> {
    s.map_values(|p: (int, int)| p.1 as i64)
}

/// The `limit` oldest collected tasks, oldest first; ties keep collection order.
pub fn find_oldest_tasks(tasks: &Vec<TaskAgeInfo>, limit: usize) -> (r: Vec<TaskAgeInfo>)
    ensures
        exists|order: Seq<usize>|
            #![trigger is_stable_desc(age_keys(tasks@), order)]
            is_stable_desc(age_keys(tasks@), order) && r@ == order.take(
                if limit < order.len() {
                    limit as int
                } else {
                    order.len() as int
                },
            ).map_values(|k: usize| tasks@[k as int]),
{
    let mut keys: Vec<i64> = Vec::new();
    let mut i: usize = 0;
    while i < tasks.len()
        invariant
            i <= tasks.len(),
            keys@ == age_keys(tasks@.take(i as int)),
        decreases tasks.len() - i,
    {
        keys.push(tasks[i].age_days);
        assert(keys@ =~= age_keys(tasks@.take(i + 1)));
        i = i + 1;
    }
    assert(tasks@.take(tasks@.len() as int) =~= tasks@);
    let order = sort_desc_by_key(&keys);
    let n = if limit < order.len() {
        limit
    } else {
        order.len()
    };
    let mut out: Vec<TaskAgeInfo> = Vec::new();
    let mut j: usize = 0;
    while j < n
        invariant
            j <= n,
            n <= order@.len(),
            order@.len() == tasks@.len(),
            forall|q: int| 0 <= q < order@.len() ==> #[trigger] order@[q] < tasks@.len(),
            out@ == order@.take(j as int).map_values(|k: usize| tasks@[k as int]),
        decreases n - j,
    {
        assert(order@[j as int] < tasks@.len());
        out.push(tasks[order[j]]);
        assert(out@ =~= order@.take(j + 1).map_values(|k: usize| tasks@[k as int]));
        j = j + 1;
    }
    out
}

/// An in-progress task that started long ago.
#[derive(Debug, Clone, Copy)]
pub struct StaleInProgressInfo {
    pub index: usize,
    pub started_days_ago: i64,
}

/// Age in nanoseconds of an in-progress task, when its start time parses.
pub open spec fn stale_age(now: Instant, n: NodeView) -> Option<int> {
    match n {
        NodeView::Task(t) => if t.status == Status::InProgress {
            match t.started_at {
                Some(s) => match rfc3339_instant(s) {
                    Some(p) => Some(elapsed_nanos(now, Instant { secs: p.0, nanos: p.1 })),
                    None => None,
                },
                None => None,
            }
        } else {
            None
        },
        NodeView::Resource(_) => None,
    }
}

/// In-progress tasks among `nodes[..k]` that started more than
/// `threshold_days` days before `now`, with their age in whole days.
pub open spec fn stale_tasks(now: Instant, nodes: Seq<NodeView>, threshold_days: int, k: int) -> Seq<(int, int)>
    decreases k,
{
    if k <= 0 {
        Seq::empty()
    } else {
        stale_tasks(now, nodes, threshold_days, k - 1) + match stale_age(now, nodes[k - 1]) {
            Some(a) => if a > threshold_days * 86_400_000_000_000 {
                seq![(k - 1, whole_days(a))]
            } else {
                Seq::empty()
            },
            None => Seq::empty(),
        }
    }
}

pub open spec fn stale_view(a: StaleInProgressInfo) -> (int, int) {
    (a.index as int, a.started_days_ago as int)
}

pub open spec fn stale_views(v: Seq<StaleInProgressInfo>) -> Seq<(int, int)> {
    v.map_values(|a: StaleInProgressInfo| stale_view(a))
}

/// The items of `items` at the positions listed in `order`.
pub open spec fn pick<T>(order: Seq<usize>, items: Seq<T>) -> Seq<T> {
    order.map_values(|k: usize| items[k as int])
}

/// In-progress tasks started more than `threshold_days` ago, longest-running
/// first; ties keep graph order.
pub fn find_stale_in_progress(graph: &WorkGraph, now: &Instant, threshold_days: i64) -> (r: Vec<StaleInProgressInfo>)
    requires
        -106_751_991_167 <= threshold_days <= 106_751_991_167,
    ensures
        exists|order: Seq<usize>|
            #![trigger is_stable_desc(pair_keys(stale_tasks(*now, graph@, threshold_days as int, graph@.len() as int)), order)]
            is_stable_desc(pair_keys(stale_tasks(*now, graph@, threshold_days as int, graph@.len() as int)), order)
            && stale_views(r@) == pick(order, stale_tasks(*now, graph@, threshold_days as int, graph@.len() as int)),
{
    let threshold: i128 = threshold_days as i128 * NANOS_PER_DAY;
    let mut found: Vec<StaleInProgressInfo> = Vec::new();
    let mut i: usize = 0;
    assert(stale_views(found@) =~= Seq::<(int, int)>::empty());
    while i < graph.nodes.len()
        invariant
            i <= graph.nodes.len(),
            graph@.len() == graph.nodes.len(),
            threshold == threshold_days * 86_400_000_000_000,
            stale_views(found@) == stale_tasks(*now, graph@, threshold_days as int, i as int),
        decreases graph.nodes.len() - i,
    {
        assert(graph@[i as int] == graph.nodes@[i as int]@);
        let ghost before = found@;
        if let Node::Task(task) = &graph.nodes[i] {
            if task.status == Status::InProgress {
                if let Some(s) = &task.started_at {
                    if let Some(started) = parse_rfc3339(s.as_str()) {
                        let age = elapsed(*now, started);
                        if age > threshold {
                            let days = days_of(age);
                            found.push(StaleInProgressInfo { index: i, started_days_ago: days });
                            assert(stale_views(found@) =~= stale_views(before).push((i as int, days as int)));
                        }
                    }
                }
            }
        }
        i = i + 1;
    }
    let ghost all = stale_tasks(*now, graph@, threshold_days as int, graph@.len() as int);
    let mut keys: Vec<i64> = Vec::new();
    let mut j: usize = 0;
    while j < found.len()
        invariant
            j <= found.len(),
            stale_views(found@) == all,
            keys@ == pair_keys(all.take(j as int)),
        decreases found.len() - j,
    {
        assert(all[j as int] == stale_view(found@[j as int]));
        keys.push(found[j].started_days_ago);
        assert(keys@ =~= pair_keys(all.take(j + 1)));
        j = j + 1;
    }
    assert(all.take(all.len() as int) =~= all);
    let order = sort_desc_by_key(&keys);
    let mut out: Vec<StaleInProgressInfo> = Vec::new();
    let mut q: usize = 0;
    while q < order.len()
        invariant
            q <= order@.len(),
            order@.len() == found@.len(),
            forall|z: int| 0 <= z < order@.len() ==> #[trigger] order@[z] < found@.len(),
            stale_views(found@) == all,
            stale_views(out@) == pick(order@.take(q as int), all),
        decreases order@.len() - q,
    {
        assert(order@[q as int] < found@.len());
        let ghost before = out@;
        out.push(found[order[q]]);
        assert(out@ =~= before.push(found@[order@[q as int] as int]));
        assert(all[order@[q as int] as int] == stale_view(found@[order@[q as int] as int]));
        assert(order@.take(q + 1) =~= order@.take(q as int).push(order@[q as int]));
        let ghost bm = stale_views(before);
        assert(bm == pick(order@.take(q as int), all));
        assert(bm.len() == q);
        assert(before.len() == q);
        assert forall|z: int| 0 <= z < q implies #[trigger] stale_views(out@)[z] == pick(order@.take(q + 1), all)[z] by {
            assert(bm[z] == pick(order@.take(q as int), all)[z]);
            assert(out@[z] == before[z]);
        }
        assert(stale_views(out@) =~= pick(order@.take(q + 1), all));
        q = q + 1;
    }
    assert(order@.take(order@.len() as int) =~= order@);
    out
}

} // verus!
