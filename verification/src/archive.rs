//! Archiving finished tasks: the age filter (`30d`, `2w`, `24h`, `7`) and the
//! split of a graph into the tasks that leave it and the nodes that stay.
use vstd::prelude::*;
use vstd::string::*;
use crate::graph::{Node, NodeView, Status, Task, TaskView, WorkGraph};
use crate::parse::{digits_value, is_digit, trim, trim_str};
use crate::time::{Instant, elapsed, elapsed_nanos, now_instant, parse_rfc3339, rfc3339_instant};

verus! {

// ---------------------------------------------------------------------------
// Signed integers
// ---------------------------------------------------------------------------

/// Every character is an ASCII digit.
pub open spec fn all_digits(s: Seq<char>) -> bool {
    forall|i: int| 0 <= i < s.len() ==> is_digit(#[trigger] s[i])
}

/// The integer written as an optional `+` or `-` followed by one or more
/// ASCII digits.
pub open spec fn signed_value(s: Seq<char>) -> Option<int> {
    if s.len() > 0 && (s[0] == '+' || s[0] == '-') {
        let d = s.drop_first();
        if d.len() > 0 && all_digits(d) {
            Some(
                if s[0] == '-' {
                    -(digits_value(d) as int)
                } else {
                    digits_value(d) as int
                },
            )
        } else {
            None
        }
    } else if s.len() > 0 && all_digits(s) {
        Some(digits_value(s) as int)
    } else {
        None
    }
}

/// What `str::parse::<i64>` accepts: a signed decimal that fits 64 bits.
pub open spec fn i64_value(s: Seq<char>) -> Option<i64> {
    match signed_value(s) {
        Some(v) => if i64::MIN <= v <= i64::MAX {
            Some(v as i64)
        } else {
            None
        },
        None => None,
    }
}

/// Parse a signed decimal as `str::parse::<i64>` does.
pub fn parse_i64(s: &str) -> (r: Option<i64>)
    ensures
        r == i64_value(s@),
{
    let n = s.unicode_len();
    if n == 0 {
        return None;
    }
    let c0 = s.get_char(0);
    assert(c0 == s@[0]);
    let neg = c0 == '-';
    let start: usize = if c0 == '+' || c0 == '-' { 1 } else { 0 };
    if start == n {
        return None;
    }
    let ghost d = s@.skip(start as int);
    proof {
        if start == 1 {
            assert(d =~= s@.drop_first());
        } else {
            assert(d =~= s@);
        }
    }
    let bound: u128 = 0x8000_0000_0000_0000;
    let mut value: u128 = 0;
    let mut i: usize = start;
    while i < n
        invariant
            n == s@.len(),
            start <= i <= n,
            start < n,
            start <= 1,
            d == s@.skip(start as int),
            forall|j: int| 0 <= j < i - start ==> is_digit(#[trigger] d[j]),
            value == digits_value(d.take(i - start)),
            value <= bound,
            bound == 0x8000_0000_0000_0000u128,
            c0 == s@[0],
            start == 1 <==> (c0 == '+' || c0 == '-'),
        decreases n - i,
    {
        let c = s.get_char(i);
        assert(c == d[i - start]);
        if !('0' <= c && c <= '9') {
            proof {
                assert(!all_digits(d));
                assert(!all_digits(s@)) by {
                    if start == 0 {
                        assert(s@[i as int] == c);
                    }
                }
            }
            return None;
        }
        let dv = (c as u32 - '0' as u32) as u128;
        proof {
            assert(d.take(i - start + 1).drop_last() =~= d.take(i - start));
            assert(d.take(i - start + 1).last() == c);
        }
        value = value * 10 + dv;
        i = i + 1;
        assert(value == digits_value(d.take(i - start)));
        if value > bound {
            proof {
                if all_digits(d) {
                    crate::parse::lemma_digits_mono(d, i - start);
                    assert(digits_value(d) > bound);
                    if start == 1 {
                        assert(d =~= s@.drop_first());
                        assert(signed_value(s@) is Some);
                    } else {
                        assert(d =~= s@);
                    }
                }
            }
            return None;
        }
    }
    proof {
        assert(d.take(n - start) =~= d);
        assert(all_digits(d));
    }
    if neg {
        if value == bound {
            Some(i64::MIN)
        } else {
            Some(-(value as i64))
        }
    } else if value == bound {
        None
    } else {
        Some(value as i64)
    }
}

// ---------------------------------------------------------------------------
// Durations
// ---------------------------------------------------------------------------

/// The unit of an age filter.
#[derive(Clone, Copy, Debug, PartialEq, Eq, Structural)]
pub enum DurationUnit {
    Hours,
    Days,
    Weeks,
}

/// Seconds in one unit.
pub open spec fn unit_seconds(u: DurationUnit) -> int {
    match u {
        DurationUnit::Hours => 3600,
        DurationUnit::Days => 86400,
        DurationUnit::Weeks => 604800,
    }
}

/// Why an age filter was refused.
#[derive(Debug, Clone)]
pub enum DurationError {
    /// Nothing but white space.
    Empty,
    /// The number part is not a signed 64-bit decimal; carries that part.
    InvalidNumber(String),
}

pub enum DurationErrorView {
    Empty,
    InvalidNumber(Seq<char>),
}

impl View for DurationError {
    type V = DurationErrorView;

    open spec fn view(&self) -> DurationErrorView {
        match self {
            DurationError::Empty => DurationErrorView::Empty,
            DurationError::InvalidNumber(s) => DurationErrorView::InvalidNumber(s@),
        }
    }
}

/// The number and unit of an age filter: white space trimmed, then a
/// trailing `d`, `w` or `h` names the unit, and without one the unit is days.
pub open spec fn duration_parts(s: Seq<char>) -> Result<(i64, DurationUnit), DurationErrorView> {
    let t = trim(s);
    if t.len() == 0 {
        Err(DurationErrorView::Empty)
    } else {
        let (num, unit) = if t.last() == 'd' {
            (t.drop_last(), DurationUnit::Days)
        } else if t.last() == 'w' {
            (t.drop_last(), DurationUnit::Weeks)
        } else if t.last() == 'h' {
            (t.drop_last(), DurationUnit::Hours)
        } else {
            (t, DurationUnit::Days)
        };
        match i64_value(num) {
            Some(n) => Ok((n, unit)),
            None => Err(DurationErrorView::InvalidNumber(num)),
        }
    }
}

/// The largest span chrono's `TimeDelta` holds, in whole seconds
/// (`i64::MAX` milliseconds).
pub const MAX_SPAN_SECS: i64 = 9_223_372_036_854_775;

/// `n` units fit chrono's span range.
pub open spec fn span_fits(n: i64, u: DurationUnit) -> bool {
    -MAX_SPAN_SECS <= n * unit_seconds(u) <= MAX_SPAN_SECS
}

/// The filter parses to a span chrono can hold, or does not parse at all.
pub open spec fn duration_fits(s: Seq<char>) -> bool {
    match duration_parts(s) {
        Ok((n, u)) => span_fits(n, u),
        Err(_) => true,
    }
}

/// The span an age filter stands for, in seconds.
pub open spec fn duration_seconds(s: Seq<char>) -> Result<int, DurationErrorView> {
    match duration_parts(s) {
        Ok((n, u)) => Ok(n * unit_seconds(u)),
        Err(e) => Err(e),
    }
}

/// Split an age filter into its number and unit.
pub fn parse_duration_parts(s: &str) -> (r: Result<(i64, DurationUnit), DurationError>)
    ensures
        match r {
            Ok(p) => duration_parts(s@) == Ok::<(i64, DurationUnit), DurationErrorView>(p),
            Err(e) => duration_parts(s@) == Err::<(i64, DurationUnit), DurationErrorView>(e@),
        },
{
    let t = trim_str(s);
    let n = t.unicode_len();
    if n == 0 {
        return Err(DurationError::Empty);
    }
    let last = t.get_char(n - 1);
    proof {
        assert(last == t@.last());
    }
    let (num, unit) = if last == 'd' {
        (t.substring_char(0, n - 1), DurationUnit::Days)
    } else if last == 'w' {
        (t.substring_char(0, n - 1), DurationUnit::Weeks)
    } else if last == 'h' {
        (t.substring_char(0, n - 1), DurationUnit::Hours)
    } else {
        (t, DurationUnit::Days)
    };
    proof {
        assert(t@.subrange(0, n - 1) =~= t@.drop_last());
    }
    match parse_i64(num) {
        Some(v) => Ok((v, unit)),
        None => Err(DurationError::InvalidNumber(num.to_string())),
    }
}

/// Whether `n` units fit chrono's span range.
pub fn fits_span(n: i64, unit: DurationUnit) -> (r: bool)
    ensures
        r == span_fits(n, unit),
{
    let u: i128 = match unit {
        DurationUnit::Hours => 3600,
        DurationUnit::Days => 86400,
        DurationUnit::Weeks => 604800,
    };
    let v = n as i128 * u;
    -(MAX_SPAN_SECS as i128) <= v && v <= MAX_SPAN_SECS as i128
}

/// Parse an age filter such as `30d`, `2w`, `24h` or `7` (days) into seconds.
///
/// chrono panics on a span beyond its range, so such filters are left out.
pub fn parse_duration(s: &str) -> (r: Result<i64, DurationError>)
    requires
        duration_fits(s@),
    ensures
        match r {
            Ok(v) => duration_seconds(s@) == Ok::<int, DurationErrorView>(v as int),
            Err(e) => duration_seconds(s@) == Err::<int, DurationErrorView>(e@),
        },
{
    match parse_duration_parts(s) {
        Ok((n, unit)) => {
            let u: i64 = match unit {
                DurationUnit::Hours => 3600,
                DurationUnit::Days => 86400,
                DurationUnit::Weeks => 604800,
            };
            Ok(n * u)
        },
        Err(e) => Err(e),
    }
}

// ---------------------------------------------------------------------------
// Which tasks leave the graph
// ---------------------------------------------------------------------------

/// A done task is archived; with a minimum age, only once it was completed
/// longer ago than that (an absent or unreadable completion time keeps it).
pub open spec fn archive_due(t: TaskView, older: Option<i64>, now: Instant) -> bool {
    t.status == Status::Done && match older {
        None => true,
        Some(min) => match t.completed_at {
            Some(c) => match rfc3339_instant(c) {
                Some(p) => elapsed_nanos(now, Instant { secs: p.0, nanos: p.1 }) > min * 1_000_000_000,
                None => false,
            },
            None => false,
        },
    }
}

/// Whether `task` is archived at time `now` under the minimum age `older`
/// (in seconds).
pub fn should_archive_at(task: &Task, older: Option<i64>, now: Instant) -> (r: bool)
    ensures
        r == archive_due(task@, older, now),
{
    if task.status != Status::Done {
        return false;
    }
    match older {
        None => true,
        Some(min) => match &task.completed_at {
            Some(c) => match parse_rfc3339(c.as_str()) {
                Some(then) => elapsed(now, then) > min as i128 * 1_000_000_000,
                None => false,
            },
            None => false,
        },
    }
}

/// Whether `task` is archived now under the minimum age `older` (seconds).
///
/// The clock decides only the age test: a task that is not done never is,
/// and without a minimum age every done task is. With a minimum age, nothing
/// is archived when the clock cannot be read.
pub fn should_archive(task: &Task, older: Option<i64>) -> (r: bool)
    ensures
        r ==> exists|now: Instant| archive_due(task@, older, now),
        task.status != Status::Done ==> !r,
        older is None ==> r == (task.status == Status::Done),
        (older is Some && (task.completed_at is None || rfc3339_instant(task@.completed_at->0) is None)) ==> !r,
{
    match older {
        None => should_archive_at(task, older, Instant { secs: 0, nanos: 0 }),
        Some(_) => match now_instant() {
            Some(now) => should_archive_at(task, older, now),
            None => false,
        },
    }
}

/// The nodes of `nodes` that are tasks due for the archive, in order.
pub open spec fn archived_of(nodes: Seq<NodeView>, older: Option<i64>, now: Instant) -> Seq<TaskView>
    decreases nodes.len(),
{
    if nodes.len() == 0 {
        Seq::empty()
    } else {
        archived_of(nodes.drop_last(), older, now) + match nodes.last() {
            NodeView::Task(t) => if archive_due(t, older, now) {
                seq![t]
            } else {
                Seq::empty()
            },
            NodeView::Resource(_) => Seq::empty(),
        }
    }
}

/// The nodes of `nodes` that stay, in order.
pub open spec fn kept_of(nodes: Seq<NodeView>, older: Option<i64>, now: Instant) -> Seq<NodeView>
    decreases nodes.len(),
{
    if nodes.len() == 0 {
        Seq::empty()
    } else {
        kept_of(nodes.drop_last(), older, now) + match nodes.last() {
            NodeView::Task(t) => if archive_due(t, older, now) {
                Seq::empty()
            } else {
                seq![nodes.last()]
            },
            NodeView::Resource(_) => seq![nodes.last()],
        }
    }
}

/// Split `graph` at time `now`: the tasks due for the archive leave it, in
/// graph order, and every other node stays, in order.
pub fn archive_partition(graph: WorkGraph, older: Option<i64>, now: Instant) -> (r: (Vec<Task>, WorkGraph))
    ensures
        r.0@.map_values(|t: Task| t@) == archived_of(graph@, older, now),
        r.1@ == kept_of(graph@, older, now),
{
    let ghost all = graph@;
    let mut rest = graph.nodes;
    let mut archived: Vec<Task> = Vec::new();
    let mut kept: Vec<Node> = Vec::new();
    let ghost mut i: int = 0;
    proof {
        assert(rest@.map_values(|n: Node| n@) =~= all.skip(0));
        assert(archived@.map_values(|t: Task| t@) =~= archived_of(all.take(0), older, now));
        assert(kept@.map_values(|n: Node| n@) =~= kept_of(all.take(0), older, now));
    }
    while rest.len() > 0
        invariant
            0 <= i <= all.len(),
            rest@.len() == all.len() - i,
            rest@.map_values(|n: Node| n@) == all.skip(i),
            archived@.map_values(|t: Task| t@) == archived_of(all.take(i), older, now),
            kept@.map_values(|n: Node| n@) == kept_of(all.take(i), older, now),
        decreases rest.len(),
    {
        let ghost before = rest@.map_values(|n: Node| n@);
        let ghost rb = rest@;
        let node = rest.remove(0);
        proof {
            assert(i < all.len());
            assert(before[0] == node@);
            assert(all.skip(i)[0] == all[i]);
            assert forall|j: int| 0 <= j < rest@.len() implies rest@[j]@ == all.skip(i + 1)[j] by {
                assert(rest@[j] == rb[j + 1]);
                assert(before[j + 1] == all.skip(i)[j + 1]);
            }
            assert(rest@.map_values(|n: Node| n@) =~= all.skip(i + 1));
            assert(all.take(i + 1).drop_last() =~= all.take(i));
            assert(all.take(i + 1).last() == all[i]);
        }
        let ghost ab = archived@.map_values(|t: Task| t@);
        let ghost kb = kept@.map_values(|n: Node| n@);
        match node {
            Node::Task(t) => {
                if should_archive_at(&t, older, now) {
                    archived.push(t);
                    proof {
                        assert(archived@.map_values(|t: Task| t@) =~= ab.push(all[i]->Task_0));
                        assert(kept@.map_values(|n: Node| n@) =~= kb);
                    }
                } else {
                    let ghost nv = Node::Task(t)@;
                    kept.push(Node::Task(t));
                    proof {
                        assert(kept@.map_values(|n: Node| n@) =~= kb.push(all[i]));
                        assert(archived@.map_values(|t: Task| t@) =~= ab);
                    }
                }
            },
            Node::Resource(res) => {
                kept.push(Node::Resource(res));
                proof {
                    assert(kept@.map_values(|n: Node| n@) =~= kb.push(all[i]));
                    assert(archived@.map_values(|t: Task| t@) =~= ab);
                }
            },
        }
        proof {
            i = i + 1;
        }
    }
    proof {
        assert(all.skip(i).len() == 0);
        assert(i == all.len());
        assert(all.take(i) =~= all);
    }
    let out = WorkGraph { nodes: kept };
    proof {
        assert(out@ == kept@.map_values(|n: Node| n@));
    }
    (archived, out)
}

/// Archiving splits the graph: every node is either archived or kept, never
/// both, and only done tasks are archived.
pub proof fn law_archive_partitions(nodes: Seq<NodeView>, older: Option<i64>, now: Instant)
    ensures
        archived_of(nodes, older, now).len() + kept_of(nodes, older, now).len() == nodes.len(),
        forall|k: int|
            0 <= k < archived_of(nodes, older, now).len() ==> (#[trigger] archived_of(nodes, older, now)[k]).status
                == Status::Done,
    decreases nodes.len(),
{
    if nodes.len() > 0 {
        law_archive_partitions(nodes.drop_last(), older, now);
        let a = archived_of(nodes.drop_last(), older, now);
        assert forall|k: int|
            0 <= k < archived_of(nodes, older, now).len() implies (#[trigger] archived_of(nodes, older, now)[k]).status
            == Status::Done by {
            if k < a.len() {
                assert(archived_of(nodes, older, now)[k] == a[k]);
            }
        }
    }
}

} // verus!
