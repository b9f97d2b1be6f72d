//! The text of the health report (`wg analyze`), line by line.
use vstd::prelude::*;
use crate::analyze::{
    AgingSection, BottleneckInfo, BottleneckView, IssueView, Recommendation, RecommendationView, Severity,
    StructuralHealth, StructuralIssue, Summary, WorkloadSection,
};
use crate::check::views;
use crate::fmt::{decimal, push_i64, push_u64, signed_decimal};
use crate::graph::{Status, strs};
use crate::text::str_eq;
use vstd::string::*;

verus! {

/// The marker for a severity.
pub open spec fn severity_tag(s: Severity) -> Seq<char> {
    match s {
        Severity::Okay => "[OK]"@,
        Severity::Warning => "[WARNING]"@,
        Severity::Critical => "[CRITICAL]"@,
    }
}

/// At most three details, then how many more there are.
pub open spec fn detail_lines(d: Seq<Seq<char>>) -> Seq<Seq<char>> {
    let shown: int = if d.len() < 3 { d.len() as int } else { 3 };
    d.take(shown).map_values(|x: Seq<char>| "      - "@ + x) + if d.len() > 3 {
        seq!["      ... and "@ + decimal((d.len() - 3) as nat) + " more"@]
    } else {
        Seq::<Seq<char>>::empty()
    }
}

/// A structural issue: its marker and message, then its details.
pub open spec fn issue_lines(i: IssueView) -> Seq<Seq<char>> {
    seq!["  "@ + severity_tag(i.severity) + " "@ + i.message] + match i.details {
        Some(d) => detail_lines(d),
        None => Seq::empty(),
    }
}

pub open spec fn issues_lines(s: Seq<IssueView>) -> Seq<Seq<char>>
    decreases s.len(),
{
    if s.len() == 0 {
        Seq::empty()
    } else {
        issues_lines(s.drop_last()) + issue_lines(s.last())
    }
}

/// How a bottleneck's status reads.
pub open spec fn status_phrase(s: Status, days: Option<int>) -> Seq<char> {
    match s {
        Status::Open => "open"@,
        Status::InProgress => match days {
            Some(d) => "in-progress for "@ + signed_decimal(d) + " days"@,
            None => "in-progress"@,
        },
        Status::Done => "done"@,
        Status::Blocked => "blocked"@,
        Status::Failed => "failed"@,
        Status::Abandoned => "abandoned"@,
        Status::PendingReview => "pending-review"@,
    }
}

/// A bottleneck's line; bottlenecks judged OK are not shown.
pub open spec fn bottleneck_line(b: BottleneckView) -> Seq<char> {
    "  "@ + severity_tag(b.severity) + " "@ + b.id + ": blocks "@ + decimal(b.transitive_blocks) + " tasks, status="@
        + status_phrase(b.status, b.days_in_progress) + match b.assigned {
        Some(a) => ", @"@ + a,
        None => ", unassigned"@,
    }
}

pub open spec fn bottleneck_lines(s: Seq<BottleneckView>) -> Seq<Seq<char>>
    decreases s.len(),
{
    if s.len() == 0 {
        Seq::empty()
    } else {
        bottleneck_lines(s.drop_last()) + if s.last().severity == Severity::Okay {
            Seq::<Seq<char>>::empty()
        } else {
            seq![bottleneck_line(s.last())]
        }
    }
}

/// How a recommended action reads.
pub open spec fn action_phrase(a: Seq<char>) -> Seq<char> {
    if a == "assign_and_start"@ {
        "Assign and start"@
    } else if a == "check_on"@ {
        "Check on"@
    } else if a == "review"@ {
        "Review"@
    } else if a == "redistribute"@ {
        "Redistribute tasks from"@
    } else if a == "fix_structural"@ {
        "Fix"@
    } else {
        a
    }
}

pub open spec fn recommendation_line(r: RecommendationView) -> Seq<char> {
    "  "@ + decimal(r.priority) + ". "@ + action_phrase(r.action) + match r.task {
        Some(t) => " "@ + t,
        None => Seq::empty(),
    } + " ("@ + r.reason + ")"@
}

pub open spec fn summary_lines(s: Summary, estimate: Option<Seq<char>>) -> Seq<Seq<char>> {
    seq![
        "SUMMARY"@,
        "  Total tasks: "@ + decimal(s.total_tasks as nat) + " ("@ + decimal(s.open as nat) + " open, "@ + decimal(
            s.in_progress as nat,
        ) + " in-progress, "@ + decimal(s.done as nat) + " done, "@ + decimal(s.blocked as nat) + " blocked)"@,
        "  Ready to start: "@ + decimal(s.ready as nat) + " tasks"@,
    ] + match estimate {
        Some(e) => seq![e],
        None => Seq::empty(),
    } + seq![Seq::<char>::empty()]
}

pub open spec fn workload_lines(total: nat, balanced: nat) -> Seq<Seq<char>> {
    if total > 0 {
        seq![
            "WORKLOAD"@,
            "  [OK] "@ + decimal(balanced) + "/"@ + decimal(total) + " actors have balanced workload"@,
            Seq::<char>::empty(),
        ]
    } else {
        Seq::empty()
    }
}

pub open spec fn aging_lines(old_open: nat, stale: nat) -> Seq<Seq<char>> {
    if old_open > 0 || stale > 0 {
        seq!["AGING"@] + (if old_open > 0 {
            seq!["  [WARNING] "@ + decimal(old_open) + " task(s) open > 3 months"@]
        } else {
            Seq::<Seq<char>>::empty()
        }) + (if stale > 0 {
            seq!["  [WARNING] "@ + decimal(stale) + " task(s) in-progress > 14 days"@]
        } else {
            Seq::<Seq<char>>::empty()
        }) + seq![Seq::<char>::empty()]
    } else {
        Seq::empty()
    }
}

/// The whole report. `estimate` is the remaining-estimate line, when there
/// is one to show.
pub open spec fn report_lines(
    summary: Summary,
    estimate: Option<Seq<char>>,
    issues: Seq<IssueView>,
    bottlenecks: Seq<BottleneckView>,
    workload_total: nat,
    workload_balanced: nat,
    old_open: nat,
    stale: nat,
    recs: Seq<RecommendationView>,
) -> Seq<Seq<char>> {
    seq![Seq::<char>::empty(), "=== Workgraph Health Report ==="@, Seq::<char>::empty()] + summary_lines(summary, estimate)
        + seq!["STRUCTURAL HEALTH"@] + issues_lines(issues) + seq![Seq::<char>::empty()] + (if bottlenecks.len() > 0 {
        seq!["BOTTLENECKS"@] + bottleneck_lines(bottlenecks) + seq![Seq::<char>::empty()]
    } else {
        Seq::<Seq<char>>::empty()
    }) + workload_lines(workload_total, workload_balanced) + aging_lines(old_open, stale) + (if recs.len() > 0 {
        seq!["RECOMMENDATIONS"@] + recs.map_values(|r: RecommendationView| recommendation_line(r))
    } else {
        Seq::<Seq<char>>::empty()
    })
}

fn tag_str(s: Severity) -> (r: &'static str)
    ensures
        r@ == severity_tag(s),
{
    match s {
        Severity::Okay => "[OK]",
        Severity::Warning => "[WARNING]",
        Severity::Critical => "[CRITICAL]",
    }
}

fn push_line(lines: &mut Vec<String>, line: String)
    ensures
        strs(*final(lines)) == strs(*old(lines)).push(line@),
{
    let ghost before = strs(*lines);
    lines.push(line);
    assert(strs(*lines) =~= before.push(line@));
}

fn push_detail_lines(lines: &mut Vec<String>, d: &Vec<String>)
    ensures
        strs(*final(lines)) == strs(*old(lines)) + detail_lines(strs(*d)),
{
    let ghost base = strs(*lines);
    let ghost dv = strs(*d);
    let shown: usize = if d.len() < 3 { d.len() } else { 3 };
    let mut q: usize = 0;
    while q < shown
        invariant
            q <= shown,
            shown <= d@.len(),
            shown == (if dv.len() < 3 { dv.len() as int } else { 3 }),
            dv == strs(*d),
            strs(*lines) == base + dv.take(q as int).map_values(|x: Seq<char>| "      - "@ + x),
        decreases shown - q,
    {
        let mut l = "      - ".to_string();
        l.append(d[q].as_str());
        push_line(lines, l);
        assert(dv.take(q + 1).map_values(|x: Seq<char>| "      - "@ + x) =~= dv.take(q as int).map_values(
            |x: Seq<char>| "      - "@ + x,
        ).push("      - "@ + dv[q as int]));
        q = q + 1;
    }
    if d.len() > 3 {
        let mut l = "      ... and ".to_string();
        push_u64(&mut l, (d.len() - 3) as u64);
        l.append(" more");
        push_line(lines, l);
    }
    assert(strs(*lines) =~= base + detail_lines(dv));
}

fn push_issue_lines(lines: &mut Vec<String>, issue: &StructuralIssue)
    ensures
        strs(*final(lines)) == strs(*old(lines)) + issue_lines(issue@),
{
    let ghost base = strs(*lines);
    let mut l = "  ".to_string();
    l.append(tag_str(issue.severity));
    l.append(" ");
    l.append(issue.message.as_str());
    push_line(lines, l);
    match &issue.details {
        Some(d) => {
            push_detail_lines(lines, d);
        },
        None => {},
    }
    assert(strs(*lines) =~= base + issue_lines(issue@));
}

fn status_text(s: Status, days: Option<i64>) -> (r: String)
    ensures
        r@ == status_phrase(
            s,
            match days {
                Some(d) => Some(d as int),
                None => None,
            },
        ),
{
    match s {
        Status::Open => "open".to_string(),
        Status::InProgress => match days {
            Some(d) => {
                let mut t = "in-progress for ".to_string();
                push_i64(&mut t, d);
                t.append(" days");
                t
            },
            None => "in-progress".to_string(),
        },
        Status::Done => "done".to_string(),
        Status::Blocked => "blocked".to_string(),
        Status::Failed => "failed".to_string(),
        Status::Abandoned => "abandoned".to_string(),
        Status::PendingReview => "pending-review".to_string(),
    }
}

fn bottleneck_text(b: &BottleneckInfo) -> (r: String)
    ensures
        r@ == bottleneck_line(b@),
{
    let mut l = "  ".to_string();
    l.append(tag_str(b.severity));
    l.append(" ");
    l.append(b.id.as_str());
    l.append(": blocks ");
    push_u64(&mut l, b.transitive_blocks as u64);
    l.append(" tasks, status=");
    let st = status_text(b.status, b.days_in_progress);
    l.append(st.as_str());
    match &b.assigned {
        Some(a) => {
            l.append(", @");
            l.append(a.as_str());
        },
        None => {
            l.append(", unassigned");
        },
    }
    l
}

fn action_text(a: &str) -> (r: String)
    ensures
        r@ == action_phrase(a@),
{
    if str_eq(a, "assign_and_start") {
        "Assign and start".to_string()
    } else if str_eq(a, "check_on") {
        "Check on".to_string()
    } else if str_eq(a, "review") {
        "Review".to_string()
    } else if str_eq(a, "redistribute") {
        "Redistribute tasks from".to_string()
    } else if str_eq(a, "fix_structural") {
        "Fix".to_string()
    } else {
        a.to_string()
    }
}

fn recommendation_text(r: &Recommendation) -> (t: String)
    ensures
        t@ == recommendation_line(r@),
{
    let mut l = "  ".to_string();
    push_u64(&mut l, r.priority as u64);
    l.append(". ");
    let act = action_text(r.action.as_str());
    l.append(act.as_str());
    match &r.task {
        Some(t) => {
            l.append(" ");
            l.append(t.as_str());
        },
        None => {},
    }
    l.append(" (");
    l.append(r.reason.as_str());
    l.append(")");
    l
}

fn push_text(lines: &mut Vec<String>, text: &str)
    ensures
        strs(*final(lines)) == strs(*old(lines)).push(text@),
{
    push_line(lines, text.to_string());
}

fn push_summary(lines: &mut Vec<String>, summary: &Summary, estimate: Option<&str>)
    ensures
        strs(*final(lines)) == strs(*old(lines)) + summary_lines(
            *summary,
            match estimate {
                Some(e) => Some(e@),
                None => None,
            },
        ),
{
    proof {
        reveal_strlit("");
    }
    let ghost head = strs(*lines);
    push_text(lines, "SUMMARY");
    let mut l = "  Total tasks: ".to_string();
    push_u64(&mut l, summary.total_tasks as u64);
    l.append(" (");
    push_u64(&mut l, summary.open as u64);
    l.append(" open, ");
    push_u64(&mut l, summary.in_progress as u64);
    l.append(" in-progress, ");
    push_u64(&mut l, summary.done as u64);
    l.append(" done, ");
    push_u64(&mut l, summary.blocked as u64);
    l.append(" blocked)");
    push_line(lines, l);
    let mut l = "  Ready to start: ".to_string();
    push_u64(&mut l, summary.ready as u64);
    l.append(" tasks");
    push_line(lines, l);
    match estimate {
        Some(e) => push_text(lines, e),
        None => {},
    }
    push_text(lines, "");
    assert(""@ =~= Seq::<char>::empty());
    let ghost est = match estimate {
        Some(e) => Some(e@),
        None => None,
    };
    assert(strs(*lines) =~= head + summary_lines(*summary, est));
}

fn push_issues(lines: &mut Vec<String>, structural: &StructuralHealth)
    ensures
        strs(*final(lines)) == strs(*old(lines)) + issues_lines(structural@),
{
    let ghost base = strs(*lines);
    let ghost iv = structural@;
    let mut k: usize = 0;
    while k < structural.issues.len()
        invariant
            k <= structural.issues@.len(),
            iv == structural@,
            iv == views(structural.issues@),
            strs(*lines) == base + issues_lines(iv.take(k as int)),
        decreases structural.issues.len() - k,
    {
        push_issue_lines(lines, &structural.issues[k]);
        assert(iv.take(k + 1).drop_last() =~= iv.take(k as int));
        assert(iv[k as int] == structural.issues@[k as int]@);
        k = k + 1;
    }
    assert(iv.take(iv.len() as int) =~= iv);
}

fn push_bottlenecks(lines: &mut Vec<String>, bottlenecks: &Vec<BottleneckInfo>)
    ensures
        strs(*final(lines)) == strs(*old(lines)) + bottleneck_lines(views(bottlenecks@)),
{
    let ghost b0 = strs(*lines);
    let ghost bv = views(bottlenecks@);
    let mut k: usize = 0;
    while k < bottlenecks.len()
        invariant
            k <= bottlenecks@.len(),
            bv == views(bottlenecks@),
            strs(*lines) == b0 + bottleneck_lines(bv.take(k as int)),
        decreases bottlenecks.len() - k,
    {
        assert(bv.take(k + 1).drop_last() =~= bv.take(k as int));
        assert(bv[k as int] == bottlenecks@[k as int]@);
        if bottlenecks[k].severity != Severity::Okay {
            let t = bottleneck_text(&bottlenecks[k]);
            push_line(lines, t);
        }
        k = k + 1;
    }
    assert(bv.take(bv.len() as int) =~= bv);
}

fn push_workload(lines: &mut Vec<String>, workload: &WorkloadSection)
    ensures
        strs(*final(lines)) == strs(*old(lines)) + workload_lines(
            workload.total_actors as nat,
            workload.balanced_actors as nat,
        ),
{
    proof {
        reveal_strlit("");
    }
    let ghost b = strs(*lines);
    if workload.total_actors > 0 {
        push_text(lines, "WORKLOAD");
        let mut l = "  [OK] ".to_string();
        push_u64(&mut l, workload.balanced_actors as u64);
        l.append("/");
        push_u64(&mut l, workload.total_actors as u64);
        l.append(" actors have balanced workload");
        push_line(lines, l);
        push_text(lines, "");
    }
    assert(""@ =~= Seq::<char>::empty());
    assert(strs(*lines) =~= b + workload_lines(workload.total_actors as nat, workload.balanced_actors as nat));
}

fn push_aging(lines: &mut Vec<String>, aging: &AgingSection)
    ensures
        strs(*final(lines)) == strs(*old(lines)) + aging_lines(
            aging.old_open_count as nat,
            aging.stale_in_progress_count as nat,
        ),
{
    proof {
        reveal_strlit("");
    }
    let ghost b = strs(*lines);
    if aging.old_open_count > 0 || aging.stale_in_progress_count > 0 {
        push_text(lines, "AGING");
        if aging.old_open_count > 0 {
            let mut l = "  [WARNING] ".to_string();
            push_u64(&mut l, aging.old_open_count as u64);
            l.append(" task(s) open > 3 months");
            push_line(lines, l);
        }
        if aging.stale_in_progress_count > 0 {
            let mut l = "  [WARNING] ".to_string();
            push_u64(&mut l, aging.stale_in_progress_count as u64);
            l.append(" task(s) in-progress > 14 days");
            push_line(lines, l);
        }
        push_text(lines, "");
    }
    assert(""@ =~= Seq::<char>::empty());
    assert(strs(*lines) =~= b + aging_lines(aging.old_open_count as nat, aging.stale_in_progress_count as nat));
}

fn push_recommendations(lines: &mut Vec<String>, recs: &Vec<Recommendation>)
    ensures
        strs(*final(lines)) == strs(*old(lines)) + views(recs@).map_values(
            |r: RecommendationView| recommendation_line(r),
        ),
{
    let ghost r0 = strs(*lines);
    let ghost rv = views(recs@);
    let mut k: usize = 0;
    while k < recs.len()
        invariant
            k <= recs@.len(),
            rv == views(recs@),
            strs(*lines) == r0 + rv.take(k as int).map_values(|r: RecommendationView| recommendation_line(r)),
        decreases recs.len() - k,
    {
        let t = recommendation_text(&recs[k]);
        push_line(lines, t);
        assert(rv[k as int] == recs@[k as int]@);
        assert(rv.take(k + 1).map_values(|r: RecommendationView| recommendation_line(r)) =~= rv.take(
            k as int,
        ).map_values(|r: RecommendationView| recommendation_line(r)).push(recommendation_line(rv[k as int])));
        k = k + 1;
    }
    assert(rv.take(rv.len() as int) =~= rv);
}

/// The lines of the health report, in order. `estimate` is the line with
/// the remaining hours and cost, shown under the summary when given; the
/// figures in it are floating point and are written by the caller.
pub fn health_report_lines(
    summary: &Summary,
    estimate: Option<&str>,
    structural: &StructuralHealth,
    bottlenecks: &Vec<BottleneckInfo>,
    workload: &WorkloadSection,
    aging: &AgingSection,
    recs: &Vec<Recommendation>,
) -> (r: Vec<String>)
    ensures
        strs(r) == report_lines(
            *summary,
            match estimate {
                Some(e) => Some(e@),
                None => None,
            },
            structural@,
            views(bottlenecks@),
            workload.total_actors as nat,
            workload.balanced_actors as nat,
            aging.old_open_count as nat,
            aging.stale_in_progress_count as nat,
            views(recs@),
        ),
{
    proof {
        reveal_strlit("");
    }
    let mut lines: Vec<String> = Vec::new();
    push_text(&mut lines, "");
    push_text(&mut lines, "=== Workgraph Health Report ===");
    push_text(&mut lines, "");
    let ghost s0 = strs(lines);
    push_summary(&mut lines, summary, estimate);
    let ghost s1 = strs(lines);
    push_text(&mut lines, "STRUCTURAL HEALTH");
    push_issues(&mut lines, structural);
    push_text(&mut lines, "");
    let ghost s2 = strs(lines);
    if bottlenecks.len() > 0 {
        push_text(&mut lines, "BOTTLENECKS");
        push_bottlenecks(&mut lines, bottlenecks);
        push_text(&mut lines, "");
    }
    let ghost s3 = strs(lines);
    push_workload(&mut lines, workload);
    push_aging(&mut lines, aging);
    let ghost s4 = strs(lines);
    if recs.len() > 0 {
        push_text(&mut lines, "RECOMMENDATIONS");
        push_recommendations(&mut lines, recs);
    }
    assert(""@ =~= Seq::<char>::empty());
    let ghost est = match estimate {
        Some(e) => Some(e@),
        None => None,
    };
    assert(s0 =~= seq![Seq::<char>::empty(), "=== Workgraph Health Report ==="@, Seq::<char>::empty()]);
    assert(s2 =~= s1 + seq!["STRUCTURAL HEALTH"@] + issues_lines(structural@) + seq![Seq::<char>::empty()]);
    assert(strs(lines) =~= report_lines(
        *summary,
        est,
        structural@,
        views(bottlenecks@),
        workload.total_actors as nat,
        workload.balanced_actors as nat,
        aging.old_open_count as nat,
        aging.stale_in_progress_count as nat,
        views(recs@),
    ));
    lines
}

} // verus!
