//! Health analysis of a graph: structure, bottlenecks, aging, and what to do next.
use vstd::prelude::*;
use vstd::string::*;
use crate::graph::{LoopEdge, LoopEdgeView, Node, NodeView, Status, Task, TaskView, WorkGraph, lookup_task, strs};
use crate::check::{
    CheckResult, LoopEdgeIssue, LoopEdgeIssueKind, LoopEdgeIssueKindView, LoopEdgeIssueView,
    OrphanRef, OrphanRefView, check_all, cycle_views, dfs_cycles, is_cycle, acyclic, loop_issues_in,
    orphans_in, views,
};
use crate::fmt::{decimal, push_i64, push_u64, signed_decimal};
use crate::text::{clone_strs, contains_str, occurs_in, str_contains};
use crate::parse::{lowercase, to_lowercase};
use crate::deps::{
    ReverseIndex, build_reverse_index, distinct_blockers, graph_reaches, indexes,
    law_transitive_matches_graph, reach_set, transitive_dependents,
};
use crate::time::{Instant, days_of, elapsed, elapsed_nanos, parse_rfc3339, rfc3339_instant, whole_days};
use crate::order::{is_stable_desc, is_stable_desc_pairs, sort_desc_by_key, sort_desc_by_pair};
use crate::aging::pick;

verus! {

/// How serious a finding is.
#[derive(Debug, Clone, Copy, PartialEq, Eq, Structural)]
pub enum Severity {
    Okay,
    Warning,
    Critical,
}

/// A structural health finding.
#[derive(Debug, Clone)]
pub struct StructuralIssue {
    pub severity: Severity,
    pub message: String,
    pub details: Option<Vec<String>>,
}

pub ghost struct IssueView {
    pub severity: Severity,
    pub message: Seq<char>,
    pub details: Option<Seq<Seq<char>>>,
}

/// The view of an optional list of strings.
pub open spec fn opt_strs(o: Option<Vec<String>>) -> Option<Seq<Seq<char>>> {
    match o {
        Some(v) => Some(strs(v)),
        None => None,
    }
}

impl View for StructuralIssue {
    type V = IssueView;

    open spec fn view(&self) -> IssueView {
        IssueView { severity: self.severity, message: self.message@, details: opt_strs(self.details) }
    }
}

/// The structural section of a health report.
#[derive(Debug, Clone)]
pub struct StructuralHealth {
    pub issues: Vec<StructuralIssue>,
}

impl View for StructuralHealth {
    type V = Seq<IssueView>;

    open spec fn view(&self) -> Seq<IssueView> {
        views(self.issues@)
    }
}

/// How a dependency cycle is judged.
#[derive(Debug, Clone, Copy, PartialEq, Eq, Structural)]
pub enum CycleClassification {
    /// A task of the cycle is tagged as recurring on purpose.
    Intentional,
    /// Probably a mistake.
    Warning,
    /// Worth a look.
    Info,
}

/// A cycle with its judgement and the reason for it.
#[derive(Debug, Clone)]
pub struct ClassifiedCycle {
    pub nodes: Vec<String>,
    pub classification: CycleClassification,
    pub reason: String,
}

// ---------------------------------------------------------------------------
// Cycle classification
// ---------------------------------------------------------------------------

/// A task tagged `recurring` or `cycle:intentional`.
pub open spec fn marks_intentional(t: TaskView) -> bool {
    t.tags.contains("recurring"@) || t.tags.contains("cycle:intentional"@)
}

/// Whether `id` names a task that marks its cycle as intentional.
pub open spec fn node_intentional(nodes: Seq<NodeView>, id: Seq<char>) -> bool {
    match lookup_task(nodes, id) {
        Some(t) => marks_intentional(t),
        None => false,
    }
}

/// Whether some member of the cycle marks it as intentional.
pub open spec fn cycle_intentional(nodes: Seq<NodeView>, cycle: Seq<Seq<char>>) -> bool {
    exists|i: int| 0 <= i < cycle.len() && #[trigger] node_intentional(nodes, cycle[i])
}

/// The judgement of a cycle: intentional when tagged, else a warning for short
/// (at most two nodes) and long (five or more) cycles, else informational.
pub open spec fn cycle_class(nodes: Seq<NodeView>, cycle: Seq<Seq<char>>) -> CycleClassification {
    if cycle_intentional(nodes, cycle) {
        CycleClassification::Intentional
    } else if cycle.len() <= 2 || cycle.len() >= 5 {
        CycleClassification::Warning
    } else {
        CycleClassification::Info
    }
}

/// The reason given for the judgement of a cycle.
pub open spec fn cycle_reason(nodes: Seq<NodeView>, cycle: Seq<Seq<char>>) -> Seq<char> {
    if cycle_intentional(nodes, cycle) {
        "has 'recurring' or 'cycle:intentional' tag"@
    } else if cycle.len() <= 2 {
        "Short cycle without recurrence tag"@
    } else if cycle.len() >= 5 {
        "Long cycle ("@ + decimal(cycle.len()) + " nodes) likely unintentional"@
    } else {
        "Medium cycle ("@ + decimal(cycle.len()) + " nodes) needs review"@
    }
}

fn task_marks_intentional(t: &Task) -> (r: bool)
    ensures
        r == marks_intentional(t@),
{
    contains_str(&t.tags, "recurring") || contains_str(&t.tags, "cycle:intentional")
}

/// Judge a dependency cycle by its length and its members' tags.
pub fn classify_cycle(cycle: &Vec<String>, graph: &WorkGraph) -> (r: ClassifiedCycle)
    ensures
        strs(r.nodes) == strs(*cycle),
        r.classification == cycle_class(graph@, strs(*cycle)),
        r.reason@ == cycle_reason(graph@, strs(*cycle)),
{
    let ghost c = strs(*cycle);
    let len = cycle.len();
    let mut intentional = false;
    let mut i: usize = 0;
    while i < len
        invariant
            len == cycle.len(),
            c == strs(*cycle),
            i <= len,
            intentional ==> cycle_intentional(graph@, c),
            !intentional ==> forall|j: int| 0 <= j < i ==> !node_intentional(graph@, #[trigger] c[j]),
        decreases len - i,
    {
        let hit = match graph.get_task(cycle[i].as_str()) {
            Some(t) => task_marks_intentional(t),
            None => false,
        };
        assert(c[i as int] == cycle@[i as int]@);
        if hit {
            intentional = true;
            assert(node_intentional(graph@, c[i as int]));
        }
        i = i + 1;
    }
    proof {
        if !intentional {
            assert(!cycle_intentional(graph@, c));
        }
    }
    let (classification, reason) = if intentional {
        proof {
            reveal_strlit("has 'recurring' or 'cycle:intentional' tag");
        }
        (CycleClassification::Intentional, "has 'recurring' or 'cycle:intentional' tag".to_string())
    } else if len <= 2 {
        (CycleClassification::Warning, "Short cycle without recurrence tag".to_string())
    } else if len >= 5 {
        let mut s = String::new();
        s.append("Long cycle (");
        push_u64(&mut s, len as u64);
        s.append(" nodes) likely unintentional");
        (CycleClassification::Warning, s)
    } else {
        let mut s = String::new();
        s.append("Medium cycle (");
        push_u64(&mut s, len as u64);
        s.append(" nodes) needs review");
        (CycleClassification::Info, s)
    };
    proof {
        assert(reason@ =~= cycle_reason(graph@, c));
    }
    ClassifiedCycle { nodes: clone_strs(cycle), classification, reason }
}

// ---------------------------------------------------------------------------
// Dead ends
// ---------------------------------------------------------------------------

/// Whether node `n` is a task blocked by `id`.
pub open spec fn waits_on(n: NodeView, id: Seq<char>) -> bool {
    match n {
        NodeView::Task(t) => t.blocked_by.contains(id),
        NodeView::Resource(_) => false,
    }
}

/// Whether some task is blocked by `id`.
pub open spec fn depended_on(nodes: Seq<NodeView>, id: Seq<char>) -> bool {
    exists|j: int| 0 <= j < nodes.len() && #[trigger] waits_on(nodes[j], id)
}

/// A task whose lower-cased id or title suggests a final deliverable.
pub open spec fn looks_final(t: TaskView) -> bool {
    let i = lowercase(t.id);
    let ti = lowercase(t.title);
    occurs_in(i, "deploy"@) || occurs_in(i, "release"@) || occurs_in(i, "doc"@) || occurs_in(
        i,
        "final"@,
    ) || occurs_in(ti, "deploy"@) || occurs_in(ti, "release"@) || occurs_in(ti, "documentation"@)
        || occurs_in(ti, "final"@)
}

/// An open task that nothing waits on and that does not look like a final deliverable.
pub open spec fn dead_end(nodes: Seq<NodeView>, t: TaskView) -> bool {
    t.status == Status::Open && !depended_on(nodes, t.id) && !looks_final(t)
}

/// The ids of the dead-end tasks among `part`, in order.
pub open spec fn dead_ends(nodes: Seq<NodeView>, part: Seq<NodeView>) -> Seq<Seq<char>>
    decreases part.len(),
{
    if part.len() == 0 {
        Seq::empty()
    } else {
        dead_ends(nodes, part.drop_last()) + match part.last() {
            NodeView::Task(t) => if dead_end(nodes, t) {
                seq![t.id]
            } else {
                Seq::empty()
            },
            NodeView::Resource(_) => Seq::empty(),
        }
    }
}

fn is_depended_on(graph: &WorkGraph, id: &str) -> (r: bool)
    ensures
        r == depended_on(graph@, id@),
{
    let mut i: usize = 0;
    while i < graph.nodes.len()
        invariant
            i <= graph.nodes.len(),
            graph@.len() == graph.nodes.len(),
            forall|j: int| 0 <= j < i ==> !waits_on(#[trigger] graph@[j], id@),
        decreases graph.nodes.len() - i,
    {
        assert(graph@[i as int] == graph.nodes@[i as int]@);
        match &graph.nodes[i] {
            Node::Task(t) => {
                if contains_str(&t.blocked_by, id) {
                    assert(strs(t.blocked_by) =~= t.blocked_by@.map_values(|x: String| x@));
                    assert(waits_on(graph@[i as int], id@));
                    return true;
                }
                assert(strs(t.blocked_by) =~= t.blocked_by@.map_values(|x: String| x@));
            },
            Node::Resource(_) => {},
        }
        i = i + 1;
    }
    false
}

fn is_final_looking(t: &Task) -> (r: bool)
    ensures
        r == looks_final(t@),
{
    let id_lower = to_lowercase(t.id.as_str());
    let title_lower = to_lowercase(t.title.as_str());
    let i = id_lower.as_str();
    let ti = title_lower.as_str();
    str_contains(i, "deploy") || str_contains(i, "release") || str_contains(i, "doc")
        || str_contains(i, "final") || str_contains(ti, "deploy") || str_contains(ti, "release")
        || str_contains(ti, "documentation") || str_contains(ti, "final")
}

/// Open tasks that nothing depends on, leaving out likely final deliverables
/// (ids with deploy, release, doc or final; titles with deploy, release,
/// documentation or final; compared in lower case).
pub fn find_dead_end_open_tasks(graph: &WorkGraph) -> (r: Vec<String>)
    ensures
        strs(r) == dead_ends(graph@, graph@),
{
    let mut out: Vec<String> = Vec::new();
    let mut i: usize = 0;
    while i < graph.nodes.len()
        invariant
            i <= graph.nodes.len(),
            graph@.len() == graph.nodes.len(),
            strs(out) == dead_ends(graph@, graph@.take(i as int)),
        decreases graph.nodes.len() - i,
    {
        assert(graph@.take(i + 1).drop_last() =~= graph@.take(i as int));
        assert(graph@.take(i + 1).last() == graph.nodes@[i as int]@);
        match &graph.nodes[i] {
            Node::Task(t) => {
                if t.status == Status::Open && !is_depended_on(graph, t.id.as_str())
                    && !is_final_looking(t) {
                    let ghost before = strs(out);
                    out.push(t.id.clone());
                    assert(strs(out) =~= before.push(t.id@));
                } else {
                }
            },
            Node::Resource(_) => {},
        }
        proof {
            let s = dead_ends(graph@, graph@.take(i + 1));
            assert(s == dead_ends(graph@, graph@.take(i as int)) + match graph@.take(i + 1).last() {
                NodeView::Task(t) => if dead_end(graph@, t) {
                    seq![t.id]
                } else {
                    Seq::empty()
                },
                NodeView::Resource(_) => Seq::empty(),
            });
            assert(strs(out) =~= s);
        }
        i = i + 1;
    }
    assert(graph@.take(graph.nodes.len() as int) =~= graph@);
    out
}

// ---------------------------------------------------------------------------
// Loop edge summary
// ---------------------------------------------------------------------------

/// Number of loop edges of the tasks among `part`.
pub open spec fn loop_edge_total(part: Seq<NodeView>) -> nat
    decreases part.len(),
{
    if part.len() == 0 {
        0
    } else {
        loop_edge_total(part.drop_last()) + match part.last() {
            NodeView::Task(t) => t.loops_to.len(),
            NodeView::Resource(_) => 0,
        }
    }
}

/// An edge that can still fire: its target task exists and has iterations left.
pub open spec fn edge_active(nodes: Seq<NodeView>, e: LoopEdgeView) -> bool {
    match lookup_task(nodes, e.target) {
        Some(t) => t.loop_iteration < e.max_iterations,
        None => false,
    }
}

/// Number of active edges among `edges`.
pub open spec fn active_in(nodes: Seq<NodeView>, edges: Seq<LoopEdgeView>) -> nat
    decreases edges.len(),
{
    if edges.len() == 0 {
        0
    } else {
        active_in(nodes, edges.drop_last()) + if edge_active(nodes, edges.last()) {
            1nat
        } else {
            0nat
        }
    }
}

/// Number of active loop edges of the tasks among `part`.
pub open spec fn active_loop_edges(nodes: Seq<NodeView>, part: Seq<NodeView>) -> nat
    decreases part.len(),
{
    if part.len() == 0 {
        0
    } else {
        active_loop_edges(nodes, part.drop_last()) + match part.last() {
            NodeView::Task(t) => active_in(nodes, t.loops_to),
            NodeView::Resource(_) => 0,
        }
    }
}

proof fn lemma_active_in_le(nodes: Seq<NodeView>, edges: Seq<LoopEdgeView>)
    ensures
        active_in(nodes, edges) <= edges.len(),
    decreases edges.len(),
{
    if edges.len() > 0 {
        lemma_active_in_le(nodes, edges.drop_last());
    }
}

proof fn lemma_active_le_total(nodes: Seq<NodeView>, part: Seq<NodeView>)
    ensures
        active_loop_edges(nodes, part) <= loop_edge_total(part),
    decreases part.len(),
{
    if part.len() > 0 {
        lemma_active_le_total(nodes, part.drop_last());
        match part.last() {
            NodeView::Task(t) => lemma_active_in_le(nodes, t.loops_to),
            NodeView::Resource(_) => {},
        }
    }
}

proof fn lemma_total_prefix(part: Seq<NodeView>, i: int)
    requires
        0 <= i <= part.len(),
    ensures
        loop_edge_total(part.take(i)) <= loop_edge_total(part),
    decreases part.len() - i,
{
    if i < part.len() {
        lemma_total_prefix(part, i + 1);
        assert(part.take(i + 1).drop_last() =~= part.take(i));
    } else {
        assert(part.take(i) =~= part);
    }
}

fn count_active(graph: &WorkGraph, edges: &Vec<LoopEdge>) -> (r: usize)
    ensures
        r == active_in(graph@, edges@.map_values(|e: LoopEdge| e@)),
{
    let ghost es = edges@.map_values(|e: LoopEdge| e@);
    let mut n: usize = 0;
    let mut i: usize = 0;
    while i < edges.len()
        invariant
            i <= edges.len(),
            es == edges@.map_values(|e: LoopEdge| e@),
            n == active_in(graph@, es.take(i as int)),
            n <= i,
        decreases edges.len() - i,
    {
        assert(es.take(i + 1).drop_last() =~= es.take(i as int));
        assert(es.take(i + 1).last() == edges@[i as int]@);
        let e = &edges[i];
        let active = match graph.get_task(e.target.as_str()) {
            Some(t) => t.loop_iteration < e.max_iterations,
            None => false,
        };
        if active {
            n = n + 1;
        }
        i = i + 1;
    }
    assert(es.take(edges.len() as int) =~= es);
    n
}

/// The number of loop edges and of those still active.
fn count_loop_edges(graph: &WorkGraph) -> (r: (usize, usize))
    requires
        loop_edge_total(graph@) <= usize::MAX,
    ensures
        r.0 == loop_edge_total(graph@),
        r.1 == active_loop_edges(graph@, graph@),
{
    let mut total: usize = 0;
    let mut active: usize = 0;
    let mut i: usize = 0;
    while i < graph.nodes.len()
        invariant
            i <= graph.nodes.len(),
            graph@.len() == graph.nodes.len(),
            loop_edge_total(graph@) <= usize::MAX,
            total == loop_edge_total(graph@.take(i as int)),
            active == active_loop_edges(graph@, graph@.take(i as int)),
        decreases graph.nodes.len() - i,
    {
        assert(graph@.take(i + 1).drop_last() =~= graph@.take(i as int));
        assert(graph@.take(i + 1).last() == graph.nodes@[i as int]@);
        proof {
            lemma_total_prefix(graph@, i + 1);
            lemma_active_le_total(graph@, graph@.take(i + 1));
        }
        match &graph.nodes[i] {
            Node::Task(t) => {
                total = total + t.loops_to.len();
                active = active + count_active(graph, &t.loops_to);
            },
            Node::Resource(_) => {},
        }
        i = i + 1;
    }
    assert(graph@.take(graph.nodes.len() as int) =~= graph@);
    (total, active)
}

// ---------------------------------------------------------------------------
// Structural health
// ---------------------------------------------------------------------------

/// One line per dangling reference: `from -> to (relation)`.
pub open spec fn orphan_line(o: OrphanRefView) -> Seq<char> {
    o.from + " -> "@ + o.to + " ("@ + o.relation + ")"@
}

/// One line per loop edge issue.
pub open spec fn loop_issue_line(i: LoopEdgeIssueView) -> Seq<char> {
    i.from + " -> "@ + i.target + match i.kind {
        LoopEdgeIssueKindView::TargetNotFound => " (target not found)"@,
        LoopEdgeIssueKindView::ZeroMaxIterations => " (max_iterations=0)"@,
        LoopEdgeIssueKindView::GuardTaskNotFound(g) => " (guard task '"@ + g + "' not found)"@,
        LoopEdgeIssueKindView::SelfLoop => " (self-loop)"@,
    }
}

/// Number of cycles judged `k`.
pub open spec fn count_class(
    nodes: Seq<NodeView>,
    cycles: Seq<Seq<Seq<char>>>,
    k: CycleClassification,
) -> nat
    decreases cycles.len(),
{
    if cycles.len() == 0 {
        0
    } else {
        count_class(nodes, cycles.drop_last(), k) + if cycle_class(nodes, cycles.last()) == k {
            1nat
        } else {
            0nat
        }
    }
}

/// The finding on dangling references.
pub open spec fn orphan_issue(orphans: Seq<OrphanRefView>) -> IssueView {
    if orphans.len() == 0 {
        IssueView { severity: Severity::Okay, message: "No orphan references"@, details: None }
    } else {
        IssueView {
            severity: Severity::Critical,
            message: decimal(orphans.len()) + " orphan reference(s) found"@,
            details: Some(orphans.map_values(|o: OrphanRefView| orphan_line(o))),
        }
    }
}

/// The finding on cycles, if any: none when every cycle is only informational.
pub open spec fn cycle_issues(nodes: Seq<NodeView>, cycles: Seq<Seq<Seq<char>>>) -> Seq<IssueView> {
    let w = count_class(nodes, cycles, CycleClassification::Warning);
    let ic = count_class(nodes, cycles, CycleClassification::Intentional);
    if cycles.len() == 0 {
        seq![IssueView { severity: Severity::Okay, message: "No cycles detected"@, details: None }]
    } else if w > 0 {
        seq![
            IssueView {
                severity: Severity::Warning,
                message: decimal(cycles.len()) + " cycle(s) detected ("@ + decimal(w) + " warning, "@
                    + decimal(ic) + " intentional)"@,
                details: None,
            },
        ]
    } else if ic > 0 {
        seq![
            IssueView {
                severity: Severity::Okay,
                message: decimal(ic) + " cycle(s) detected (marked as intentional)"@,
                details: None,
            },
        ]
    } else {
        Seq::empty()
    }
}

/// The finding on dead-end tasks, if there are any.
pub open spec fn dead_end_issues(dead: Seq<Seq<char>>) -> Seq<IssueView> {
    if dead.len() == 0 {
        Seq::empty()
    } else {
        seq![
            IssueView {
                severity: Severity::Warning,
                message: decimal(dead.len()) + " dead-end task(s) with status=open (may be forgotten)"@,
                details: Some(dead),
            },
        ]
    }
}

/// The finding on loop edge issues, if there are any.
pub open spec fn loop_issue_issues(issues: Seq<LoopEdgeIssueView>) -> Seq<IssueView> {
    if issues.len() == 0 {
        Seq::empty()
    } else {
        seq![
            IssueView {
                severity: Severity::Critical,
                message: decimal(issues.len()) + " loop edge issue(s) found"@,
                details: Some(issues.map_values(|i: LoopEdgeIssueView| loop_issue_line(i))),
            },
        ]
    }
}

/// The loop edge count, reported when there are edges and none has an issue.
pub open spec fn loop_summary_issues(nodes: Seq<NodeView>, issue_count: nat) -> Seq<IssueView> {
    let total = loop_edge_total(nodes);
    let active = active_loop_edges(nodes, nodes);
    if total > 0 && issue_count == 0 {
        seq![
            IssueView {
                severity: Severity::Okay,
                message: decimal(total) + " loop edge(s) ("@ + decimal(active) + " active, "@ + decimal(
                    (total - active) as nat,
                ) + " exhausted)"@,
                details: None,
            },
        ]
    } else {
        Seq::empty()
    }
}

/// The structural findings for a graph, given what the checks reported:
/// references, cycles, dead ends, loop edge issues, then the loop edge count.
pub open spec fn health_of(
    nodes: Seq<NodeView>,
    cycles: Seq<Seq<Seq<char>>>,
    orphans: Seq<OrphanRefView>,
    loop_issues: Seq<LoopEdgeIssueView>,
) -> Seq<IssueView> {
    seq![orphan_issue(orphans)] + cycle_issues(nodes, cycles) + dead_end_issues(
        dead_ends(nodes, nodes),
    ) + loop_issue_issues(loop_issues) + loop_summary_issues(nodes, loop_issues.len())
}

fn orphan_text(o: &OrphanRef) -> (r: String)
    ensures
        r@ == orphan_line(o@),
{
    let mut s = o.from.clone();
    s.append(" -> ");
    s.append(o.to.as_str());
    s.append(" (");
    s.append(o.relation.as_str());
    s.append(")");
    proof {
        reveal_strlit(" -> ");
        reveal_strlit(" (");
        reveal_strlit(")");
    }
    assert(s@ =~= orphan_line(o@));
    s
}

fn loop_issue_text(i: &LoopEdgeIssue) -> (r: String)
    ensures
        r@ == loop_issue_line(i@),
{
    let mut s = i.from.clone();
    s.append(" -> ");
    s.append(i.target.as_str());
    match &i.kind {
        LoopEdgeIssueKind::TargetNotFound => s.append(" (target not found)"),
        LoopEdgeIssueKind::ZeroMaxIterations => s.append(" (max_iterations=0)"),
        LoopEdgeIssueKind::GuardTaskNotFound(g) => {
            s.append(" (guard task '");
            s.append(g.as_str());
            s.append("' not found)");
        },
        LoopEdgeIssueKind::SelfLoop => s.append(" (self-loop)"),
    }
    assert(s@ =~= loop_issue_line(i@));
    s
}

fn orphan_lines(orphans: &Vec<OrphanRef>) -> (r: Vec<String>)
    ensures
        strs(r) == views(orphans@).map_values(|o: OrphanRefView| orphan_line(o)),
{
    let ghost target = views(orphans@).map_values(|o: OrphanRefView| orphan_line(o));
    let mut out: Vec<String> = Vec::new();
    let mut i: usize = 0;
    while i < orphans.len()
        invariant
            i <= orphans.len(),
            target == views(orphans@).map_values(|o: OrphanRefView| orphan_line(o)),
            target.len() == orphans.len(),
            strs(out) == target.take(i as int),
        decreases orphans.len() - i,
    {
        let line = orphan_text(&orphans[i]);
        let ghost before = strs(out);
        out.push(line);
        assert(strs(out) =~= before.push(target[i as int]));
        assert(target.take(i + 1) =~= target.take(i as int).push(target[i as int]));
        i = i + 1;
    }
    assert(target.take(orphans.len() as int) =~= target);
    out
}

fn loop_issue_lines(issues: &Vec<LoopEdgeIssue>) -> (r: Vec<String>)
    ensures
        strs(r) == views(issues@).map_values(|i: LoopEdgeIssueView| loop_issue_line(i)),
{
    let ghost target = views(issues@).map_values(|i: LoopEdgeIssueView| loop_issue_line(i));
    let mut out: Vec<String> = Vec::new();
    let mut i: usize = 0;
    while i < issues.len()
        invariant
            i <= issues.len(),
            target == views(issues@).map_values(|i: LoopEdgeIssueView| loop_issue_line(i)),
            target.len() == issues.len(),
            strs(out) == target.take(i as int),
        decreases issues.len() - i,
    {
        let line = loop_issue_text(&issues[i]);
        let ghost before = strs(out);
        out.push(line);
        assert(strs(out) =~= before.push(target[i as int]));
        assert(target.take(i + 1) =~= target.take(i as int).push(target[i as int]));
        i = i + 1;
    }
    assert(target.take(issues.len() as int) =~= target);
    out
}

fn count_classes(graph: &WorkGraph, cycles: &Vec<Vec<String>>) -> (r: (usize, usize))
    ensures
        r.0 == count_class(graph@, cycle_views(cycles@), CycleClassification::Warning),
        r.1 == count_class(graph@, cycle_views(cycles@), CycleClassification::Intentional),
{
    let ghost cs = cycle_views(cycles@);
    let mut w: usize = 0;
    let mut ic: usize = 0;
    let mut i: usize = 0;
    while i < cycles.len()
        invariant
            i <= cycles.len(),
            cs == cycle_views(cycles@),
            cs.len() == cycles.len(),
            w == count_class(graph@, cs.take(i as int), CycleClassification::Warning),
            ic == count_class(graph@, cs.take(i as int), CycleClassification::Intentional),
            w <= i,
            ic <= i,
        decreases cycles.len() - i,
    {
        assert(cs.take(i + 1).drop_last() =~= cs.take(i as int));
        assert(cs.take(i + 1).last() == strs(cycles@[i as int]));
        let c = classify_cycle(&cycles[i], graph);
        match c.classification {
            CycleClassification::Warning => { w = w + 1; },
            CycleClassification::Intentional => { ic = ic + 1; },
            CycleClassification::Info => {},
        }
        i = i + 1;
    }
    assert(cs.take(cycles.len() as int) =~= cs);
    (w, ic)
}

fn issue(severity: Severity, message: String, details: Option<Vec<String>>) -> (r: StructuralIssue)
    ensures
        r.severity == severity,
        r.message == message,
        r.details == details,
{
    StructuralIssue { severity, message, details }
}

/// The structural findings for a graph, from the result of `check_all` on it.
pub fn structural_issues(graph: &WorkGraph, check: &CheckResult) -> (r: StructuralHealth)
    requires
        loop_edge_total(graph@) <= usize::MAX,
    ensures
        r@ == health_of(
            graph@,
            cycle_views(check.cycles@),
            views(check.orphan_refs@),
            views(check.loop_edge_issues@),
        ),
{
    let ghost orphans = views(check.orphan_refs@);
    let ghost loop_issues = views(check.loop_edge_issues@);
    let ghost cycles = cycle_views(check.cycles@);
    let mut issues: Vec<StructuralIssue> = Vec::new();

    // Dangling references
    if check.orphan_refs.len() == 0 {
        issues.push(issue(Severity::Okay, "No orphan references".to_string(), None));
    } else {
        let mut m = String::new();
        push_u64(&mut m, check.orphan_refs.len() as u64);
        m.append(" orphan reference(s) found");
        issues.push(issue(Severity::Critical, m, Some(orphan_lines(&check.orphan_refs))));
    }
    assert(views(issues@) =~= seq![orphan_issue(orphans)]);
    let ghost after_orphans = views(issues@);

    // Cycles
    if check.cycles.len() == 0 {
        issues.push(issue(Severity::Okay, "No cycles detected".to_string(), None));
    } else {
        let (w, ic) = count_classes(graph, &check.cycles);
        if w > 0 {
            let mut m = String::new();
            push_u64(&mut m, check.cycles.len() as u64);
            m.append(" cycle(s) detected (");
            push_u64(&mut m, w as u64);
            m.append(" warning, ");
            push_u64(&mut m, ic as u64);
            m.append(" intentional)");
            issues.push(issue(Severity::Warning, m, None));
        } else if ic > 0 {
            let mut m = String::new();
            push_u64(&mut m, ic as u64);
            m.append(" cycle(s) detected (marked as intentional)");
            issues.push(issue(Severity::Okay, m, None));
        }
    }
    assert(views(issues@) =~= after_orphans + cycle_issues(graph@, cycles));
    let ghost after_cycles = views(issues@);

    // Dead ends
    let dead = find_dead_end_open_tasks(graph);
    if dead.len() > 0 {
        let mut m = String::new();
        push_u64(&mut m, dead.len() as u64);
        m.append(" dead-end task(s) with status=open (may be forgotten)");
        issues.push(issue(Severity::Warning, m, Some(dead)));
    }
    assert(views(issues@) =~= after_cycles + dead_end_issues(dead_ends(graph@, graph@)));
    let ghost after_dead = views(issues@);

    // Loop edge issues
    if check.loop_edge_issues.len() > 0 {
        let mut m = String::new();
        push_u64(&mut m, check.loop_edge_issues.len() as u64);
        m.append(" loop edge issue(s) found");
        issues.push(issue(Severity::Critical, m, Some(loop_issue_lines(&check.loop_edge_issues))));
    }
    assert(views(issues@) =~= after_dead + loop_issue_issues(loop_issues));
    let ghost after_loops = views(issues@);

    // Loop edge count
    let (total, active) = count_loop_edges(graph);
    proof {
        lemma_active_le_total(graph@, graph@);
    }
    if total > 0 && check.loop_edge_issues.len() == 0 {
        let mut m = String::new();
        push_u64(&mut m, total as u64);
        m.append(" loop edge(s) (");
        push_u64(&mut m, active as u64);
        m.append(" active, ");
        push_u64(&mut m, (total - active) as u64);
        m.append(" exhausted)");
        issues.push(issue(Severity::Okay, m, None));
    }
    assert(views(issues@) =~= after_loops + loop_summary_issues(graph@, loop_issues.len()));
    StructuralHealth { issues }
}

/// Structural health of a graph: runs every check and reports on dangling
/// references, cycles, dead-end open tasks and loop edges.
pub fn compute_structural_health(graph: &WorkGraph) -> (r: StructuralHealth)
    requires
        loop_edge_total(graph@) <= usize::MAX,
    ensures
        r@ == health_of(graph@, dfs_cycles(graph@), orphans_in(graph@, graph@), loop_issues_in(graph@, graph@)),
        forall|i: int| 0 <= i < dfs_cycles(graph@).len() ==> is_cycle(graph@, #[trigger] dfs_cycles(graph@)[i]),
        (dfs_cycles(graph@).len() == 0 <==> acyclic(graph@)),
{
    let check = check_all(graph);
    let r = structural_issues(graph, &check);
    assert(forall|i: int| 0 <= i < cycle_views(check.cycles@).len() ==> is_cycle(graph@, #[trigger] cycle_views(check.cycles@)[i]));
    r
}

// ---------------------------------------------------------------------------
// Bottlenecks
// ---------------------------------------------------------------------------

/// A task that many others wait on.
#[derive(Debug, Clone)]
pub struct BottleneckInfo {
    pub id: String,
    pub transitive_blocks: usize,
    pub status: Status,
    pub assigned: Option<String>,
    pub severity: Severity,
    pub days_in_progress: Option<i64>,
}

pub ghost struct BottleneckView {
    pub id: Seq<char>,
    pub transitive_blocks: nat,
    pub status: Status,
    pub assigned: Option<Seq<char>>,
    pub severity: Severity,
    pub days_in_progress: Option<int>,
}

impl View for BottleneckInfo {
    type V = BottleneckView;

    open spec fn view(&self) -> BottleneckView {
        BottleneckView {
            id: self.id@,
            transitive_blocks: self.transitive_blocks as nat,
            status: self.status,
            assigned: crate::graph::opt_str(self.assigned),
            severity: self.severity,
            days_in_progress: match self.days_in_progress {
                Some(d) => Some(d as int),
                None => None,
            },
        }
    }
}

/// `part` of `whole` in percent, rounded to the nearest integer, halves up.
pub open spec fn impact_percent(part: nat, whole: nat) -> nat {
    if whole == 0 {
        0
    } else {
        (200 * part + whole) / (2 * whole)
    }
}

/// How serious a bottleneck is, from its status and the share of the graph it holds up.
pub open spec fn bottleneck_severity(status: Status, pct: nat) -> Severity {
    if status == Status::Done {
        Severity::Okay
    } else if status == Status::Open && pct >= 20 {
        Severity::Critical
    } else if status == Status::Blocked && pct >= 10 {
        Severity::Critical
    } else if status == Status::InProgress && pct >= 20 {
        Severity::Warning
    } else if pct >= 10 {
        Severity::Warning
    } else {
        Severity::Okay
    }
}

/// Whole days an in-progress task has been running, when its start time parses.
pub open spec fn days_running(now: Instant, t: TaskView) -> Option<int> {
    if t.status == Status::InProgress {
        match t.started_at {
            Some(s) => match rfc3339_instant(s) {
                Some(p) => Some(whole_days(elapsed_nanos(now, Instant { secs: p.0, nanos: p.1 }))),
                None => None,
            },
            None => None,
        }
    } else {
        None
    }
}

/// Number of tasks among `part`.
pub open spec fn task_total(part: Seq<NodeView>) -> nat
    decreases part.len(),
{
    if part.len() == 0 {
        0
    } else {
        task_total(part.drop_last()) + if part.last() is Task {
            1nat
        } else {
            0nat
        }
    }
}

/// The tasks that wait on `id` in the graph, directly or through others.
pub open spec fn waiting_set(nodes: Seq<NodeView>, id: Seq<char>) -> Set<Seq<char>> {
    Set::new(|x: Seq<char>| graph_reaches(nodes, id, x))
}

/// The ids of the tasks among `part`, in order.
pub open spec fn task_ids(part: Seq<NodeView>) -> Seq<Seq<char>>
    decreases part.len(),
{
    if part.len() == 0 {
        Seq::empty()
    } else {
        task_ids(part.drop_last()) + match part.last() {
            NodeView::Task(t) => seq![t.id],
            NodeView::Resource(_) => Seq::empty(),
        }
    }
}

proof fn lemma_task_ids(part: Seq<NodeView>, j: int)
    requires
        0 <= j < part.len(),
        part[j] is Task,
    ensures
        task_ids(part).contains(crate::graph::node_id(part[j])),
        task_ids(part).len() == task_total(part),
    decreases part.len(),
{
    lemma_task_ids_len(part);
    let rest = part.drop_last();
    if j == part.len() - 1 {
        assert(task_ids(part).last() == crate::graph::node_id(part[j]));
    } else {
        assert(rest[j] == part[j]);
        lemma_task_ids(rest, j);
        let k = choose|k: int| 0 <= k < task_ids(rest).len() && task_ids(rest)[k] == crate::graph::node_id(part[j]);
        assert(task_ids(part)[k] == task_ids(rest)[k]);
    }
}

proof fn lemma_task_ids_len(part: Seq<NodeView>)
    ensures
        task_ids(part).len() == task_total(part),
    decreases part.len(),
{
    if part.len() > 0 {
        lemma_task_ids_len(part.drop_last());
    }
}

/// A task holds up at most as many tasks as the graph has.
pub proof fn lemma_waiting_bounded(nodes: Seq<NodeView>, id: Seq<char>)
    ensures
        waiting_set(nodes, id).finite(),
        waiting_set(nodes, id).len() <= task_total(nodes),
{
    let ids = task_ids(nodes);
    lemma_task_ids_len(nodes);
    assert forall|x: Seq<char>| waiting_set(nodes, id).contains(x) implies ids.to_set().contains(x) by {
        let p = choose|p: Seq<Seq<char>>|
            {
                &&& p.len() > 0
                &&& crate::deps::graph_waits(nodes, id, p[0])
                &&& forall|k: int| #![trigger p[k]] 0 <= k < p.len() - 1 ==> crate::deps::graph_waits(nodes, p[k], p[k + 1])
                &&& p.last() == x
            };
        let prev = if p.len() == 1 { id } else { p[p.len() - 2] };
        assert(crate::deps::graph_waits(nodes, prev, x));
        let j = choose|j: int| 0 <= j < nodes.len() && #[trigger] crate::deps::lists_blocker(nodes[j], prev, x);
        lemma_task_ids(nodes, j);
    }
    ids.lemma_cardinality_of_set();
    vstd::set_lib::lemma_len_subset(waiting_set(nodes, id), ids.to_set());
}

/// The tasks among `part` that hold up at least three others, in graph order.
pub open spec fn bottleneck_candidates(nodes: Seq<NodeView>, now: Instant, part: Seq<NodeView>) -> Seq<BottleneckView>
    decreases part.len(),
{
    if part.len() == 0 {
        Seq::empty()
    } else {
        bottleneck_candidates(nodes, now, part.drop_last()) + match part.last() {
            NodeView::Task(t) => {
                let k = waiting_set(nodes, t.id).len();
                if k >= 3 {
                    seq![
                        BottleneckView {
                            id: t.id,
                            transitive_blocks: k,
                            status: t.status,
                            assigned: t.assigned,
                            severity: bottleneck_severity(t.status, impact_percent(k, task_total(nodes))),
                            days_in_progress: days_running(now, t),
                        },
                    ]
                } else {
                    Seq::empty()
                }
            },
            NodeView::Resource(_) => Seq::empty(),
        }
    }
}

/// Sort key: critical first, then warnings; within a severity, most held up first.
pub open spec fn bottleneck_key(b: BottleneckView) -> (u64, u64) {
    (
        match b.severity {
            Severity::Critical => 2u64,
            Severity::Warning => 1u64,
            Severity::Okay => 0u64,
        },
        b.transitive_blocks as u64,
    )
}

pub open spec fn bottleneck_keys(v: Seq<BottleneckView>) -> Seq<(u64, u64)> {
    v.map_values(|b: BottleneckView| bottleneck_key(b))
}

/// At most `n` leading items.
pub open spec fn first_n<T>(s: Seq<T>, n: nat) -> Seq<T> {
    if n < s.len() {
        s.take(n as int)
    } else {
        s
    }
}

pub(crate) fn percent(part: usize, whole: usize) -> (r: u128)
    requires
        whole > 0,
    ensures
        r == impact_percent(part as nat, whole as nat),
{
    (200 * (part as u128) + whole as u128) / (2 * (whole as u128))
}

fn severity_for(status: Status, pct: u128) -> (r: Severity)
    ensures
        r == bottleneck_severity(status, pct as nat),
{
    match status {
        Status::Done => Severity::Okay,
        Status::Open if pct >= 20 => Severity::Critical,
        Status::Blocked if pct >= 10 => Severity::Critical,
        Status::InProgress if pct >= 20 => Severity::Warning,
        _ if pct >= 10 => Severity::Warning,
        _ => Severity::Okay,
    }
}

fn days_in_progress(task: &Task, now: &Instant) -> (r: Option<i64>)
    ensures
        match r {
            Some(d) => days_running(*now, task@) == Some(d as int),
            None => days_running(*now, task@) is None,
        },
{
    if task.status == Status::InProgress {
        match &task.started_at {
            Some(s) => match parse_rfc3339(s.as_str()) {
                Some(started) => Some(days_of(elapsed(*now, started))),
                None => None,
            },
            None => None,
        }
    } else {
        None
    }
}

fn copy_bottleneck(b: &BottleneckInfo) -> (r: BottleneckInfo)
    ensures
        r@ == b@,
{
    BottleneckInfo {
        id: b.id.clone(),
        transitive_blocks: b.transitive_blocks,
        status: b.status,
        assigned: crate::ops::clone_opt(&b.assigned),
        severity: b.severity,
        days_in_progress: b.days_in_progress,
    }
}

pub(crate) fn count_tasks(graph: &WorkGraph) -> (r: usize)
    ensures
        r == task_total(graph@),
{
    let mut n: usize = 0;
    let mut i: usize = 0;
    while i < graph.nodes.len()
        invariant
            i <= graph.nodes.len(),
            graph@.len() == graph.nodes.len(),
            n == task_total(graph@.take(i as int)),
            n <= i,
        decreases graph.nodes.len() - i,
    {
        assert(graph@.take(i + 1).drop_last() =~= graph@.take(i as int));
        assert(graph@.take(i + 1).last() == graph.nodes@[i as int]@);
        if let Node::Task(_) = &graph.nodes[i] {
            n = n + 1;
        }
        i = i + 1;
    }
    assert(graph@.take(graph.nodes.len() as int) =~= graph@);
    n
}

pub(crate) fn waiting_count(graph: &WorkGraph, index: &ReverseIndex, id: &str) -> (r: usize)
    requires
        indexes(index@, graph@),
    ensures
        r == waiting_set(graph@, id@).len(),
{
    let deps = transitive_dependents(index, id);
    proof {
        assert forall|x: Seq<char>| reach_set(index@, id@).contains(x) <==> waiting_set(graph@, id@).contains(x) by {
            law_transitive_matches_graph(index@, graph@, id@, x);
        }
        assert(reach_set(index@, id@) =~= waiting_set(graph@, id@));
    }
    deps.len()
}

/// The tasks that hold up at least three others, critical ones first and then
/// by how many tasks they hold up; ties keep graph order; at most five.
pub fn compute_bottlenecks(graph: &WorkGraph, now: &Instant) -> (r: Vec<BottleneckInfo>)
    ensures
        exists|order: Seq<usize>|
            #![trigger is_stable_desc_pairs(bottleneck_keys(bottleneck_candidates(graph@, *now, graph@)), order)]
            is_stable_desc_pairs(bottleneck_keys(bottleneck_candidates(graph@, *now, graph@)), order)
                && views(r@) == first_n(pick(order, bottleneck_candidates(graph@, *now, graph@)), 5),
{
    let index = build_reverse_index(graph);
    let total = count_tasks(graph);
    let ghost all = bottleneck_candidates(graph@, *now, graph@);
    let mut found: Vec<BottleneckInfo> = Vec::new();
    let mut i: usize = 0;
    assert(views(found@) =~= Seq::<BottleneckView>::empty());
    while i < graph.nodes.len()
        invariant
            i <= graph.nodes.len(),
            graph@.len() == graph.nodes.len(),
            indexes(index@, graph@),
            total == task_total(graph@),
            views(found@) == bottleneck_candidates(graph@, *now, graph@.take(i as int)),
        decreases graph.nodes.len() - i,
    {
        assert(graph@.take(i + 1).drop_last() =~= graph@.take(i as int));
        assert(graph@.take(i + 1).last() == graph.nodes@[i as int]@);
        let ghost before = views(found@);
        if let Node::Task(task) = &graph.nodes[i] {
            let k = waiting_count(graph, &index, task.id.as_str());
            if k >= 3 {
                let pct: u128 = if total > 0 {
                    percent(k, total)
                } else {
                    0
                };
                let info = BottleneckInfo {
                    id: task.id.clone(),
                    transitive_blocks: k,
                    status: task.status,
                    assigned: crate::ops::clone_opt(&task.assigned),
                    severity: severity_for(task.status, pct),
                    days_in_progress: days_in_progress(task, now),
                };
                found.push(info);
                assert(views(found@) =~= before.push(info@));
            }
        }
        proof {
            assert(views(found@) =~= bottleneck_candidates(graph@, *now, graph@.take(i + 1)));
        }
        i = i + 1;
    }
    assert(graph@.take(graph.nodes.len() as int) =~= graph@);
    let mut keys: Vec<(u64, u64)> = Vec::new();
    let mut j: usize = 0;
    while j < found.len()
        invariant
            j <= found.len(),
            views(found@) == all,
            keys@ == bottleneck_keys(all.take(j as int)),
        decreases found.len() - j,
    {
        assert(all[j as int] == found@[j as int]@);
        let rank: u64 = match found[j].severity {
            Severity::Critical => 2,
            Severity::Warning => 1,
            Severity::Okay => 0,
        };
        keys.push((rank, found[j].transitive_blocks as u64));
        assert(keys@ =~= bottleneck_keys(all.take(j + 1)));
        j = j + 1;
    }
    assert(all.take(all.len() as int) =~= all);
    let order = sort_desc_by_pair(&keys);
    let n: usize = if order.len() < 5 {
        order.len()
    } else {
        5
    };
    let mut out: Vec<BottleneckInfo> = Vec::new();
    let mut q: usize = 0;
    while q < n
        invariant
            q <= n,
            n <= order@.len(),
            n == (if order@.len() < 5 { order@.len() } else { 5 }),
            order@.len() == found@.len(),
            forall|z: int| 0 <= z < order@.len() ==> #[trigger] order@[z] < found@.len(),
            views(found@) == all,
            views(out@) == pick(order@.take(q as int), all),
        decreases n - q,
    {
        assert(order@[q as int] < found@.len());
        let ghost before = out@;
        out.push(copy_bottleneck(&found[order[q]]));
        proof {
            let bm = views(before);
            assert(views(out@) =~= bm.push(all[order@[q as int] as int]));
            assert(order@.take(q + 1) =~= order@.take(q as int).push(order@[q as int]));
            assert(pick(order@.take(q + 1), all) =~= pick(order@.take(q as int), all).push(all[order@[q as int] as int]));
        }
        q = q + 1;
    }
    assert(first_n(pick(order@, all), 5) =~= pick(order@.take(n as int), all));
    out
}

// ---------------------------------------------------------------------------
// Aging
// ---------------------------------------------------------------------------

/// A task that has waited too long: open for over 90 days, or in progress for
/// over 14.
#[derive(Debug, Clone)]
pub struct AgingIssue {
    pub task_id: String,
    pub days: i64,
    /// `old_open` or `stale_in_progress`.
    pub issue_type: String,
    pub assigned: Option<String>,
}

pub ghost struct AgingIssueView {
    pub task_id: Seq<char>,
    pub days: int,
    pub issue_type: Seq<char>,
    pub assigned: Option<Seq<char>>,
}

impl View for AgingIssue {
    type V = AgingIssueView;

    open spec fn view(&self) -> AgingIssueView {
        AgingIssueView {
            task_id: self.task_id@,
            days: self.days as int,
            issue_type: self.issue_type@,
            assigned: crate::graph::opt_str(self.assigned),
        }
    }
}

/// The aging section of a health report.
#[derive(Debug, Clone)]
pub struct AgingSection {
    pub old_open_count: usize,
    pub stale_in_progress_count: usize,
    pub issues: Vec<AgingIssue>,
}

/// Nanoseconds from the instant a timestamp denotes to `now`, when it parses.
pub open spec fn age_since(now: Instant, stamp: Option<Seq<char>>) -> Option<int> {
    match stamp {
        Some(s) => match rfc3339_instant(s) {
            Some(p) => Some(elapsed_nanos(now, Instant { secs: p.0, nanos: p.1 })),
            None => None,
        },
        None => None,
    }
}

/// The aging finding for one task, if any.
pub open spec fn aging_issue_of(now: Instant, t: TaskView) -> Option<AgingIssueView> {
    if t.status == Status::Open {
        match age_since(now, t.created_at) {
            Some(a) => if a > 90 * 86_400_000_000_000 {
                Some(AgingIssueView { task_id: t.id, days: whole_days(a), issue_type: "old_open"@, assigned: t.assigned })
            } else {
                None
            },
            None => None,
        }
    } else if t.status == Status::InProgress {
        match age_since(now, t.started_at) {
            Some(a) => if a > 14 * 86_400_000_000_000 {
                Some(
                    AgingIssueView {
                        task_id: t.id,
                        days: whole_days(a),
                        issue_type: "stale_in_progress"@,
                        assigned: t.assigned,
                    },
                )
            } else {
                None
            },
            None => None,
        }
    } else {
        None
    }
}

/// The aging findings for the tasks among `part`, in graph order.
pub open spec fn aging_candidates(now: Instant, part: Seq<NodeView>) -> Seq<AgingIssueView>
    decreases part.len(),
{
    if part.len() == 0 {
        Seq::empty()
    } else {
        aging_candidates(now, part.drop_last()) + match part.last() {
            NodeView::Task(t) => match aging_issue_of(now, t) {
                Some(i) => seq![i],
                None => Seq::empty(),
            },
            NodeView::Resource(_) => Seq::empty(),
        }
    }
}

/// Number of findings of the given type.
pub open spec fn count_type(v: Seq<AgingIssueView>, ty: Seq<char>) -> nat
    decreases v.len(),
{
    if v.len() == 0 {
        0
    } else {
        count_type(v.drop_last(), ty) + if v.last().issue_type == ty {
            1nat
        } else {
            0nat
        }
    }
}

pub open spec fn day_keys(v: Seq<AgingIssueView>) -> Seq<i64> {
    v.map_values(|i: AgingIssueView| i.days as i64)
}

fn aging_issue_for(task: &Task, now: &Instant) -> (r: Option<AgingIssue>)
    ensures
        match r {
            Some(i) => aging_issue_of(*now, task@) == Some(i@),
            None => aging_issue_of(*now, task@) is None,
        },
{
    proof {
        reveal_strlit("old_open");
        reveal_strlit("stale_in_progress");
    }
    if task.status == Status::Open {
        if let Some(s) = &task.created_at {
            if let Some(created) = parse_rfc3339(s.as_str()) {
                let age = elapsed(*now, created);
                if age > 90 * crate::time::NANOS_PER_DAY {
                    return Some(AgingIssue {
                        task_id: task.id.clone(),
                        days: days_of(age),
                        issue_type: "old_open".to_string(),
                        assigned: crate::ops::clone_opt(&task.assigned),
                    });
                }
            }
        }
        None
    } else if task.status == Status::InProgress {
        if let Some(s) = &task.started_at {
            if let Some(started) = parse_rfc3339(s.as_str()) {
                let age = elapsed(*now, started);
                if age > 14 * crate::time::NANOS_PER_DAY {
                    return Some(AgingIssue {
                        task_id: task.id.clone(),
                        days: days_of(age),
                        issue_type: "stale_in_progress".to_string(),
                        assigned: crate::ops::clone_opt(&task.assigned),
                    });
                }
            }
        }
        None
    } else {
        None
    }
}

fn copy_aging_issue(i: &AgingIssue) -> (r: AgingIssue)
    ensures
        r@ == i@,
{
    AgingIssue {
        task_id: i.task_id.clone(),
        days: i.days,
        issue_type: i.issue_type.clone(),
        assigned: crate::ops::clone_opt(&i.assigned),
    }
}

/// Open tasks older than 90 days and in-progress tasks started more than 14
/// days ago: how many of each, and the five that waited longest (ties keep
/// graph order).
pub fn compute_aging(graph: &WorkGraph, now: &Instant) -> (r: AgingSection)
    ensures
        r.old_open_count == count_type(aging_candidates(*now, graph@), "old_open"@),
        r.stale_in_progress_count == count_type(aging_candidates(*now, graph@), "stale_in_progress"@),
        exists|order: Seq<usize>|
            #![trigger is_stable_desc(day_keys(aging_candidates(*now, graph@)), order)]
            is_stable_desc(day_keys(aging_candidates(*now, graph@)), order)
                && views(r.issues@) == first_n(pick(order, aging_candidates(*now, graph@)), 5),
{
    proof {
        reveal_strlit("old_open");
        reveal_strlit("stale_in_progress");
    }
    let ghost all = aging_candidates(*now, graph@);
    let mut found: Vec<AgingIssue> = Vec::new();
    let mut old_open: usize = 0;
    let mut stale: usize = 0;
    let mut i: usize = 0;
    assert(views(found@) =~= Seq::<AgingIssueView>::empty());
    while i < graph.nodes.len()
        invariant
            i <= graph.nodes.len(),
            graph@.len() == graph.nodes.len(),
            views(found@) == aging_candidates(*now, graph@.take(i as int)),
            old_open == count_type(views(found@), "old_open"@),
            stale == count_type(views(found@), "stale_in_progress"@),
            old_open <= found@.len(),
            stale <= found@.len(),
            found@.len() <= i,
        decreases graph.nodes.len() - i,
    {
        assert(graph@.take(i + 1).drop_last() =~= graph@.take(i as int));
        assert(graph@.take(i + 1).last() == graph.nodes@[i as int]@);
        let ghost before = views(found@);
        if let Node::Task(task) = &graph.nodes[i] {
            if let Some(issue) = aging_issue_for(task, now) {
                let is_old = task.status == Status::Open;
                let ghost iv = issue@;
                found.push(issue);
                assert(views(found@) =~= before.push(iv));
                assert(views(found@).drop_last() =~= before);
                assert(views(found@).last() == iv);
                assert(iv.issue_type == if is_old { "old_open"@ } else { "stale_in_progress"@ });
                proof {
                    reveal_strlit("old_open");
                    reveal_strlit("stale_in_progress");
                }
                assert("old_open"@.len() != "stale_in_progress"@.len());
                assert(count_type(views(found@), "old_open"@) == count_type(before, "old_open"@) + if iv.issue_type == "old_open"@ { 1nat } else { 0nat });
                assert(count_type(views(found@), "stale_in_progress"@) == count_type(before, "stale_in_progress"@) + if iv.issue_type == "stale_in_progress"@ { 1nat } else { 0nat });
                if is_old {
                    old_open = old_open + 1;
                } else {
                    stale = stale + 1;
                }
            }
        }
        proof {
            assert(views(found@) =~= aging_candidates(*now, graph@.take(i + 1)));
        }
        i = i + 1;
    }
    assert(graph@.take(graph.nodes.len() as int) =~= graph@);
    let mut keys: Vec<i64> = Vec::new();
    let mut j: usize = 0;
    while j < found.len()
        invariant
            j <= found.len(),
            views(found@) == all,
            keys@ == day_keys(all.take(j as int)),
        decreases found.len() - j,
    {
        assert(all[j as int] == found@[j as int]@);
        keys.push(found[j].days);
        assert(keys@ =~= day_keys(all.take(j + 1)));
        j = j + 1;
    }
    assert(all.take(all.len() as int) =~= all);
    let order = sort_desc_by_key(&keys);
    let n: usize = if order.len() < 5 {
        order.len()
    } else {
        5
    };
    let mut out: Vec<AgingIssue> = Vec::new();
    let mut q: usize = 0;
    while q < n
        invariant
            q <= n,
            n <= order@.len(),
            n == (if order@.len() < 5 { order@.len() } else { 5 }),
            order@.len() == found@.len(),
            forall|z: int| 0 <= z < order@.len() ==> #[trigger] order@[z] < found@.len(),
            views(found@) == all,
            views(out@) == pick(order@.take(q as int), all),
        decreases n - q,
    {
        assert(order@[q as int] < found@.len());
        let ghost before = out@;
        out.push(copy_aging_issue(&found[order[q]]));
        proof {
            let bm = views(before);
            assert(views(out@) =~= bm.push(all[order@[q as int] as int]));
            assert(order@.take(q + 1) =~= order@.take(q as int).push(order@[q as int]));
            assert(pick(order@.take(q + 1), all) =~= pick(order@.take(q as int), all).push(all[order@[q as int] as int]));
        }
        q = q + 1;
    }
    assert(first_n(pick(order@, all), 5) =~= pick(order@.take(n as int), all));
    AgingSection { old_open_count: old_open, stale_in_progress_count: stale, issues: out }
}

// ---------------------------------------------------------------------------
// Recommendations
// ---------------------------------------------------------------------------

/// Something to do next, numbered by priority from 1.
#[derive(Debug, Clone)]
pub struct Recommendation {
    pub priority: usize,
    pub action: String,
    pub task: Option<String>,
    pub reason: String,
}

pub ghost struct RecommendationView {
    pub priority: nat,
    pub action: Seq<char>,
    pub task: Option<Seq<char>>,
    pub reason: Seq<char>,
}

impl View for Recommendation {
    type V = RecommendationView;

    open spec fn view(&self) -> RecommendationView {
        RecommendationView {
            priority: self.priority as nat,
            action: self.action@,
            task: crate::graph::opt_str(self.task),
            reason: self.reason@,
        }
    }
}

/// A recommendation before it is numbered.
pub ghost struct Advice {
    pub action: Seq<char>,
    pub task: Option<Seq<char>>,
    pub reason: Seq<char>,
}

/// Start each critical bottleneck that is open and unassigned.
pub open spec fn assign_advice(bs: Seq<BottleneckView>) -> Seq<Advice>
    decreases bs.len(),
{
    if bs.len() == 0 {
        Seq::empty()
    } else {
        let b = bs.last();
        assign_advice(bs.drop_last()) + if b.severity == Severity::Critical && b.status == Status::Open
            && b.assigned is None {
            seq![
                Advice {
                    action: "assign_and_start"@,
                    task: Some(b.id),
                    reason: "critical bottleneck - blocks "@ + decimal(b.transitive_blocks) + " tasks"@,
                },
            ]
        } else {
            Seq::empty()
        }
    }
}

/// Check on each bottleneck in progress for more than 14 days.
pub open spec fn check_on_advice(bs: Seq<BottleneckView>) -> Seq<Advice>
    decreases bs.len(),
{
    if bs.len() == 0 {
        Seq::empty()
    } else {
        let b = bs.last();
        check_on_advice(bs.drop_last()) + match b.days_in_progress {
            Some(d) => if d > 14 {
                seq![
                    Advice {
                        action: "check_on"@,
                        task: Some(b.id),
                        reason: "in-progress for "@ + signed_decimal(d) + " days (stalled)"@,
                    },
                ]
            } else {
                Seq::empty()
            },
            None => Seq::empty(),
        }
    }
}

/// Review each task open for more than 90 days.
pub open spec fn review_advice(issues: Seq<AgingIssueView>) -> Seq<Advice>
    decreases issues.len(),
{
    if issues.len() == 0 {
        Seq::empty()
    } else {
        let i = issues.last();
        review_advice(issues.drop_last()) + if i.issue_type == "old_open"@ && i.days > 90 {
            seq![
                Advice {
                    action: "review"@,
                    task: Some(i.task_id),
                    reason: "open "@ + signed_decimal(i.days) + " days"@,
                },
            ]
        } else {
            Seq::empty()
        }
    }
}

/// Fix each critical structural finding.
pub open spec fn fix_advice(issues: Seq<IssueView>) -> Seq<Advice>
    decreases issues.len(),
{
    if issues.len() == 0 {
        Seq::empty()
    } else {
        let i = issues.last();
        fix_advice(issues.drop_last()) + if i.severity == Severity::Critical {
            seq![Advice { action: "fix_structural"@, task: None, reason: i.message }]
        } else {
            Seq::empty()
        }
    }
}

/// Every piece of advice, in priority order.
pub open spec fn all_advice(
    structural: Seq<IssueView>,
    bs: Seq<BottleneckView>,
    aging: Seq<AgingIssueView>,
) -> Seq<Advice> {
    assign_advice(bs) + check_on_advice(bs) + review_advice(aging) + fix_advice(structural)
}

/// Advice numbered from 1.
pub open spec fn numbered(items: Seq<Advice>) -> Seq<RecommendationView> {
    Seq::new(
        items.len(),
        |i: int|
            RecommendationView {
                priority: (i + 1) as nat,
                action: items[i].action,
                task: items[i].task,
                reason: items[i].reason,
            },
    )
}

fn advise(recs: &mut Vec<Recommendation>, action: &str, task: Option<String>, reason: String, Ghost(items): Ghost<Seq<Advice>>)
    requires
        views(old(recs)@) == numbered(items),
        old(recs)@.len() < usize::MAX,
    ensures
        views(final(recs)@) == numbered(
            items.push(Advice { action: action@, task: crate::graph::opt_str(task), reason: reason@ }),
        ),
        final(recs)@.len() == old(recs)@.len() + 1,
{
    let priority = recs.len() + 1;
    let ghost a = Advice { action: action@, task: crate::graph::opt_str(task), reason: reason@ };
    let ghost before = recs@;
    assert(views(before).len() == before.len());
    assert(numbered(items).len() == items.len());
    let act = action.to_string();
    assert(act@ == action@);
    let rec = Recommendation { priority, action: act, task, reason };
    assert(rec@.priority == items.len() + 1);
    assert(rec@ == numbered(items.push(a))[items.len() as int]);
    recs.push(rec);
    assert forall|k: int| 0 <= k < items.len() implies #[trigger] views(recs@)[k] == numbered(items.push(a))[k] by {
        assert(views(recs@)[k] == before[k]@);
        assert(views(before)[k] == numbered(items)[k]);
        assert(items.push(a)[k] == items[k]);
    }
    assert(views(recs@) =~= numbered(items.push(a)));
}

proof fn lemma_review_prefix(ag: Seq<AgingIssueView>, i: int)
    requires
        0 <= i <= ag.len(),
    ensures
        review_advice(ag).len() >= review_advice(ag.take(i)).len(),
        review_advice(ag).take(review_advice(ag.take(i)).len() as int) == review_advice(ag.take(i)),
    decreases ag.len() - i,
{
    let a = review_advice(ag.take(i));
    if i == ag.len() {
        assert(ag.take(i) =~= ag);
        assert(review_advice(ag).take(a.len() as int) =~= a);
    } else {
        lemma_review_prefix(ag, i + 1);
        let b = review_advice(ag.take(i + 1));
        assert(ag.take(i + 1).drop_last() =~= ag.take(i));
        assert(b.len() >= a.len());
        assert(review_advice(ag).take(a.len() as int) =~= a) by {
            assert forall|k: int| 0 <= k < a.len() implies review_advice(ag)[k] == a[k] by {
                assert(review_advice(ag).take(b.len() as int)[k] == review_advice(ag)[k]);
                assert(b[k] == a[k]);
            }
        }
    }
}

proof fn lemma_first_n_prefix(a: Seq<Advice>, b: Seq<Advice>)
    requires
        a.len() >= 5,
        b.len() >= a.len(),
        b.take(a.len() as int) == a,
    ensures
        first_n(a, 5) == first_n(b, 5),
{
    assert(a.take(5) =~= b.take(5)) by {
        assert forall|i: int| 0 <= i < 5 implies a[i] == b[i] by {
            assert(b.take(a.len() as int)[i] == b[i]);
        }
    }
}

/// What to do next: start critical open unassigned bottlenecks, check on
/// stalled bottlenecks, review old open tasks, fix critical structural
/// findings; the first five, numbered by priority.
pub fn generate_recommendations(
    structural: &StructuralHealth,
    bottlenecks: &Vec<BottleneckInfo>,
    aging: &AgingSection,
) -> (r: Vec<Recommendation>)
    requires
        2 * bottlenecks@.len() + aging.issues@.len() + structural.issues@.len() < usize::MAX,
    ensures
        views(r@) == numbered(first_n(all_advice(structural@, views(bottlenecks@), views(aging.issues@)), 5)),
{
    let ghost bs = views(bottlenecks@);
    let ghost ag = views(aging.issues@);
    let ghost st = structural@;
    let mut recs: Vec<Recommendation> = Vec::new();
    let ghost mut items: Seq<Advice> = Seq::empty();
    assert(views(recs@) =~= numbered(items));

    // Critical bottlenecks that are open and unassigned
    let mut i: usize = 0;
    while i < bottlenecks.len()
        invariant
            i <= bottlenecks.len(),
            bs == views(bottlenecks@),
            items == assign_advice(bs.take(i as int)),
            2 * bottlenecks@.len() + aging.issues@.len() + structural.issues@.len() < usize::MAX,
            views(recs@) == numbered(items),
            recs@.len() == items.len(),
            items.len() <= i,
        decreases bottlenecks.len() - i,
    {
        let b = &bottlenecks[i];
        assert(bs.take(i + 1).drop_last() =~= bs.take(i as int));
        assert(bs.take(i + 1).last() == b@);
        if b.severity == Severity::Critical && b.status == Status::Open && b.assigned.is_none() {
            let mut reason = String::new();
            reason.append("critical bottleneck - blocks ");
            push_u64(&mut reason, b.transitive_blocks as u64);
            reason.append(" tasks");
            let ghost a = Advice { action: "assign_and_start"@, task: Some(b.id@), reason: reason@ };
            advise(&mut recs, "assign_and_start", Some(b.id.clone()), reason, Ghost(items));
            proof {
                items = items.push(a);
            }
        }
        assert(items =~= assign_advice(bs.take(i + 1)));
        i = i + 1;
    }
    assert(bs.take(bottlenecks.len() as int) =~= bs);
    let ghost after_assign = items;

    // Stalled bottlenecks
    let mut i: usize = 0;
    while i < bottlenecks.len()
        invariant
            i <= bottlenecks.len(),
            bs == views(bottlenecks@),
            items == after_assign + check_on_advice(bs.take(i as int)),
            after_assign.len() <= bottlenecks.len(),
            2 * bottlenecks@.len() + aging.issues@.len() + structural.issues@.len() < usize::MAX,
            views(recs@) == numbered(items),
            recs@.len() == items.len(),
            items.len() <= after_assign.len() + i,
        decreases bottlenecks.len() - i,
    {
        let b = &bottlenecks[i];
        assert(bs.take(i + 1).drop_last() =~= bs.take(i as int));
        assert(bs.take(i + 1).last() == b@);
        let ghost before = items;
        if let Some(days) = b.days_in_progress {
            if days > 14 {
                let mut reason = String::new();
                reason.append("in-progress for ");
                push_i64(&mut reason, days);
                reason.append(" days (stalled)");
                let ghost a = Advice { action: "check_on"@, task: Some(b.id@), reason: reason@ };
                advise(&mut recs, "check_on", Some(b.id.clone()), reason, Ghost(items));
                proof {
                    items = items.push(a);
                }
            }
        }
        assert(items =~= after_assign + check_on_advice(bs.take(i + 1)));
        i = i + 1;
    }
    assert(bs.take(bottlenecks.len() as int) =~= bs);
    let ghost after_check = items;

    // Old open tasks
    let mut i: usize = 0;
    let mut stopped = false;
    while i < aging.issues.len() && !stopped
        invariant
            i <= aging.issues.len(),
            ag == views(aging.issues@),
            items == after_check + review_advice(ag.take(i as int)),
            after_check.len() <= 2 * bottlenecks.len(),
            2 * bottlenecks@.len() + aging.issues@.len() + structural.issues@.len() < usize::MAX,
            views(recs@) == numbered(items),
            recs@.len() == items.len(),
            items.len() <= after_check.len() + i,
            stopped ==> items.len() >= 5,
        decreases aging.issues.len() - i,
    {
        proof {
            reveal_strlit("old_open");
        }
        let issue = &aging.issues[i];
        assert(ag.take(i + 1).drop_last() =~= ag.take(i as int));
        assert(ag.take(i + 1).last() == issue@);
        if crate::text::str_eq(issue.issue_type.as_str(), "old_open") && issue.days > 90 {
            let mut reason = String::new();
            reason.append("open ");
            push_i64(&mut reason, issue.days);
            reason.append(" days");
            let ghost a = Advice { action: "review"@, task: Some(issue.task_id@), reason: reason@ };
            advise(&mut recs, "review", Some(issue.task_id.clone()), reason, Ghost(items));
            proof {
                items = items.push(a);
            }
            if recs.len() + 1 > 5 {
                stopped = true;
            }
        }
        assert(items =~= after_check + review_advice(ag.take(i + 1)));
        i = i + 1;
    }
    let ghost after_review = items;
    let ghost full_review = after_check + review_advice(ag);
    proof {
        if !stopped {
            assert(ag.take(aging.issues.len() as int) =~= ag);
        } else {
            lemma_review_prefix(ag, i as int);
            assert(full_review.take(after_review.len() as int) =~= after_review);
        }
    }

    // Critical structural findings
    let mut i: usize = 0;
    while i < structural.issues.len()
        invariant
            i <= structural.issues.len(),
            st == structural@,
            items == after_review + fix_advice(st.take(i as int)),
            views(recs@) == numbered(items),
            recs@.len() == items.len(),
            items.len() <= after_review.len() + i,
            after_review.len() <= 2 * bottlenecks.len() + aging.issues.len(),
            2 * bottlenecks@.len() + aging.issues@.len() + structural.issues@.len() < usize::MAX,
        decreases structural.issues.len() - i,
    {
        let issue = &structural.issues[i];
        assert(st.take(i + 1).drop_last() =~= st.take(i as int));
        assert(st.take(i + 1).last() == issue@);
        if issue.severity == Severity::Critical {
            let ghost a = Advice { action: "fix_structural"@, task: None, reason: issue.message@ };
            advise(&mut recs, "fix_structural", None, issue.message.clone(), Ghost(items));
            proof {
                items = items.push(a);
            }
        }
        assert(items =~= after_review + fix_advice(st.take(i + 1)));
        i = i + 1;
    }
    assert(st.take(structural.issues.len() as int) =~= st);

    let ghost pre = recs@;
    recs.truncate(5);
    proof {
        let full = all_advice(st, bs, ag);
        assert(full == full_review + fix_advice(st));
        if stopped {
            assert(items.take(after_review.len() as int) =~= after_review);
            lemma_first_n_prefix(after_review, items);
            assert(full.take(after_review.len() as int) =~= after_review) by {
                assert forall|k: int| 0 <= k < after_review.len() implies full[k] == after_review[k] by {
                    assert(full_review.take(after_review.len() as int)[k] == full_review[k]);
                }
            }
            lemma_first_n_prefix(after_review, full);
        } else {
            assert(items =~= full);
        }
        assert(views(pre) == numbered(items));
        assert(pre.len() == items.len());
        assert forall|k: int| 0 <= k < views(recs@).len() implies #[trigger] views(recs@)[k] == numbered(first_n(items, 5))[k] by {
            assert(views(recs@)[k] == recs@[k]@);
            assert(recs@[k] == pre[k]);
            assert(views(pre)[k] == pre[k]@);
            assert(first_n(items, 5)[k] == items[k]);
        }
        assert(views(recs@) =~= numbered(first_n(items, 5)));
    }
    recs
}

// ---------------------------------------------------------------------------
// Summary and workload
// ---------------------------------------------------------------------------

/// Number of tasks among `part` for which `p` holds.
pub open spec fn tally(part: Seq<NodeView>, p: spec_fn(TaskView) -> bool) -> nat
    decreases part.len(),
{
    if part.len() == 0 {
        0
    } else {
        tally(part.drop_last(), p) + match part.last() {
            NodeView::Task(t) => if p(t) {
                1nat
            } else {
                0nat
            },
            NodeView::Resource(_) => 0nat,
        }
    }
}

proof fn lemma_tally_le(part: Seq<NodeView>, p: spec_fn(TaskView) -> bool)
    ensures
        tally(part, p) <= part.len(),
    decreases part.len(),
{
    if part.len() > 0 {
        lemma_tally_le(part.drop_last(), p);
    }
}

/// How many tasks there are and how they stand.
#[derive(Debug, Clone, Copy, PartialEq, Eq, Structural)]
pub struct Summary {
    pub total_tasks: usize,
    pub open: usize,
    pub in_progress: usize,
    pub done: usize,
    /// Open tasks that are not ready, and tasks marked blocked.
    pub blocked: usize,
    pub ready: usize,
}

pub open spec fn is_open(t: TaskView) -> bool {
    t.status == Status::Open
}

pub open spec fn is_working(t: TaskView) -> bool {
    t.status == Status::InProgress || t.status == Status::PendingReview
}

pub open spec fn is_done(t: TaskView) -> bool {
    t.status == Status::Done
}

/// Held back: open but not ready, or marked blocked.
pub open spec fn is_held(nodes: Seq<NodeView>, t: TaskView) -> bool {
    (t.status == Status::Open && !crate::coordinate::is_ready(nodes, t)) || t.status == Status::Blocked
}

/// The summary of `nodes`.
pub open spec fn summary_of(nodes: Seq<NodeView>) -> Summary {
    Summary {
        total_tasks: task_total(nodes) as usize,
        open: tally(nodes, |t: TaskView| is_open(t)) as usize,
        in_progress: tally(nodes, |t: TaskView| is_working(t)) as usize,
        done: tally(nodes, |t: TaskView| is_done(t)) as usize,
        blocked: tally(nodes, |t: TaskView| is_held(nodes, t)) as usize,
        ready: tally(nodes, |t: TaskView| crate::coordinate::is_ready(nodes, t)) as usize,
    }
}

/// Count the tasks of `graph` by how they stand. Failed and abandoned tasks
/// count only toward the total.
#[verifier::rlimit(30)]
pub fn compute_summary(graph: &WorkGraph) -> (r: Summary)
    ensures
        r == summary_of(graph@),
        r.total_tasks == task_total(graph@),
        r.open == tally(graph@, |t: TaskView| is_open(t)),
        r.in_progress == tally(graph@, |t: TaskView| is_working(t)),
        r.done == tally(graph@, |t: TaskView| is_done(t)),
        r.blocked == tally(graph@, |t: TaskView| is_held(graph@, t)),
        r.ready == tally(graph@, |t: TaskView| crate::coordinate::is_ready(graph@, t)),
{
    let ghost nodes = graph@;
    let ghost p_open = |t: TaskView| is_open(t);
    let ghost p_work = |t: TaskView| is_working(t);
    let ghost p_done = |t: TaskView| is_done(t);
    let ghost p_held = |t: TaskView| is_held(nodes, t);
    let ghost p_ready = |t: TaskView| crate::coordinate::is_ready(nodes, t);
    let mut total: usize = 0;
    let mut open: usize = 0;
    let mut in_progress: usize = 0;
    let mut done: usize = 0;
    let mut blocked: usize = 0;
    let mut ready: usize = 0;
    let mut i: usize = 0;
    while i < graph.nodes.len()
        invariant
            i <= graph.nodes.len(),
            nodes == graph@,
            nodes.len() == graph.nodes.len(),
            total == task_total(nodes.take(i as int)),
            open == tally(nodes.take(i as int), p_open),
            in_progress == tally(nodes.take(i as int), p_work),
            done == tally(nodes.take(i as int), p_done),
            blocked == tally(nodes.take(i as int), p_held),
            ready == tally(nodes.take(i as int), p_ready),
            total <= i,
            open <= i,
            in_progress <= i,
            done <= i,
            blocked <= i,
            ready <= i,
            p_open == (|t: TaskView| is_open(t)),
            p_work == (|t: TaskView| is_working(t)),
            p_done == (|t: TaskView| is_done(t)),
            p_held == (|t: TaskView| is_held(nodes, t)),
            p_ready == (|t: TaskView| crate::coordinate::is_ready(nodes, t)),
        decreases graph.nodes.len() - i,
    {
        let ghost pre = nodes.take(i as int);
        proof {
            assert(nodes.take(i + 1).drop_last() =~= pre);
            assert(nodes.take(i + 1).last() == graph.nodes@[i as int]@);
        }
        if let Node::Task(t) = &graph.nodes[i] {
            total = total + 1;
            match t.status {
                Status::Open => {
                    open = open + 1;
                    if crate::coordinate::task_is_ready(graph, t) {
                        ready = ready + 1;
                    } else {
                        blocked = blocked + 1;
                    }
                },
                Status::InProgress | Status::PendingReview => {
                    in_progress = in_progress + 1;
                },
                Status::Done => {
                    done = done + 1;
                },
                Status::Blocked => {
                    blocked = blocked + 1;
                },
                Status::Failed | Status::Abandoned => {},
            }
        }
        i = i + 1;
    }
    proof {
        assert(nodes.take(graph.nodes.len() as int) =~= nodes);
    }
    Summary { total_tasks: total, open, in_progress, done, blocked, ready }
}

/// The people or agents assigned to unfinished tasks among the first `k`
/// nodes, each once, in order of first appearance.
pub open spec fn actors_upto(nodes: Seq<NodeView>, k: int) -> Seq<Seq<char>>
    decreases k,
{
    if k <= 0 {
        Seq::empty()
    } else {
        let prev = actors_upto(nodes, k - 1);
        match nodes[k - 1] {
            NodeView::Task(t) => if t.status != Status::Done && t.assigned is Some && !prev.contains(
                t.assigned->0,
            ) {
                prev.push(t.assigned->0)
            } else {
                prev
            },
            NodeView::Resource(_) => prev,
        }
    }
}

/// The actors with unfinished work in `nodes`.
pub open spec fn actors_of(nodes: Seq<NodeView>) -> Seq<Seq<char>> {
    actors_upto(nodes, nodes.len() as int)
}

/// An actor's load. Hours estimates are not kept, so no actor is reported
/// over capacity.
#[derive(Debug, Clone)]
pub struct WorkloadInfo {
    pub id: String,
    pub is_overloaded: bool,
}

/// How work is spread over the actors.
#[derive(Debug, Clone)]
pub struct WorkloadSection {
    pub total_actors: usize,
    pub balanced_actors: usize,
    pub overloaded: Vec<WorkloadInfo>,
}

/// Count the distinct actors assigned to tasks that are not done; every one
/// of them counts as balanced.
pub fn compute_workload(graph: &WorkGraph) -> (r: WorkloadSection)
    ensures
        r.total_actors == actors_of(graph@).len(),
        r.balanced_actors == r.total_actors,
        r.overloaded@.len() == 0,
{
    let ghost nodes = graph@;
    let mut actors: Vec<String> = Vec::new();
    let mut i: usize = 0;
    proof {
        assert(strs(actors) =~= Seq::<Seq<char>>::empty());
    }
    while i < graph.nodes.len()
        invariant
            i <= graph.nodes.len(),
            nodes == graph@,
            nodes.len() == graph.nodes.len(),
            strs(actors) == actors_upto(nodes, i as int),
            actors@.len() <= i,
        decreases graph.nodes.len() - i,
    {
        assert(nodes[i as int] == graph.nodes@[i as int]@);
        if let Node::Task(t) = &graph.nodes[i] {
            if t.status != Status::Done {
                if let Some(a) = &t.assigned {
                    if !contains_str(&actors, a.as_str()) {
                        let ghost before = strs(actors);
                        actors.push(a.clone());
                        assert(strs(actors) =~= before.push(a@));
                    }
                }
            }
        }
        i = i + 1;
    }
    let n = actors.len();
    WorkloadSection { total_actors: n, balanced_actors: n, overloaded: Vec::new() }
}

/// Ready tasks are open tasks, so a summary never counts more ready tasks
/// than open ones, and the open tasks split into ready and held back.
pub proof fn law_ready_within_open(nodes: Seq<NodeView>, part: Seq<NodeView>)
    ensures
        tally(part, |t: TaskView| crate::coordinate::is_ready(nodes, t)) <= tally(part, |t: TaskView| is_open(t)),
        tally(part, |t: TaskView| crate::coordinate::is_ready(nodes, t)) + tally(
            part,
            |t: TaskView| t.status == Status::Open && !crate::coordinate::is_ready(nodes, t),
        ) == tally(part, |t: TaskView| is_open(t)),
    decreases part.len(),
{
    if part.len() > 0 {
        law_ready_within_open(nodes, part.drop_last());
    }
}

/// Recommendations are ranked: there are at most five, numbered from one in
/// order.
pub proof fn law_recommendations_ranked(advice: Seq<Advice>)
    ensures
        numbered(first_n(advice, 5)).len() <= 5,
        forall|i: int|
            0 <= i < numbered(first_n(advice, 5)).len() ==> (#[trigger] numbered(first_n(advice, 5))[i]).priority == i
                + 1,
{
}

proof fn lemma_tally_split(part: Seq<NodeView>, p: spec_fn(TaskView) -> bool, q: spec_fn(TaskView) -> bool)
    requires
        forall|t: TaskView| !(#[trigger] p(t) && q(t)),
    ensures
        tally(part, |t: TaskView| p(t) || q(t)) == tally(part, p) + tally(part, q),
    decreases part.len(),
{
    if part.len() > 0 {
        lemma_tally_split(part.drop_last(), p, q);
    }
}

proof fn lemma_tally_all(part: Seq<NodeView>, p: spec_fn(TaskView) -> bool)
    requires
        forall|t: TaskView| #[trigger] p(t),
    ensures
        tally(part, p) == task_total(part),
    decreases part.len(),
{
    if part.len() > 0 {
        lemma_tally_all(part.drop_last(), p);
    }
}

proof fn lemma_tally_same(part: Seq<NodeView>, p: spec_fn(TaskView) -> bool, q: spec_fn(TaskView) -> bool)
    requires
        forall|t: TaskView| #[trigger] p(t) == q(t),
    ensures
        tally(part, p) == tally(part, q),
    decreases part.len(),
{
    if part.len() > 0 {
        lemma_tally_same(part.drop_last(), p, q);
    }
}

/// The summary in the terms of its report: in progress counts tasks in
/// progress and pending approval; blocked counts tasks marked blocked and
/// open tasks that are not ready; failed and abandoned tasks count only in
/// the total, which is the sum of all the statuses.
pub proof fn law_summary_counts(nodes: Seq<NodeView>)
    ensures
        tally(nodes, |t: TaskView| is_working(t)) == tally(nodes, |t: TaskView| t.status == Status::InProgress) + tally(
            nodes,
            |t: TaskView| t.status == Status::PendingReview,
        ),
        tally(nodes, |t: TaskView| is_held(nodes, t)) == tally(nodes, |t: TaskView| t.status == Status::Blocked) + tally(
            nodes,
            |t: TaskView| t.status == Status::Open && !crate::coordinate::is_ready(nodes, t),
        ),
        task_total(nodes) == tally(nodes, |t: TaskView| is_open(t)) + tally(nodes, |t: TaskView| is_working(t)) + tally(
            nodes,
            |t: TaskView| is_done(t),
        ) + tally(nodes, |t: TaskView| t.status == Status::Blocked) + tally(
            nodes,
            |t: TaskView| t.status == Status::Failed || t.status == Status::Abandoned,
        ),
{
    let ip = |t: TaskView| t.status == Status::InProgress;
    let pr = |t: TaskView| t.status == Status::PendingReview;
    lemma_tally_split(nodes, ip, pr);
    lemma_tally_same(nodes, |t: TaskView| ip(t) || pr(t), |t: TaskView| is_working(t));
    let bl = |t: TaskView| t.status == Status::Blocked;
    let nr = |t: TaskView| t.status == Status::Open && !crate::coordinate::is_ready(nodes, t);
    lemma_tally_split(nodes, bl, nr);
    lemma_tally_same(nodes, |t: TaskView| bl(t) || nr(t), |t: TaskView| is_held(nodes, t));
    let op = |t: TaskView| is_open(t);
    let wk = |t: TaskView| is_working(t);
    let dn = |t: TaskView| is_done(t);
    let fa = |t: TaskView| t.status == Status::Failed || t.status == Status::Abandoned;
    let a1 = |t: TaskView| op(t) || wk(t);
    let a2 = |t: TaskView| a1(t) || dn(t);
    let a3 = |t: TaskView| a2(t) || bl(t);
    let a4 = |t: TaskView| a3(t) || fa(t);
    lemma_tally_split(nodes, op, wk);
    lemma_tally_split(nodes, a1, dn);
    lemma_tally_split(nodes, a2, bl);
    lemma_tally_split(nodes, a3, fa);
    lemma_tally_all(nodes, a4);
}

/// An open task created more than 90 days before `now`, by a timestamp
/// that parses.
pub open spec fn is_old_open(now: Instant, t: TaskView) -> bool {
    t.status == Status::Open && match age_since(now, t.created_at) {
        Some(a) => a > 90 * 86_400_000_000_000,
        None => false,
    }
}

/// A task in progress started more than 14 days before `now`, by a
/// timestamp that parses.
pub open spec fn is_stale_in_progress(now: Instant, t: TaskView) -> bool {
    t.status == Status::InProgress && match age_since(now, t.started_at) {
        Some(a) => a > 14 * 86_400_000_000_000,
        None => false,
    }
}

proof fn lemma_count_type_push(v: Seq<AgingIssueView>, extra: Seq<AgingIssueView>, ty: Seq<char>)
    ensures
        count_type(v + extra, ty) == count_type(v, ty) + count_type(extra, ty),
    decreases extra.len(),
{
    if extra.len() == 0 {
        assert(v + extra =~= v);
    } else {
        assert((v + extra).drop_last() =~= v + extra.drop_last());
        lemma_count_type_push(v, extra.drop_last(), ty);
    }
}

/// The aging counts in the report's terms: open tasks older than 90 days and
/// tasks in progress for more than 14 days, by timestamps that parse.
pub proof fn law_aging_counts(now: Instant, nodes: Seq<NodeView>)
    ensures
        count_type(aging_candidates(now, nodes), "old_open"@) == tally(nodes, |t: TaskView| is_old_open(now, t)),
        count_type(aging_candidates(now, nodes), "stale_in_progress"@) == tally(
            nodes,
            |t: TaskView| is_stale_in_progress(now, t),
        ),
    decreases nodes.len(),
{
    reveal_strlit("old_open");
    reveal_strlit("stale_in_progress");
    if nodes.len() > 0 {
        law_aging_counts(now, nodes.drop_last());
        let extra = match nodes.last() {
            NodeView::Task(t) => match aging_issue_of(now, t) {
                Some(i) => seq![i],
                None => Seq::<AgingIssueView>::empty(),
            },
            NodeView::Resource(_) => Seq::<AgingIssueView>::empty(),
        };
        lemma_count_type_push(aging_candidates(now, nodes.drop_last()), extra, "old_open"@);
        lemma_count_type_push(aging_candidates(now, nodes.drop_last()), extra, "stale_in_progress"@);
        assert("old_open"@ != "stale_in_progress"@) by {
            assert("old_open"@.len() != "stale_in_progress"@.len());
        }
        match nodes.last() {
            NodeView::Task(t) => {
                match aging_issue_of(now, t) {
                    Some(i) => {
                        assert(extra == seq![i]);
                        assert(seq![i].drop_last() =~= Seq::<AgingIssueView>::empty());
                        assert(seq![i].last() == i);
                        assert(count_type(seq![i].drop_last(), "old_open"@) == 0);
                        assert(count_type(seq![i].drop_last(), "stale_in_progress"@) == 0);
                        assert(count_type(extra, "old_open"@) == if i.issue_type == "old_open"@ { 1nat } else { 0nat });
                        assert(count_type(extra, "stale_in_progress"@) == if i.issue_type == "stale_in_progress"@ {
                            1nat
                        } else {
                            0nat
                        });
                        assert((i.issue_type == "old_open"@) == is_old_open(now, t));
                        assert((i.issue_type == "stale_in_progress"@) == is_stale_in_progress(now, t));
                    },
                    None => {
                        assert(!is_old_open(now, t));
                        assert(!is_stale_in_progress(now, t));
                    },
                }
            },
            NodeView::Resource(_) => {},
        }
    }
}

} // verus!
