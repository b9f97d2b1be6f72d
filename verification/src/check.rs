//! Structural checks of a graph: dependency cycles, dangling references and
//! unsafe loop edges.
use vstd::prelude::*;
use crate::graph::{WorkGraph, Node, NodeView, TaskView, lookup_node, lookup_resource, lookup_task, strs, LoopEdgeView, LoopGuardView, LoopGuard, node_id, find_node};
use crate::text::{str_eq, contains_str, position_str};

verus! {

/// The views of a sequence of values.
pub open spec fn views<T: View>(v: Seq<T>) -> Seq<T::V> {
    v.map_values(|x: T| x@)
}

/// A reference to a node that does not exist.
#[derive(Debug, Clone)]
pub struct OrphanRef {
    pub from: String,
    pub to: String,
    pub relation: String,
}

pub ghost struct OrphanRefView {
    pub from: Seq<char>,
    pub to: Seq<char>,
    pub relation: Seq<char>,
}

impl View for OrphanRef {
    type V = OrphanRefView;

    open spec fn view(&self) -> OrphanRefView {
        OrphanRefView { from: self.from@, to: self.to@, relation: self.relation@ }
    }
}

/// Kinds of problems with a loop edge.
#[derive(Debug, Clone, PartialEq, Eq)]
pub enum LoopEdgeIssueKind {
    /// Target task does not exist
    TargetNotFound,
    /// max_iterations is 0 (the loop never fires)
    ZeroMaxIterations,
    /// The guard names a task that does not exist
    GuardTaskNotFound(String),
    /// A task loops to itself
    SelfLoop,
}

pub ghost enum LoopEdgeIssueKindView {
    TargetNotFound,
    ZeroMaxIterations,
    GuardTaskNotFound(Seq<char>),
    SelfLoop,
}

impl View for LoopEdgeIssueKind {
    type V = LoopEdgeIssueKindView;

    open spec fn view(&self) -> LoopEdgeIssueKindView {
        match self {
            LoopEdgeIssueKind::TargetNotFound => LoopEdgeIssueKindView::TargetNotFound,
            LoopEdgeIssueKind::ZeroMaxIterations => LoopEdgeIssueKindView::ZeroMaxIterations,
            LoopEdgeIssueKind::GuardTaskNotFound(t) => LoopEdgeIssueKindView::GuardTaskNotFound(t@),
            LoopEdgeIssueKind::SelfLoop => LoopEdgeIssueKindView::SelfLoop,
        }
    }
}

/// A problem with one loop edge of a task.
#[derive(Debug, Clone)]
pub struct LoopEdgeIssue {
    pub from: String,
    pub target: String,
    pub kind: LoopEdgeIssueKind,
}

pub ghost struct LoopEdgeIssueView {
    pub from: Seq<char>,
    pub target: Seq<char>,
    pub kind: LoopEdgeIssueKindView,
}

impl View for LoopEdgeIssue {
    type V = LoopEdgeIssueView;

    open spec fn view(&self) -> LoopEdgeIssueView {
        LoopEdgeIssueView { from: self.from@, target: self.target@, kind: self.kind@ }
    }
}

// ---------------------------------------------------------------------------
// Orphan references
// ---------------------------------------------------------------------------

/// Whether a reference is dangling: requirements must name a resource, the
/// other relations any node.
pub open spec fn ref_missing(nodes: Seq<NodeView>, id: Seq<char>, resource_only: bool) -> bool {
    if resource_only {
        lookup_resource(nodes, id) is None
    } else {
        lookup_node(nodes, id) is None
    }
}

/// The dangling references among `refs`, in order.
pub open spec fn dangling_refs(
    nodes: Seq<NodeView>,
    from: Seq<char>,
    refs: Seq<Seq<char>>,
    relation: Seq<char>,
    resource_only: bool,
) -> Seq<OrphanRefView>
    decreases refs.len(),
{
    if refs.len() == 0 {
        Seq::empty()
    } else {
        let rest = dangling_refs(nodes, from, refs.drop_last(), relation, resource_only);
        if ref_missing(nodes, refs.last(), resource_only) {
            rest.push(OrphanRefView { from, to: refs.last(), relation })
        } else {
            rest
        }
    }
}

/// Dangling references of one task: blockers, then blocked tasks, then resources.
pub open spec fn task_orphans(nodes: Seq<NodeView>, t: TaskView) -> Seq<OrphanRefView> {
    dangling_refs(nodes, t.id, t.blocked_by, "blocked_by"@, false) + dangling_refs(
        nodes,
        t.id,
        t.blocks,
        "blocks"@,
        false,
    ) + dangling_refs(nodes, t.id, t.requires, "requires"@, true)
}

/// Dangling references of the tasks among `part`, in order.
pub open spec fn orphans_in(nodes: Seq<NodeView>, part: Seq<NodeView>) -> Seq<OrphanRefView>
    decreases part.len(),
{
    if part.len() == 0 {
        Seq::empty()
    } else {
        orphans_in(nodes, part.drop_last()) + match part.last() {
            NodeView::Task(t) => task_orphans(nodes, t),
            NodeView::Resource(_) => Seq::empty(),
        }
    }
}

fn push_dangling(
    graph: &WorkGraph,
    from: &String,
    refs: &Vec<String>,
    relation: &str,
    resource_only: bool,
    out: &mut Vec<OrphanRef>,
)
    ensures
        views(final(out)@) == views(old(out)@) + dangling_refs(
            graph@,
            from@,
            strs(*refs),
            relation@,
            resource_only,
        ),
{
    let ghost start = views(out@);
    let mut i: usize = 0;
    while i < refs.len()
        invariant
            i <= refs.len(),
            views(out@) == start + dangling_refs(
                graph@,
                from@,
                strs(*refs).take(i as int),
                relation@,
                resource_only,
            ),
        decreases refs.len() - i,
    {
        let r = &refs[i];
        let missing = if resource_only {
            graph.get_resource(r.as_str()).is_none()
        } else {
            graph.get_node(r.as_str()).is_none()
        };
        let ghost before = views(out@);
        if missing {
            out.push(OrphanRef { from: from.clone(), to: r.clone(), relation: relation.to_string() });
            assert(views(out@) =~= before.push(out@.last()@));
        }
        assert(strs(*refs).take(i + 1).drop_last() =~= strs(*refs).take(i as int));
        i = i + 1;
    }
    assert(strs(*refs).take(refs.len() as int) =~= strs(*refs));
}

/// Report every reference to a node that does not exist: `blocked_by` and
/// `blocks` entries must name a node, `requires` entries must name a resource.
pub fn check_orphans(graph: &WorkGraph) -> (r: Vec<OrphanRef>)
    ensures
        views(r@) == orphans_in(graph@, graph@),
{
    let mut orphans: Vec<OrphanRef> = Vec::new();
    let mut i: usize = 0;
    assert(views(orphans@) =~= Seq::<OrphanRefView>::empty());
    while i < graph.nodes.len()
        invariant
            i <= graph.nodes.len(),
            graph@.len() == graph.nodes.len(),
            views(orphans@) == orphans_in(graph@, graph@.take(i as int)),
        decreases graph.nodes.len() - i,
    {
        assert(graph@.take(i + 1).drop_last() =~= graph@.take(i as int));
        assert(graph@.take(i + 1).last() == graph.nodes@[i as int]@);
        match &graph.nodes[i] {
            Node::Task(task) => {
                push_dangling(graph, &task.id, &task.blocked_by, "blocked_by", false, &mut orphans);
                push_dangling(graph, &task.id, &task.blocks, "blocks", false, &mut orphans);
                push_dangling(graph, &task.id, &task.requires, "requires", true, &mut orphans);
            },
            Node::Resource(_) => {},
        }
        i = i + 1;
    }
    assert(graph@.take(graph.nodes.len() as int) =~= graph@);
    orphans
}

// ---------------------------------------------------------------------------
// Loop edges
// ---------------------------------------------------------------------------

/// The issues of one loop edge of task `from`: self-loop, missing target,
/// zero iteration budget, missing guard task, in that order.
pub open spec fn edge_issues(nodes: Seq<NodeView>, from: Seq<char>, e: LoopEdgeView) -> Seq<
    LoopEdgeIssueView,
> {
    let mk = |k: LoopEdgeIssueKindView| LoopEdgeIssueView { from, target: e.target, kind: k };
    (if e.target == from {
        seq![mk(LoopEdgeIssueKindView::SelfLoop)]
    } else {
        Seq::empty()
    }) + (if lookup_task(nodes, e.target) is None {
        seq![mk(LoopEdgeIssueKindView::TargetNotFound)]
    } else {
        Seq::empty()
    }) + (if e.max_iterations == 0 {
        seq![mk(LoopEdgeIssueKindView::ZeroMaxIterations)]
    } else {
        Seq::empty()
    }) + match e.guard {
        Some(LoopGuardView::TaskStatus { task, status: _ }) => if lookup_task(nodes, task) is None {
            seq![mk(LoopEdgeIssueKindView::GuardTaskNotFound(task))]
        } else {
            Seq::empty()
        },
        _ => Seq::empty(),
    }
}

/// The issues of the loop edges `edges` of task `from`, edge by edge.
pub open spec fn edges_issues(nodes: Seq<NodeView>, from: Seq<char>, edges: Seq<LoopEdgeView>) -> Seq<
    LoopEdgeIssueView,
>
    decreases edges.len(),
{
    if edges.len() == 0 {
        Seq::empty()
    } else {
        edges_issues(nodes, from, edges.drop_last()) + edge_issues(nodes, from, edges.last())
    }
}

/// The loop-edge issues of the tasks among `part`, in order.
pub open spec fn loop_issues_in(nodes: Seq<NodeView>, part: Seq<NodeView>) -> Seq<LoopEdgeIssueView>
    decreases part.len(),
{
    if part.len() == 0 {
        Seq::empty()
    } else {
        loop_issues_in(nodes, part.drop_last()) + match part.last() {
            NodeView::Task(t) => edges_issues(nodes, t.id, t.loops_to),
            NodeView::Resource(_) => Seq::empty(),
        }
    }
}

fn issue(from: &String, target: &String, kind: LoopEdgeIssueKind) -> (r: LoopEdgeIssue)
    ensures
        r@ == (LoopEdgeIssueView { from: from@, target: target@, kind: kind@ }),
{
    LoopEdgeIssue { from: from.clone(), target: target.clone(), kind }
}

/// Report loop edges that are unsafe or cannot fire.
pub fn check_loop_edges(graph: &WorkGraph) -> (r: Vec<LoopEdgeIssue>)
    ensures
        views(r@) == loop_issues_in(graph@, graph@),
{
    let mut issues: Vec<LoopEdgeIssue> = Vec::new();
    assert(views(issues@) =~= Seq::<LoopEdgeIssueView>::empty());
    let mut i: usize = 0;
    while i < graph.nodes.len()
        invariant
            i <= graph.nodes.len(),
            graph@.len() == graph.nodes.len(),
            views(issues@) == loop_issues_in(graph@, graph@.take(i as int)),
        decreases graph.nodes.len() - i,
    {
        assert(graph@.take(i + 1).drop_last() =~= graph@.take(i as int));
        assert(graph@.take(i + 1).last() == graph.nodes@[i as int]@);
        if let Node::Task(task) = &graph.nodes[i] {
            let ghost base = views(issues@);
            let ghost tv = task@;
            let mut k: usize = 0;
            while k < task.loops_to.len()
                invariant
                    k <= task.loops_to.len(),
                    tv == task@,
                    views(issues@) == base + edges_issues(graph@, tv.id, tv.loops_to.take(k as int)),
                decreases task.loops_to.len() - k,
            {
                let edge = &task.loops_to[k];
                let ghost before = views(issues@);
                let ghost ev = edge@;
                assert(tv.loops_to[k as int] == ev);
                if str_eq(edge.target.as_str(), task.id.as_str()) {
                    issues.push(issue(&task.id, &edge.target, LoopEdgeIssueKind::SelfLoop));
                }
                if graph.get_task(edge.target.as_str()).is_none() {
                    issues.push(issue(&task.id, &edge.target, LoopEdgeIssueKind::TargetNotFound));
                }
                if edge.max_iterations == 0 {
                    issues.push(issue(&task.id, &edge.target, LoopEdgeIssueKind::ZeroMaxIterations));
                }
                if let Some(LoopGuard::TaskStatus { task: guard_task, .. }) = &edge.guard {
                    if graph.get_task(guard_task.as_str()).is_none() {
                        issues.push(
                            issue(
                                &task.id,
                                &edge.target,
                                LoopEdgeIssueKind::GuardTaskNotFound(guard_task.clone()),
                            ),
                        );
                    }
                }
                assert(views(issues@) =~= before + edge_issues(graph@, tv.id, ev));
                assert(tv.loops_to.take(k + 1).drop_last() =~= tv.loops_to.take(k as int));
                k = k + 1;
            }
            assert(tv.loops_to.take(task.loops_to.len() as int) =~= tv.loops_to);
        }
        i = i + 1;
    }
    assert(graph@.take(graph.nodes.len() as int) =~= graph@);
    issues
}

// ---------------------------------------------------------------------------
// Dependency cycles
// ---------------------------------------------------------------------------

/// `a` is blocked by `b`: `a` names a task whose `blocked_by` lists `b`.
pub open spec fn is_dep(nodes: Seq<NodeView>, a: Seq<char>, b: Seq<char>) -> bool {
    match lookup_task(nodes, a) {
        Some(t) => t.blocked_by.contains(b),
        None => false,
    }
}

/// `c` is a cycle of `blocked_by` edges: each entry is blocked by the next,
/// and the last by the first.
pub open spec fn is_cycle(nodes: Seq<NodeView>, c: Seq<Seq<char>>) -> bool {
    &&& c.len() > 0
    &&& forall|k: int| #![trigger c[k]] 0 <= k < c.len() - 1 ==> is_dep(nodes, c[k], c[k + 1])
    &&& is_dep(nodes, c.last(), c[0])
}

/// No `blocked_by` cycle exists.
pub open spec fn acyclic(nodes: Seq<NodeView>) -> bool {
    forall|c: Seq<Seq<char>>| !is_cycle(nodes, c)
}

/// The views of a list of cycles.
pub open spec fn cycle_views(v: Seq<Vec<String>>) -> Seq<Seq<Seq<char>>> {
    v.map_values(|c: Vec<String>| strs(c))
}

/// Every node finished by the search has its blockers finished earlier.
pub open spec fn closed(nodes: Seq<NodeView>, fin: Map<Seq<char>, int>) -> bool {
    forall|u: Seq<char>, v: Seq<char>|
        #[trigger] is_dep(nodes, u, v) && fin.dom().contains(u) ==> fin.dom().contains(v) && fin[v]
            < fin[u]
}

/// The state of the depth-first search: visited ids are those on the current
/// path or finished; the path is a simple chain of `blocked_by` edges; every
/// recorded cycle is a real cycle; and as long as none was recorded, finish
/// times decrease along edges.
pub open spec fn dfs_inv(
    nodes: Seq<NodeView>,
    visited: Seq<Seq<char>>,
    path: Seq<Seq<char>>,
    fin: Map<Seq<char>, int>,
    clock: int,
    cycles: Seq<Seq<Seq<char>>>,
) -> bool {
    &&& forall|x: Seq<char>| visited.contains(x) <==> (path.contains(x) || fin.dom().contains(x))
    &&& forall|i: int, j: int| 0 <= i < j < path.len() ==> path[i] != path[j]
    &&& forall|x: Seq<char>| path.contains(x) ==> !fin.dom().contains(x)
    &&& forall|k: int| #![trigger path[k]] 0 <= k < path.len() - 1 ==> is_dep(nodes, path[k], path[k + 1])
    &&& forall|x: Seq<char>| fin.dom().contains(x) ==> fin[x] < clock
    &&& forall|i: int| 0 <= i < cycles.len() ==> is_cycle(nodes, #[trigger] cycles[i])
    &&& forall|i: int| 0 <= i < cycles.len() ==> (#[trigger] cycles[i]).no_duplicates()
    &&& cycles.len() == 0 ==> closed(nodes, fin)
}

/// The state of the depth-first search for cycles: the ids visited so far,
/// the current path, and the cycles recorded.
pub ghost struct DfsState {
    pub visited: Seq<Seq<char>>,
    pub path: Seq<Seq<char>>,
    pub cycles: Seq<Seq<Seq<char>>>,
}

/// How many blockers the task named `node` lists (none for a missing task).
pub open spec fn dep_count(nodes: Seq<NodeView>, node: Seq<char>) -> nat {
    match lookup_task(nodes, node) {
        Some(t) => t.blocked_by.len(),
        None => 0,
    }
}

/// The first position of `x` in `s`.
pub open spec fn first_pos(s: Seq<Seq<char>>, x: Seq<char>) -> int {
    choose|i: int| 0 <= i < s.len() && s[i] == x && forall|j: int| 0 <= j < i ==> s[j] != x
}

/// The search from `node`: mark it visited and put it on the path, follow
/// each of its blockers in order, then take it off the path.
pub open spec fn dfs_visit(nodes: Seq<NodeView>, node: Seq<char>, st: DfsState) -> DfsState
    decreases unvisited(nodes, st.visited), dep_count(nodes, node) + 1,
{
    let st1 = DfsState { visited: st.visited.push(node), path: st.path.push(node), cycles: st.cycles };
    let st2 = match lookup_task(nodes, node) {
        Some(t) => dfs_deps(nodes, t.blocked_by, 0, unvisited(nodes, st.visited), st1),
        None => st1,
    };
    DfsState { path: st2.path.drop_last(), ..st2 }
}

/// Following blockers `deps[k..]` in order: an unvisited blocker is searched;
/// a blocker on the current path closes a cycle, recorded as the path from
/// that blocker on; any other blocker is passed over. (`bound` only measures
/// the search; it always exceeds the unvisited count where it is tested.)
pub open spec fn dfs_deps(nodes: Seq<NodeView>, deps: Seq<Seq<char>>, k: int, bound: nat, st: DfsState) -> DfsState
    decreases bound, deps.len() - k,
{
    if k < 0 || k >= deps.len() {
        st
    } else {
        let d = deps[k];
        let st2 = if !st.visited.contains(d) {
            if unvisited(nodes, st.visited) < bound {
                dfs_visit(nodes, d, st)
            } else {
                st
            }
        } else if st.path.contains(d) {
            DfsState { cycles: st.cycles.push(st.path.subrange(first_pos(st.path, d), st.path.len() as int)), ..st }
        } else {
            st
        };
        dfs_deps(nodes, deps, k + 1, bound, st2)
    }
}

/// The search over the first `upto` nodes, starting from each task not yet
/// visited, in node order.
pub open spec fn dfs_from(nodes: Seq<NodeView>, upto: int) -> DfsState
    decreases upto,
{
    if upto <= 0 {
        DfsState { visited: Seq::empty(), path: Seq::empty(), cycles: Seq::empty() }
    } else {
        let st = dfs_from(nodes, upto - 1);
        let n = nodes[upto - 1];
        if n is Task && !st.visited.contains(node_id(n)) {
            dfs_visit(nodes, node_id(n), st)
        } else {
            st
        }
    }
}

/// The cycles the depth-first search over the whole graph records.
pub open spec fn dfs_cycles(nodes: Seq<NodeView>) -> Seq<Seq<Seq<char>>> {
    dfs_from(nodes, nodes.len() as int).cycles
}

pub open spec fn dfs_state(visited: Seq<Seq<char>>, path: Seq<Seq<char>>, cycles: Seq<Seq<Seq<char>>>) -> DfsState {
    DfsState { visited, path, cycles }
}

/// Number of nodes whose id is not yet visited.
pub open spec fn unvisited(nodes: Seq<NodeView>, vis: Seq<Seq<char>>) -> nat
    decreases nodes.len(),
{
    if nodes.len() == 0 {
        0
    } else {
        unvisited(nodes.drop_last(), vis) + if vis.contains(node_id(nodes.last())) {
            0nat
        } else {
            1nat
        }
    }
}

proof fn lemma_unvisited_mono(nodes: Seq<NodeView>, a: Seq<Seq<char>>, b: Seq<Seq<char>>)
    requires
        forall|x: Seq<char>| a.contains(x) ==> b.contains(x),
    ensures
        unvisited(nodes, b) <= unvisited(nodes, a),
    decreases nodes.len(),
{
    if nodes.len() > 0 {
        lemma_unvisited_mono(nodes.drop_last(), a, b);
    }
}

proof fn lemma_unvisited_strict(nodes: Seq<NodeView>, a: Seq<Seq<char>>, b: Seq<Seq<char>>, j: int)
    requires
        forall|x: Seq<char>| a.contains(x) ==> b.contains(x),
        0 <= j < nodes.len(),
        !a.contains(node_id(nodes[j])),
        b.contains(node_id(nodes[j])),
    ensures
        unvisited(nodes, b) < unvisited(nodes, a),
    decreases nodes.len(),
{
    lemma_unvisited_mono(nodes.drop_last(), a, b);
    if j < nodes.len() - 1 {
        assert(nodes.drop_last()[j] == nodes[j]);
        lemma_unvisited_strict(nodes.drop_last(), a, b, j);
    }
}

proof fn lemma_closed_extend(nodes: Seq<NodeView>, fin: Map<Seq<char>, int>, u: Seq<char>, clock: int)
    requires
        closed(nodes, fin),
        !fin.dom().contains(u),
        forall|x: Seq<char>| fin.dom().contains(x) ==> fin[x] < clock,
        forall|v: Seq<char>| is_dep(nodes, u, v) ==> fin.dom().contains(v),
    ensures
        closed(nodes, fin.insert(u, clock)),
{
    let f2 = fin.insert(u, clock);
    assert forall|a: Seq<char>, v: Seq<char>| #[trigger]
        is_dep(nodes, a, v) && f2.dom().contains(a) implies f2.dom().contains(v) && f2[v] < f2[a] by {
        if a == u {
            assert(fin.dom().contains(v));
        } else {
            assert(fin.dom().contains(a));
        }
    }
}

proof fn lemma_cycle_ranks(nodes: Seq<NodeView>, fin: Map<Seq<char>, int>, c: Seq<Seq<char>>, k: int)
    requires
        closed(nodes, fin),
        is_cycle(nodes, c),
        fin.dom().contains(c[0]),
        1 <= k < c.len(),
    ensures
        fin.dom().contains(c[k]),
        fin[c[k]] < fin[c[0]],
    decreases k,
{
    if k == 1 {
        assert(is_dep(nodes, c[0], c[1]));
    } else {
        lemma_cycle_ranks(nodes, fin, c, k - 1);
        assert(is_dep(nodes, c[k - 1], c[k]));
    }
}

proof fn lemma_ranked_acyclic(nodes: Seq<NodeView>, fin: Map<Seq<char>, int>)
    requires
        closed(nodes, fin),
        forall|u: Seq<char>| lookup_task(nodes, u) is Some ==> fin.dom().contains(u),
    ensures
        acyclic(nodes),
{
    assert forall|c: Seq<Seq<char>>| !is_cycle(nodes, c) by {
        if is_cycle(nodes, c) {
            assert(lookup_task(nodes, c.last()) is Some);
            if c.len() == 1 {
                assert(is_dep(nodes, c[0], c[0]));
                assert(lookup_task(nodes, c[0]) is Some);
            } else {
                assert(is_dep(nodes, c[0], c[1]));
                assert(lookup_task(nodes, c[0]) is Some);
                lemma_cycle_ranks(nodes, fin, c, c.len() - 1);
                assert(is_dep(nodes, c.last(), c[0]));
            }
        }
    }
}

proof fn lemma_push_contains(s: Seq<Seq<char>>, e: Seq<char>, x: Seq<char>)
    ensures
        s.push(e).contains(x) <==> (s.contains(x) || x == e),
{
    if s.contains(x) {
        let j = choose|j: int| 0 <= j < s.len() && s[j] == x;
        assert(s.push(e)[j] == x);
    }
    if x == e {
        assert(s.push(e)[s.len() as int] == x);
    }
    if s.push(e).contains(x) {
        let j = choose|j: int| 0 <= j < s.len() + 1 && s.push(e)[j] == x;
        if j < s.len() {
            assert(s[j] == x);
        }
    }
}

fn copy_suffix(path: &Vec<String>, pos: usize) -> (r: Vec<String>)
    requires
        pos <= path.len(),
    ensures
        strs(r) == strs(*path).subrange(pos as int, path.len() as int),
{
    let mut out: Vec<String> = Vec::new();
    let mut q = pos;
    while q < path.len()
        invariant
            pos <= q <= path.len(),
            strs(out) == strs(*path).subrange(pos as int, q as int),
        decreases path.len() - q,
    {
        let ghost before = strs(out);
        out.push(path[q].clone());
        assert(strs(out) =~= before.push(path@[q as int]@));
        assert(strs(out) =~= strs(*path).subrange(pos as int, q + 1));
        q = q + 1;
    }
    out
}

/// Depth-first search from `node` along `blocked_by` edges, recording a cycle
/// whenever an edge leads back onto the current path.
#[verifier::rlimit(50)]
fn find_cycles(
    graph: &WorkGraph,
    node: &str,
    visited: &mut Vec<String>,
    path: &mut Vec<String>,
    cycles: &mut Vec<Vec<String>>,
    Ghost(fin0): Ghost<Map<Seq<char>, int>>,
    Ghost(clock0): Ghost<int>,
) -> (r: Ghost<(Map<Seq<char>, int>, int)>)
    requires
        dfs_inv(graph@, strs(*old(visited)), strs(*old(path)), fin0, clock0, cycle_views(old(cycles)@)),
        !strs(*old(visited)).contains(node@),
        old(path)@.len() > 0 ==> is_dep(graph@, strs(*old(path)).last(), node@),
    ensures
        dfs_inv(graph@, strs(*final(visited)), strs(*final(path)), r@.0, r@.1, cycle_views(final(cycles)@)),
        strs(*final(path)) == strs(*old(path)),
        r@.0.dom().contains(node@),
        forall|x: Seq<char>| #[trigger] fin0.dom().contains(x) ==> r@.0.dom().contains(x) && r@.0[x] == fin0[x],
        r@.1 >= clock0,
        old(cycles)@.len() <= final(cycles)@.len(),
        forall|i: int| 0 <= i < old(cycles)@.len() ==> cycle_views(final(cycles)@)[i] == cycle_views(old(cycles)@)[i],
        dfs_state(strs(*final(visited)), strs(*final(path)), cycle_views(final(cycles)@)) == dfs_visit(
            graph@,
            node@,
            dfs_state(strs(*old(visited)), strs(*old(path)), cycle_views(old(cycles)@)),
        ),
    decreases unvisited(graph@, strs(*old(visited))),
{
    let ghost mut fin = fin0;
    let ghost mut clock = clock0;
    let ghost v0 = strs(*visited);
    let ghost p0 = strs(*path);
    let ghost c0 = cycle_views(cycles@);
    visited.push(node.to_string());
    path.push(node.to_string());
    proof {
        assert(strs(*visited) =~= v0.push(node@));
        assert(strs(*path) =~= p0.push(node@));
        assert(!v0.contains(node@));
        assert(!fin.dom().contains(node@));
        assert(!p0.contains(node@));
        lemma_push_contains(v0, node@, node@);
        assert forall|x: Seq<char>| strs(*path).contains(x) implies !fin.dom().contains(x) by {
            lemma_push_contains(p0, node@, x);
        }
        assert forall|x: Seq<char>| strs(*visited).contains(x) <==> (strs(*path).contains(x) || fin.dom().contains(x)) by {
            lemma_push_contains(p0, node@, x);
            lemma_push_contains(v0, node@, x);
        }
        assert forall|i: int, j: int| 0 <= i < j < strs(*path).len() implies strs(*path)[i] != strs(*path)[j] by {
            if j == p0.len() {
                assert(p0.contains(p0[i]));
            }
        }
        assert forall|k: int| #![trigger strs(*path)[k]] 0 <= k < strs(*path).len() - 1 implies is_dep(
            graph@,
            strs(*path)[k],
            strs(*path)[k + 1],
        ) by {
            if k == p0.len() - 1 {
            } else {
                assert(p0[k] == strs(*path)[k]);
            }
        }
        assert(forall|x: Seq<char>| fin.dom().contains(x) ==> fin[x] < clock);
        assert(forall|i: int| 0 <= i < cycle_views(cycles@).len() ==> is_cycle(graph@, #[trigger] cycle_views(cycles@)[i]));
        assert(cycle_views(cycles@).len() == 0 ==> closed(graph@, fin));
        let vv = strs(*visited);
        let pp = strs(*path);
        assert forall|x: Seq<char>| vv.contains(x) <==> (pp.contains(x) || fin.dom().contains(x)) by {
            lemma_push_contains(p0, node@, x);
            lemma_push_contains(v0, node@, x);
        }
        assert(forall|i: int, j: int| 0 <= i < j < pp.len() ==> pp[i] != pp[j]);
        assert(forall|x: Seq<char>| pp.contains(x) ==> !fin.dom().contains(x));
        assert(forall|k: int| #![trigger pp[k]] 0 <= k < pp.len() - 1 ==> is_dep(graph@, pp[k], pp[k + 1]));
        assert(dfs_inv(graph@, strs(*visited), strs(*path), fin, clock, cycle_views(cycles@)));
        assert forall|x: Seq<char>| v0.contains(x) implies strs(*visited).contains(x) by {
            lemma_push_contains(v0, node@, x);
        }
    }
    let ghost bound = unvisited(graph@, v0);
    let ghost st1 = dfs_state(v0.push(node@), p0.push(node@), c0);
    assert(dfs_state(strs(*visited), strs(*path), cycle_views(cycles@)) == st1);
    let tref = graph.get_task(node);
    if let Some(task) = tref {
        proof {
            crate::graph::lemma_find_node(graph@, node@);
        }
        let ghost tv = task@;
        let mut k: usize = 0;
        while k < task.blocked_by.len()
            invariant
                k <= task.blocked_by.len(),
                tv == task@,
                v0 == strs(*old(visited)),
                p0 == strs(*old(path)),
                c0 == cycle_views(old(cycles)@),
                lookup_task(graph@, node@) == Some(tv),
                find_node(graph@, node@) is Some,
                node_id(graph@[find_node(graph@, node@)->0]) == node@,
                0 <= find_node(graph@, node@)->0 < graph@.len(),
                dfs_inv(graph@, strs(*visited), strs(*path), fin, clock, cycle_views(cycles@)),
                strs(*path) == p0.push(node@),
                !fin.dom().contains(node@),
                forall|x: Seq<char>| #[trigger] fin0.dom().contains(x) ==> fin.dom().contains(x) && fin[x] == fin0[x],
                clock >= clock0,
                c0.len() <= cycles@.len(),
                forall|i: int| 0 <= i < c0.len() ==> cycle_views(cycles@)[i] == c0[i],
                forall|x: Seq<char>| v0.contains(x) ==> strs(*visited).contains(x),
                strs(*visited).contains(node@),
                !v0.contains(node@),
                cycles@.len() == 0 ==> forall|j: int| 0 <= j < k ==> fin.dom().contains(#[trigger] tv.blocked_by[j]),
                bound == unvisited(graph@, v0),
                st1 == dfs_state(v0.push(node@), p0.push(node@), c0),
                dfs_deps(graph@, tv.blocked_by, k as int, bound, dfs_state(strs(*visited), strs(*path), cycle_views(cycles@)))
                    == dfs_deps(graph@, tv.blocked_by, 0, bound, st1),
            decreases task.blocked_by.len() - k,
        {
            let ghost cur = dfs_state(strs(*visited), strs(*path), cycle_views(cycles@));
            let dep = &task.blocked_by[k];
            assert(tv.blocked_by[k as int] == dep@);
            assert(is_dep(graph@, node@, dep@));
            if !contains_str(visited, dep.as_str()) {
                proof {
                    let j = find_node(graph@, node@)->0;
                    lemma_unvisited_strict(graph@, v0, strs(*visited), j);
                    assert(unvisited(graph@, strs(*visited)) < unvisited(graph@, v0));
                    assert(strs(*path).last() == node@);
                }
                let ghost cb = cycle_views(cycles@);
                let ghost fprev = fin;
                assert(forall|x: Seq<char>| #[trigger] fin0.dom().contains(x) ==> fprev.dom().contains(x) && fprev[x] == fin0[x]);
                let Ghost(res) = find_cycles(graph, dep.as_str(), visited, path, cycles, Ghost(fin), Ghost(clock));
                proof {
                    fin = res.0;
                    clock = res.1;
                    assert forall|x: Seq<char>| fin0.dom().contains(x) implies fin.dom().contains(x) && fin[x] == fin0[x] by {
                        assert(fprev.dom().contains(x));
                    }
                    assert forall|i: int| 0 <= i < c0.len() implies cycle_views(cycles@)[i] == c0[i] by {
                        assert(cb[i] == c0[i]);
                    }
                    assert(strs(*visited).contains(node@)) by {
                        assert(strs(*path)[p0.len() as int] == node@);
                    }
                    assert forall|x: Seq<char>| v0.contains(x) implies strs(*visited).contains(x) by {
                        if p0.contains(x) {
                            let j = choose|j: int| 0 <= j < p0.len() && p0[j] == x;
                            assert(strs(*path)[j] == x);
                        }
                    }
                    if !fin.dom().contains(node@) {
                    } else {
                        assert(strs(*path)[p0.len() as int] == node@);
                    }
                }
            } else {
                let found = position_str(path, dep.as_str());
                if let Some(pos) = found {
                    let cyc = copy_suffix(path, pos);
                    let ghost cb = cycle_views(cycles@);
                    proof {
                        let c = strs(cyc);
                        let p = strs(*path);
                        assert(c.len() > 0);
                        assert forall|q: int| #![trigger c[q]] 0 <= q < c.len() - 1 implies is_dep(graph@, c[q], c[q + 1]) by {
                            assert(c[q] == p[pos + q]);
                            assert(c[q + 1] == p[pos + q + 1]);
                        }
                        assert(c.last() == node@);
                        assert(c[0] == dep@);
                        assert(is_cycle(graph@, c));
                    }
                    cycles.push(cyc);
                    proof {
                        assert(cycle_views(cycles@) =~= cb.push(strs(cycles@.last())));
                    }
                } else {
                    proof {
                        assert(strs(*visited).contains(dep@));
                        assert(!strs(*path).contains(dep@));
                    }
                }
            }
            k = k + 1;
        }
    }
    let ghost pb = strs(*path);
    assert(pb == p0.push(node@));
    path.pop();
    proof {
        assert(strs(*path) =~= pb.drop_last());
        assert(strs(*path) =~= p0);
        if cycles@.len() == 0 {
            assert(c0.len() == 0);
            assert forall|v: Seq<char>| is_dep(graph@, node@, v) implies fin.dom().contains(v) by {
                if let Some(t) = lookup_task(graph@, node@) {
                    let j = choose|j: int| 0 <= j < t.blocked_by.len() && t.blocked_by[j] == v;
                }
            }
            lemma_closed_extend(graph@, fin, node@, clock);
        }
        let f2 = fin.insert(node@, clock);
        assert forall|x: Seq<char>| strs(*visited).contains(x) <==> (strs(*path).contains(x) || f2.dom().contains(x)) by {
            lemma_push_contains(p0, node@, x);
        }
        assert forall|x: Seq<char>| strs(*path).contains(x) implies !f2.dom().contains(x) by {
            lemma_push_contains(p0, node@, x);
        }
        assert forall|k: int| #![trigger strs(*path)[k]] 0 <= k < strs(*path).len() - 1 implies is_dep(
            graph@,
            strs(*path)[k],
            strs(*path)[k + 1],
        ) by {
            assert(p0.push(node@)[k] == p0[k]);
            assert(p0.push(node@)[k + 1] == p0[k + 1]);
        }
        assert forall|i: int, j: int| 0 <= i < j < strs(*path).len() implies strs(*path)[i] != strs(*path)[j] by {
            assert(p0.push(node@)[i] == p0[i]);
            assert(p0.push(node@)[j] == p0[j]);
        }
        fin = f2;
        clock = clock + 1;
    }
    Ghost((fin, clock))
}

/// Report cycles among `blocked_by` dependencies.
///
/// The cycles are those the depth-first search records, starting from each
/// task in node order; every reported list is a cycle of distinct tasks, and
/// nothing is reported exactly when the dependencies are acyclic.
pub fn check_cycles(graph: &WorkGraph) -> (r: Vec<Vec<String>>)
    ensures
        cycle_views(r@) == dfs_cycles(graph@),
        forall|i: int| 0 <= i < r@.len() ==> is_cycle(graph@, #[trigger] cycle_views(r@)[i]),
        forall|i: int| 0 <= i < r@.len() ==> (#[trigger] cycle_views(r@)[i]).no_duplicates(),
        r@.len() == 0 ==> acyclic(graph@),
{
    let mut cycles: Vec<Vec<String>> = Vec::new();
    let mut visited: Vec<String> = Vec::new();
    let mut path: Vec<String> = Vec::new();
    let ghost mut fin: Map<Seq<char>, int> = Map::empty();
    let ghost mut clock: int = 0;
    proof {
        assert(strs(visited) =~= Seq::empty());
        assert(strs(path) =~= Seq::empty());
        assert(cycle_views(cycles@) =~= Seq::empty());
        assert(dfs_state(strs(visited), strs(path), cycle_views(cycles@)) == dfs_from(graph@, 0));
    }
    let mut i: usize = 0;
    while i < graph.nodes.len()
        invariant
            i <= graph.nodes.len(),
            graph@.len() == graph.nodes.len(),
            dfs_inv(graph@, strs(visited), strs(path), fin, clock, cycle_views(cycles@)),
            strs(path) == Seq::<Seq<char>>::empty(),
            forall|j: int| 0 <= j < i && graph@[j] is Task ==> strs(visited).contains(node_id(#[trigger] graph@[j])),
            dfs_state(strs(visited), strs(path), cycle_views(cycles@)) == dfs_from(graph@, i as int),
        decreases graph.nodes.len() - i,
    {
        assert(graph@[i as int] == graph.nodes@[i as int]@);
        if let Node::Task(task) = &graph.nodes[i] {
            if !contains_str(&visited, task.id.as_str()) {
                let ghost vb = strs(visited);
                let Ghost(res) = find_cycles(graph, task.id.as_str(), &mut visited, &mut path, &mut cycles, Ghost(fin), Ghost(clock));
                proof {
                    fin = res.0;
                    clock = res.1;
                    assert forall|j: int| 0 <= j < i && graph@[j] is Task implies strs(visited).contains(node_id(#[trigger] graph@[j])) by {
                        assert(vb.contains(node_id(graph@[j])));
                    }
                }
            }
        }
        i = i + 1;
    }
    proof {
        if cycles@.len() == 0 {
            assert forall|u: Seq<char>| lookup_task(graph@, u) is Some implies fin.dom().contains(u) by {
                crate::graph::lemma_find_node(graph@, u);
                let j = find_node(graph@, u)->0;
                assert(graph@[j] is Task);
                assert(strs(visited).contains(node_id(graph@[j])));
                assert(!strs(path).contains(u));
            }
            lemma_ranked_acyclic(graph@, fin);
        }
    }
    cycles
}

// ---------------------------------------------------------------------------
// Summary
// ---------------------------------------------------------------------------

/// Result of checking the graph for issues.
#[derive(Debug)]
pub struct CheckResult {
    pub cycles: Vec<Vec<String>>,
    pub orphan_refs: Vec<OrphanRef>,
    pub loop_edge_issues: Vec<LoopEdgeIssue>,
    pub ok: bool,
}

/// Run all checks. Loop edges may form cycles on purpose; only `blocked_by`
/// cycles, dangling references and loop-edge issues make the graph invalid.
pub fn check_all(graph: &WorkGraph) -> (r: CheckResult)
    ensures
        forall|i: int| 0 <= i < r.cycles@.len() ==> is_cycle(graph@, #[trigger] cycle_views(r.cycles@)[i]),
        r.cycles@.len() == 0 <==> acyclic(graph@),
        cycle_views(r.cycles@) == dfs_cycles(graph@),
        forall|i: int| 0 <= i < r.cycles@.len() ==> (#[trigger] cycle_views(r.cycles@)[i]).no_duplicates(),
        views(r.orphan_refs@) == orphans_in(graph@, graph@),
        views(r.loop_edge_issues@) == loop_issues_in(graph@, graph@),
        r.ok == (acyclic(graph@) && orphans_in(graph@, graph@).len() == 0 && loop_issues_in(graph@, graph@).len() == 0),
{
    let cycles = check_cycles(graph);
    let orphan_refs = check_orphans(graph);
    let loop_edge_issues = check_loop_edges(graph);
    proof {
        if cycles@.len() > 0 {
            assert(is_cycle(graph@, cycle_views(cycles@)[0]));
        }
    }
    let ok = cycles.len() == 0 && orphan_refs.len() == 0 && loop_edge_issues.len() == 0;
    CheckResult { cycles, orphan_refs, loop_edge_issues, ok }
}

} // verus!
