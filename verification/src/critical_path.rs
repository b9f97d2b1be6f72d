//! The dependency structure among active tasks, as the critical-path analysis
//! sees it: cycles among unfinished tasks, and the forward index and entry
//! points of the unfinished tasks outside those cycles.
use vstd::prelude::*;
use crate::graph::{
    Node, NodeView, Task, TaskView, WorkGraph, blank_task, find_node, lookup_node, lookup_task,
    node_id, status_is_terminal, strs,
};
use crate::check::{acyclic, check_cycles, cycle_views, is_cycle, is_dep};
use crate::deps::{ReverseIndex, build_reverse_index, indexes};
use crate::text::contains_str;

verus! {

/// `x` names a task that is not finished.
pub open spec fn active(nodes: Seq<NodeView>, x: Seq<char>) -> bool {
    match lookup_task(nodes, x) {
        Some(t) => !status_is_terminal(t.status),
        None => false,
    }
}

/// `x` names an unfinished task that is not among `skip`.
pub open spec fn keepable(nodes: Seq<NodeView>, skip: Seq<Seq<char>>, x: Seq<char>) -> bool {
    active(nodes, x) && !skip.contains(x)
}

/// The ids among `bs` that are keepable, in order.
pub open spec fn kept_ids(nodes: Seq<NodeView>, skip: Seq<Seq<char>>, bs: Seq<Seq<char>>) -> Seq<Seq<char>>
    decreases bs.len(),
{
    if bs.len() == 0 {
        Seq::empty()
    } else {
        kept_ids(nodes, skip, bs.drop_last()) + if keepable(nodes, skip, bs.last()) {
            seq![bs.last()]
        } else {
            Seq::empty()
        }
    }
}

/// Node `j` is the task stored under its id and is keepable.
pub open spec fn included(nodes: Seq<NodeView>, skip: Seq<Seq<char>>, j: int) -> bool {
    0 <= j < nodes.len() && match nodes[j] {
        NodeView::Task(t) => keepable(nodes, skip, t.id) && find_node(nodes, t.id) == Some(j),
        NodeView::Resource(_) => false,
    }
}

/// A task reduced to its id, title, status and keepable blockers.
pub open spec fn slim(nodes: Seq<NodeView>, skip: Seq<Seq<char>>, t: TaskView) -> NodeView {
    NodeView::Task(
        TaskView { status: t.status, blocked_by: kept_ids(nodes, skip, t.blocked_by), ..blank_task(t.id, t.title) },
    )
}

/// The slim forms of the included nodes among the first `n`, in order.
pub open spec fn sub_upto(nodes: Seq<NodeView>, skip: Seq<Seq<char>>, n: int) -> Seq<NodeView>
    decreases n,
{
    if n <= 0 {
        Seq::empty()
    } else {
        sub_upto(nodes, skip, n - 1) + if included(nodes, skip, n - 1) {
            seq![slim(nodes, skip, nodes[n - 1]->Task_0)]
        } else {
            Seq::empty()
        }
    }
}

/// The graph of keepable tasks and the dependencies among them.
pub open spec fn restricted(nodes: Seq<NodeView>, skip: Seq<Seq<char>>) -> Seq<NodeView> {
    sub_upto(nodes, skip, nodes.len() as int)
}

proof fn lemma_find_push(s: Seq<NodeView>, x: NodeView, a: Seq<char>)
    ensures
        find_node(s.push(x), a) == match find_node(s, a) {
            Some(i) => Some(i),
            None => if node_id(x) == a {
                Some(s.len() as int)
            } else {
                None
            },
        },
{
    assert(s.push(x).drop_last() =~= s);
}

/// Whether `a` is found among the first `n` nodes at an included position.
pub open spec fn found_upto(nodes: Seq<NodeView>, skip: Seq<Seq<char>>, a: Seq<char>, n: int) -> bool {
    match find_node(nodes, a) {
        Some(j) => j < n && included(nodes, skip, j),
        None => false,
    }
}

proof fn lemma_lookup_sub(nodes: Seq<NodeView>, skip: Seq<Seq<char>>, a: Seq<char>, n: int)
    requires
        0 <= n <= nodes.len(),
    ensures
        lookup_node(sub_upto(nodes, skip, n), a) == if found_upto(nodes, skip, a, n) {
            Some(slim(nodes, skip, nodes[find_node(nodes, a)->0]->Task_0))
        } else {
            None::<NodeView>
        },
    decreases n,
{
    crate::graph::lemma_find_node(nodes, a);
    if n == 0 {
        assert(sub_upto(nodes, skip, 0) =~= Seq::<NodeView>::empty());
    } else {
        lemma_lookup_sub(nodes, skip, a, n - 1);
        let prev = sub_upto(nodes, skip, n - 1);
        if included(nodes, skip, n - 1) {
            let t = nodes[n - 1]->Task_0;
            let x = slim(nodes, skip, t);
            assert(sub_upto(nodes, skip, n) =~= prev.push(x));
            lemma_find_push(prev, x, a);
            crate::graph::lemma_find_node(prev, a);
            match find_node(prev, a) {
                Some(i) => {
                    assert(prev.push(x)[i] == prev[i]);
                },
                None => {
                    if t.id == a {
                        assert(find_node(nodes, a) == Some(n - 1));
                    } else {
                        if found_upto(nodes, skip, a, n) {
                            let j = find_node(nodes, a)->0;
                            assert(node_id(nodes[j]) == a);
                            assert(j != n - 1);
                        }
                    }
                },
            }
        } else {
            assert(sub_upto(nodes, skip, n) =~= prev);
        }
    }
}

proof fn lemma_kept_ids(nodes: Seq<NodeView>, skip: Seq<Seq<char>>, bs: Seq<Seq<char>>, b: Seq<char>)
    ensures
        kept_ids(nodes, skip, bs).contains(b) <==> (bs.contains(b) && keepable(nodes, skip, b)),
    decreases bs.len(),
{
    if bs.len() > 0 {
        let rest = kept_ids(nodes, skip, bs.drop_last());
        lemma_kept_ids(nodes, skip, bs.drop_last(), b);
        let tail: Seq<Seq<char>> = if keepable(nodes, skip, bs.last()) {
            seq![bs.last()]
        } else {
            Seq::empty()
        };
        assert(kept_ids(nodes, skip, bs) == rest + tail);
        if (rest + tail).contains(b) {
            let k = choose|k: int| 0 <= k < (rest + tail).len() && (rest + tail)[k] == b;
            if k < rest.len() {
                assert(rest[k] == b);
                let m = choose|m: int| 0 <= m < bs.drop_last().len() && bs.drop_last()[m] == b;
                assert(bs[m] == b);
            } else {
                assert(bs[bs.len() - 1] == b);
            }
        }
        if bs.contains(b) && keepable(nodes, skip, b) {
            let m = choose|m: int| 0 <= m < bs.len() && bs[m] == b;
            if m < bs.len() - 1 {
                assert(bs.drop_last()[m] == b);
                let k = choose|k: int| 0 <= k < rest.len() && rest[k] == b;
                assert((rest + tail)[k] == b);
            } else {
                assert((rest + tail)[rest.len() as int] == b);
            }
        }
    }
}

/// In the restricted graph, `a` is blocked by `b` exactly when it is in the
/// full graph and both are keepable.
pub proof fn law_restricted_edges(nodes: Seq<NodeView>, skip: Seq<Seq<char>>, a: Seq<char>, b: Seq<char>)
    ensures
        is_dep(restricted(nodes, skip), a, b) <==> (is_dep(nodes, a, b) && keepable(nodes, skip, a)
            && keepable(nodes, skip, b)),
{
    lemma_lookup_sub(nodes, skip, a, nodes.len() as int);
    crate::graph::lemma_find_node(nodes, a);
    let r = restricted(nodes, skip);
    if found_upto(nodes, skip, a, nodes.len() as int) {
        let j = find_node(nodes, a)->0;
        let t = nodes[j]->Task_0;
        assert(lookup_task(nodes, a) == Some(t));
        assert(lookup_task(r, a) == Some(slim(nodes, skip, t)->Task_0));
        lemma_kept_ids(nodes, skip, t.blocked_by, b);
    } else {
        assert(lookup_task(r, a) is None);
        if keepable(nodes, skip, a) {
            let j = find_node(nodes, a)->0;
            assert(nodes[j] is Task);
            assert(node_id(nodes[j]) == a);
        }
    }
}

/// A cycle of the full graph runs through keepable tasks only exactly when it
/// is a cycle of the restricted graph.
pub proof fn law_restricted_cycles(nodes: Seq<NodeView>, skip: Seq<Seq<char>>, c: Seq<Seq<char>>)
    ensures
        is_cycle(restricted(nodes, skip), c) <==> (is_cycle(nodes, c) && forall|k: int|
            0 <= k < c.len() ==> keepable(nodes, skip, #[trigger] c[k])),
{
    let r = restricted(nodes, skip);
    if is_cycle(r, c) {
        assert forall|k: int| #![trigger c[k]] 0 <= k < c.len() - 1 implies is_dep(nodes, c[k], c[k + 1]) by {
            assert(is_dep(r, c[k], c[k + 1]));
            law_restricted_edges(nodes, skip, c[k], c[k + 1]);
        }
        law_restricted_edges(nodes, skip, c.last(), c[0]);
        assert forall|k: int| 0 <= k < c.len() implies keepable(nodes, skip, #[trigger] c[k]) by {
            if k < c.len() - 1 {
                assert(is_dep(r, c[k], c[k + 1]));
                law_restricted_edges(nodes, skip, c[k], c[k + 1]);
            }
        }
    }
    if is_cycle(nodes, c) && forall|k: int| 0 <= k < c.len() ==> keepable(nodes, skip, #[trigger] c[k]) {
        assert forall|k: int| #![trigger c[k]] 0 <= k < c.len() - 1 implies is_dep(r, c[k], c[k + 1]) by {
            assert(is_dep(nodes, c[k], c[k + 1]));
            assert(keepable(nodes, skip, c[k]));
            assert(keepable(nodes, skip, c[k + 1]));
            law_restricted_edges(nodes, skip, c[k], c[k + 1]);
        }
        assert(keepable(nodes, skip, c[c.len() - 1]));
        assert(keepable(nodes, skip, c[0]));
        law_restricted_edges(nodes, skip, c.last(), c[0]);
    }
}

fn keepable_id(graph: &WorkGraph, skip: &Vec<String>, x: &str) -> (r: bool)
    ensures
        r == keepable(graph@, strs(*skip), x@),
{
    match graph.get_task(x) {
        Some(t) => !t.status.is_terminal() && !contains_str(skip, x),
        None => false,
    }
}

fn keep_blockers(graph: &WorkGraph, skip: &Vec<String>, bs: &Vec<String>) -> (r: Vec<String>)
    ensures
        strs(r) == kept_ids(graph@, strs(*skip), strs(*bs)),
{
    let ghost b = strs(*bs);
    let mut out: Vec<String> = Vec::new();
    let mut k: usize = 0;
    proof {
        assert(strs(out) =~= kept_ids(graph@, strs(*skip), b.take(0)));
    }
    while k < bs.len()
        invariant
            k <= bs.len(),
            b == strs(*bs),
            strs(out) == kept_ids(graph@, strs(*skip), b.take(k as int)),
        decreases bs.len() - k,
    {
        proof {
            assert(b.take(k + 1).drop_last() =~= b.take(k as int));
            assert(b.take(k + 1).last() == bs@[k as int]@);
        }
        if keepable_id(graph, skip, bs[k].as_str()) {
            let ghost before = strs(out);
            out.push(bs[k].clone());
            assert(strs(out) =~= before.push(bs@[k as int]@));
        }
        k = k + 1;
    }
    assert(b.take(bs.len() as int) =~= b);
    out
}

/// The graph of unfinished tasks outside `skip`, each reduced to its id,
/// title, status and the blockers that are themselves kept.
pub fn restrict(graph: &WorkGraph, skip: &Vec<String>) -> (r: WorkGraph)
    ensures
        r@ == restricted(graph@, strs(*skip)),
{
    let ghost nodes = graph@;
    let ghost sk = strs(*skip);
    let mut out: Vec<Node> = Vec::new();
    let mut j: usize = 0;
    proof {
        assert(out@.map_values(|n: Node| n@) =~= sub_upto(nodes, sk, 0));
    }
    while j < graph.nodes.len()
        invariant
            j <= graph.nodes.len(),
            nodes == graph@,
            sk == strs(*skip),
            nodes.len() == graph.nodes.len(),
            out@.map_values(|n: Node| n@) == sub_upto(nodes, sk, j as int),
        decreases graph.nodes.len() - j,
    {
        assert(nodes[j as int] == graph.nodes@[j as int]@);
        let ghost before = out@.map_values(|n: Node| n@);
        let mut pushed = false;
        if let Node::Task(t) = &graph.nodes[j] {
            if keepable_id(graph, skip, t.id.as_str()) {
                if let Some(p) = graph.find(t.id.as_str()) {
                    if p == j {
                        let mut nt = Task::new(t.id.as_str(), t.title.as_str());
                        nt.status = t.status;
                        nt.blocked_by = keep_blockers(graph, skip, &t.blocked_by);
                        out.push(Node::Task(nt));
                        pushed = true;
                        proof {
                            assert(included(nodes, sk, j as int));
                            assert(out@.map_values(|n: Node| n@) =~= before.push(
                                slim(nodes, sk, nodes[j as int]->Task_0),
                            ));
                        }
                    }
                }
            }
        }
        proof {
            if !pushed {
                assert(!included(nodes, sk, j as int));
                assert(out@.map_values(|n: Node| n@) =~= before);
            }
        }
        j = j + 1;
    }
    WorkGraph { nodes: out }
}

/// A cycle of `blocked_by` edges that runs through unfinished tasks only.
pub open spec fn is_active_cycle(nodes: Seq<NodeView>, c: Seq<Seq<char>>) -> bool {
    is_cycle(nodes, c) && forall|k: int| 0 <= k < c.len() ==> active(nodes, #[trigger] c[k])
}

/// Find the cycles among unfinished tasks. Every reported list is such a
/// cycle, and nothing is reported exactly when there is none.
pub fn detect_cycles_among_active(graph: &WorkGraph) -> (r: Vec<Vec<String>>)
    ensures
        forall|i: int| 0 <= i < r@.len() ==> is_active_cycle(graph@, #[trigger] cycle_views(r@)[i]),
        r@.len() == 0 <==> forall|c: Seq<Seq<char>>| !is_active_cycle(graph@, c),
{
    let none: Vec<String> = Vec::new();
    let ghost sk = strs(none);
    assert(sk =~= Seq::<Seq<char>>::empty());
    let sub = restrict(graph, &none);
    let cycles = check_cycles(&sub);
    proof {
        assert forall|c: Seq<Seq<char>>| is_cycle(sub@, c) <==> is_active_cycle(graph@, c) by {
            law_restricted_cycles(graph@, sk, c);
            if is_active_cycle(graph@, c) {
                assert forall|k: int| 0 <= k < c.len() implies keepable(graph@, sk, #[trigger] c[k]) by {
                    assert(active(graph@, c[k]));
                }
            }
            if is_cycle(sub@, c) {
                assert forall|k: int| 0 <= k < c.len() implies active(graph@, #[trigger] c[k]) by {
                    assert(keepable(graph@, sk, c[k]));
                }
            }
        }
        if cycles@.len() > 0 {
            assert(is_cycle(sub@, cycle_views(cycles@)[0]));
        }
    }
    cycles
}

/// Every id on one of the cycles, each once, in order of first appearance.
pub open spec fn cycle_members(cycles: Seq<Seq<Seq<char>>>) -> Seq<Seq<char>>
    decreases cycles.len(),
{
    if cycles.len() == 0 {
        Seq::empty()
    } else {
        let prev = cycle_members(cycles.drop_last());
        prev + new_ids(prev, cycles.last())
    }
}

/// The ids of `c` that are not in `seen`, each once, in order.
pub open spec fn new_ids(seen: Seq<Seq<char>>, c: Seq<Seq<char>>) -> Seq<Seq<char>>
    decreases c.len(),
{
    if c.len() == 0 {
        Seq::empty()
    } else {
        let prev = new_ids(seen, c.drop_last());
        if seen.contains(c.last()) || prev.contains(c.last()) {
            prev
        } else {
            prev.push(c.last())
        }
    }
}

/// The ids that lie on any of `cycles`, each once.
pub fn collect_cycle_nodes(cycles: &Vec<Vec<String>>) -> (r: Vec<String>)
    ensures
        strs(r) == cycle_members(cycle_views(cycles@)),
{
    let ghost cv = cycle_views(cycles@);
    let mut out: Vec<String> = Vec::new();
    let mut i: usize = 0;
    proof {
        assert(strs(out) =~= cycle_members(cv.take(0)));
    }
    while i < cycles.len()
        invariant
            i <= cycles.len(),
            cv == cycle_views(cycles@),
            strs(out) == cycle_members(cv.take(i as int)),
        decreases cycles.len() - i,
    {
        let ghost seen = strs(out);
        let c = &cycles[i];
        let ghost cs = strs(*c);
        assert(cv[i as int] == cs);
        let mut k: usize = 0;
        proof {
            assert(strs(out) =~= seen + new_ids(seen, cs.take(0)));
        }
        while k < c.len()
            invariant
                k <= c.len(),
                cs == strs(*c),
                strs(out) == seen + new_ids(seen, cs.take(k as int)),
            decreases c.len() - k,
        {
            let ghost prev = new_ids(seen, cs.take(k as int));
            proof {
                assert(cs.take(k + 1).drop_last() =~= cs.take(k as int));
                assert(cs.take(k + 1).last() == c@[k as int]@);
            }
            let x = c[k].as_str();
            if !contains_str(&out, x) {
                proof {
                    assert(!seen.contains(x@)) by {
                        if seen.contains(x@) {
                            let m = choose|m: int| 0 <= m < seen.len() && seen[m] == x@;
                            assert((seen + prev)[m] == x@);
                        }
                    }
                    assert(!prev.contains(x@)) by {
                        if prev.contains(x@) {
                            let m = choose|m: int| 0 <= m < prev.len() && prev[m] == x@;
                            assert((seen + prev)[seen.len() + m] == x@);
                        }
                    }
                }
                let ghost before = strs(out);
                out.push(c[k].clone());
                assert(strs(out) =~= before.push(x@));
                assert(strs(out) =~= seen + prev.push(x@));
            } else {
                proof {
                    let m = choose|m: int| 0 <= m < (seen + prev).len() && (seen + prev)[m] == x@;
                    if m < seen.len() {
                        assert(seen[m] == x@);
                    } else {
                        assert(prev[m - seen.len()] == x@);
                    }
                }
            }
            k = k + 1;
        }
        proof {
            assert(cs.take(c.len() as int) =~= cs);
            assert(cv.take(i + 1).drop_last() =~= cv.take(i as int));
            assert(cv.take(i + 1).last() == cs);
        }
        i = i + 1;
    }
    assert(cv.take(cycles.len() as int) =~= cv);
    out
}

/// For each unfinished task outside `cycle_nodes`, the unfinished tasks
/// outside them that it blocks.
pub fn build_forward_index(graph: &WorkGraph, cycle_nodes: &Vec<String>) -> (r: ReverseIndex)
    ensures
        indexes(r@, restricted(graph@, strs(*cycle_nodes))),
{
    let sub = restrict(graph, cycle_nodes);
    build_reverse_index(&sub)
}

/// The entry points of the restricted graph: its tasks with no kept blocker.
pub open spec fn entries_upto(nodes: Seq<NodeView>, k: int) -> Seq<Seq<char>>
    decreases k,
{
    if k <= 0 {
        Seq::empty()
    } else {
        entries_upto(nodes, k - 1) + match nodes[k - 1] {
            NodeView::Task(t) => if t.blocked_by.len() == 0 {
                seq![t.id]
            } else {
                Seq::empty()
            },
            NodeView::Resource(_) => Seq::empty(),
        }
    }
}

/// The unfinished tasks outside `cycle_nodes` that wait on no unfinished task
/// outside them, in graph order.
pub fn entry_points(graph: &WorkGraph, cycle_nodes: &Vec<String>) -> (r: Vec<String>)
    ensures
        strs(r) == entries_upto(
            restricted(graph@, strs(*cycle_nodes)),
            restricted(graph@, strs(*cycle_nodes)).len() as int,
        ),
        forall|x: Seq<char>| #[trigger] strs(r).contains(x) <==> (keepable(graph@, strs(*cycle_nodes), x)
            && forall|b: Seq<char>| is_dep(graph@, x, b) ==> !#[trigger] keepable(graph@, strs(*cycle_nodes), b)),
{
    let sub = restrict(graph, cycle_nodes);
    let ghost s = sub@;
    let mut out: Vec<String> = Vec::new();
    let mut i: usize = 0;
    proof {
        assert(strs(out) =~= entries_upto(s, 0));
    }
    while i < sub.nodes.len()
        invariant
            i <= sub.nodes.len(),
            s == sub@,
            s.len() == sub.nodes.len(),
            strs(out) == entries_upto(s, i as int),
        decreases sub.nodes.len() - i,
    {
        assert(s[i as int] == sub.nodes@[i as int]@);
        let ghost before = strs(out);
        if let Node::Task(t) = &sub.nodes[i] {
            if t.blocked_by.len() == 0 {
                out.push(t.id.clone());
                assert(strs(out) =~= before.push(t.id@));
            }
        }
        i = i + 1;
    }
    proof {
        assert forall|x: Seq<char>| #[trigger] strs(out).contains(x) <==> (keepable(graph@, strs(*cycle_nodes), x)
            && forall|b: Seq<char>| is_dep(graph@, x, b) ==> !#[trigger] keepable(graph@, strs(*cycle_nodes), b)) by {
            law_entry_points(graph@, strs(*cycle_nodes), x);
        }
    }
    out
}

proof fn lemma_entries_contains(s: Seq<NodeView>, k: int, x: Seq<char>)
    requires
        0 <= k <= s.len(),
    ensures
        entries_upto(s, k).contains(x) <==> exists|i: int| 0 <= i < k && #[trigger] s[i] is Task
            && s[i]->Task_0.id == x && s[i]->Task_0.blocked_by.len() == 0,
    decreases k,
{
    if k > 0 {
        lemma_entries_contains(s, k - 1, x);
        let prev = entries_upto(s, k - 1);
        let tail: Seq<Seq<char>> = match s[k - 1] {
            NodeView::Task(t) => if t.blocked_by.len() == 0 {
                seq![t.id]
            } else {
                Seq::empty()
            },
            NodeView::Resource(_) => Seq::empty(),
        };
        assert(entries_upto(s, k) == prev + tail);
        if (prev + tail).contains(x) {
            let m = choose|m: int| 0 <= m < (prev + tail).len() && (prev + tail)[m] == x;
            if m < prev.len() {
                assert(prev[m] == x);
            } else {
                assert(s[k - 1] is Task);
            }
        }
        if exists|i: int| 0 <= i < k && #[trigger] s[i] is Task && s[i]->Task_0.id == x
            && s[i]->Task_0.blocked_by.len() == 0 {
            let i = choose|i: int| 0 <= i < k && #[trigger] s[i] is Task && s[i]->Task_0.id == x
                && s[i]->Task_0.blocked_by.len() == 0;
            if i < k - 1 {
                let m = choose|m: int| 0 <= m < prev.len() && prev[m] == x;
                assert((prev + tail)[m] == x);
            } else {
                assert((prev + tail)[prev.len() as int] == x);
            }
        }
    } else {
        assert(entries_upto(s, 0) =~= Seq::<Seq<char>>::empty());
    }
}

proof fn lemma_sub_elements(nodes: Seq<NodeView>, skip: Seq<Seq<char>>, n: int, i: int)
    requires
        0 <= n <= nodes.len(),
        0 <= i < sub_upto(nodes, skip, n).len(),
    ensures
        exists|j: int| 0 <= j < n && included(nodes, skip, j)
            && sub_upto(nodes, skip, n)[i] == slim(nodes, skip, #[trigger] nodes[j]->Task_0),
    decreases n,
{
    let prev = sub_upto(nodes, skip, n - 1);
    if included(nodes, skip, n - 1) {
        let x = slim(nodes, skip, nodes[n - 1]->Task_0);
        assert(sub_upto(nodes, skip, n) =~= prev.push(x));
        if i < prev.len() {
            lemma_sub_elements(nodes, skip, n - 1, i);
        } else {
            assert(sub_upto(nodes, skip, n)[i] == slim(nodes, skip, nodes[n - 1]->Task_0));
        }
    } else {
        assert(sub_upto(nodes, skip, n) =~= prev);
        lemma_sub_elements(nodes, skip, n - 1, i);
    }
}

/// The entry points are exactly the unfinished tasks outside `skip` none of
/// whose blockers is an unfinished task outside `skip`, whatever unfinished
/// status they have.
pub proof fn law_entry_points(nodes: Seq<NodeView>, skip: Seq<Seq<char>>, x: Seq<char>)
    ensures
        entries_upto(restricted(nodes, skip), restricted(nodes, skip).len() as int).contains(x) <==> (
        keepable(nodes, skip, x) && forall|b: Seq<char>| is_dep(nodes, x, b) ==> !#[trigger] keepable(
            nodes,
            skip,
            b,
        )),
{
    let r = restricted(nodes, skip);
    let n = nodes.len() as int;
    lemma_entries_contains(r, r.len() as int, x);
    crate::graph::lemma_find_node(nodes, x);
    if entries_upto(r, r.len() as int).contains(x) {
        let i = choose|i: int| 0 <= i < r.len() && #[trigger] r[i] is Task && r[i]->Task_0.id == x
            && r[i]->Task_0.blocked_by.len() == 0;
        lemma_sub_elements(nodes, skip, n, i);
        let j = choose|j: int| 0 <= j < n && included(nodes, skip, j)
            && sub_upto(nodes, skip, n)[i] == slim(nodes, skip, #[trigger] nodes[j]->Task_0);
        let t = nodes[j]->Task_0;
        assert(t.id == x);
        assert(find_node(nodes, x) == Some(j));
        assert(lookup_task(nodes, x) == Some(t));
        assert forall|b: Seq<char>| is_dep(nodes, x, b) implies !#[trigger] keepable(nodes, skip, b) by {
            lemma_kept_ids(nodes, skip, t.blocked_by, b);
            if keepable(nodes, skip, b) {
                assert(kept_ids(nodes, skip, t.blocked_by).contains(b));
                assert(kept_ids(nodes, skip, t.blocked_by).len() == 0);
            }
        }
    }
    if keepable(nodes, skip, x) && forall|b: Seq<char>| is_dep(nodes, x, b) ==> !#[trigger] keepable(
        nodes,
        skip,
        b,
    ) {
        let j = find_node(nodes, x)->0;
        let t = nodes[j]->Task_0;
        assert(lookup_task(nodes, x) == Some(t));
        assert(included(nodes, skip, j));
        lemma_lookup_sub(nodes, skip, x, n);
        assert(found_upto(nodes, skip, x, n));
        assert(lookup_node(r, x) == Some(slim(nodes, skip, t)));
        crate::graph::lemma_find_node(r, x);
        let i = find_node(r, x)->0;
        let kept = kept_ids(nodes, skip, t.blocked_by);
        if kept.len() > 0 {
            let b = kept[0];
            assert(kept.contains(b));
            lemma_kept_ids(nodes, skip, t.blocked_by, b);
            assert(is_dep(nodes, x, b));
        }
        assert(r[i] is Task && r[i]->Task_0.id == x && r[i]->Task_0.blocked_by.len() == 0);
    }
}

proof fn lemma_sub_ordered(nodes: Seq<NodeView>, skip: Seq<Seq<char>>, n: int, i1: int, i2: int)
    requires
        0 <= n <= nodes.len(),
        0 <= i1 < i2 < sub_upto(nodes, skip, n).len(),
    ensures
        find_node(nodes, node_id(sub_upto(nodes, skip, n)[i1])) matches Some(j1)
            && find_node(nodes, node_id(sub_upto(nodes, skip, n)[i2])) matches Some(j2) && j1 < j2,
    decreases n,
{
    let prev = sub_upto(nodes, skip, n - 1);
    let cur = sub_upto(nodes, skip, n);
    lemma_sub_elements(nodes, skip, n, i1);
    lemma_sub_elements(nodes, skip, n, i2);
    if included(nodes, skip, n - 1) {
        assert(cur =~= prev.push(slim(nodes, skip, nodes[n - 1]->Task_0)));
        if i2 < prev.len() {
            lemma_sub_ordered(nodes, skip, n - 1, i1, i2);
            assert(cur[i1] == prev[i1]);
            assert(cur[i2] == prev[i2]);
        } else {
            assert(cur[i1] == prev[i1]);
            lemma_sub_elements(nodes, skip, n - 1, i1);
            let j1 = choose|j: int| 0 <= j < n - 1 && included(nodes, skip, j)
                && prev[i1] == slim(nodes, skip, #[trigger] nodes[j]->Task_0);
            assert(node_id(cur[i1]) == nodes[j1]->Task_0.id);
            assert(find_node(nodes, node_id(cur[i1])) == Some(j1));
            assert(node_id(cur[i2]) == nodes[n - 1]->Task_0.id);
            assert(find_node(nodes, node_id(cur[i2])) == Some(n - 1));
        }
    } else {
        assert(cur =~= prev);
        lemma_sub_ordered(nodes, skip, n - 1, i1, i2);
    }
}

proof fn lemma_entries_ordered(s: Seq<NodeView>, k: int, a: int, b: int)
    requires
        0 <= k <= s.len(),
        0 <= a < b < entries_upto(s, k).len(),
    ensures
        exists|i1: int, i2: int| 0 <= i1 < i2 < k && #[trigger] s[i1] is Task && #[trigger] s[i2] is Task
            && s[i1]->Task_0.id == entries_upto(s, k)[a] && s[i2]->Task_0.id == entries_upto(s, k)[b],
    decreases k,
{
    let prev = entries_upto(s, k - 1);
    let e = entries_upto(s, k);
    let tail: Seq<Seq<char>> = match s[k - 1] {
        NodeView::Task(t) => if t.blocked_by.len() == 0 {
            seq![t.id]
        } else {
            Seq::empty()
        },
        NodeView::Resource(_) => Seq::empty(),
    };
    assert(e == prev + tail);
    if b < prev.len() {
        lemma_entries_ordered(s, k - 1, a, b);
        let (i1, i2) = choose|i1: int, i2: int| 0 <= i1 < i2 < k - 1 && #[trigger] s[i1] is Task
            && #[trigger] s[i2] is Task && s[i1]->Task_0.id == prev[a] && s[i2]->Task_0.id == prev[b];
        assert(e[a] == prev[a] && e[b] == prev[b]);
        assert(s[i1] is Task && s[i2] is Task);
    } else {
        lemma_entries_contains(s, k - 1, prev[a]);
        assert(prev.contains(prev[a]));
        let i1 = choose|i: int| 0 <= i < k - 1 && #[trigger] s[i] is Task && s[i]->Task_0.id == prev[a]
            && s[i]->Task_0.blocked_by.len() == 0;
        assert(e[a] == prev[a]);
        assert(e[b] == s[k - 1]->Task_0.id);
        assert(s[k - 1] is Task);
        assert(s[i1] is Task && s[k - 1] is Task);
    }
}

/// The entry points come in graph order, each once: of two entries, the one
/// listed first is stored first in the graph.
pub proof fn law_entry_points_in_order(nodes: Seq<NodeView>, skip: Seq<Seq<char>>, a: int, b: int)
    requires
        0 <= a < b < entries_upto(restricted(nodes, skip), restricted(nodes, skip).len() as int).len(),
    ensures
        ({
            let e = entries_upto(restricted(nodes, skip), restricted(nodes, skip).len() as int);
            find_node(nodes, e[a]) matches Some(ja) && find_node(nodes, e[b]) matches Some(jb) && ja < jb
        }),
{
    let r = restricted(nodes, skip);
    let n = nodes.len() as int;
    lemma_entries_ordered(r, r.len() as int, a, b);
    let (i1, i2) = choose|i1: int, i2: int| 0 <= i1 < i2 < r.len() && #[trigger] r[i1] is Task
        && #[trigger] r[i2] is Task && r[i1]->Task_0.id == entries_upto(r, r.len() as int)[a]
        && r[i2]->Task_0.id == entries_upto(r, r.len() as int)[b];
    lemma_sub_ordered(nodes, skip, n, i1, i2);
    assert(node_id(r[i1]) == r[i1]->Task_0.id);
    assert(node_id(r[i2]) == r[i2]->Task_0.id);
}

} // verus!
