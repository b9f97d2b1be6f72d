//! Everything a task depends on: its blockers, their blockers, and so on.
//! A task's total cost is carried by exactly these tasks.
use vstd::prelude::*;
use crate::graph::{NodeView, WorkGraph, lookup_task, strs};
use crate::deps::{missing, lemma_missing_mono, lemma_missing_strict, graph_reaches, graph_waits, lists_blocker};
use crate::graph::{find_node, node_id, unique_ids};
use crate::text::contains_str;

verus! {

/// `a` names a task that lists `b` in `blocked_by`.
pub open spec fn blocker_of(nodes: Seq<NodeView>, a: Seq<char>, b: Seq<char>) -> bool {
    match lookup_task(nodes, a) {
        Some(t) => t.blocked_by.contains(b),
        None => false,
    }
}

/// `p` is a chain of blockers that starts at a blocker of `a`.
pub open spec fn chain_up(nodes: Seq<NodeView>, a: Seq<char>, p: Seq<Seq<char>>) -> bool {
    &&& p.len() > 0
    &&& blocker_of(nodes, a, p[0])
    &&& forall|k: int| #![trigger p[k]] 0 <= k < p.len() - 1 ==> blocker_of(nodes, p[k], p[k + 1])
}

/// `a` depends on `b`, directly or through other tasks.
pub open spec fn depends_on(nodes: Seq<NodeView>, a: Seq<char>, b: Seq<char>) -> bool {
    exists|p: Seq<Seq<char>>| chain_up(nodes, a, p) && p.last() == b
}

/// Every blocker listed by any task.
pub open spec fn blocker_pool(nodes: Seq<NodeView>) -> Seq<Seq<char>>
    decreases nodes.len(),
{
    if nodes.len() == 0 {
        Seq::empty()
    } else {
        blocker_pool(nodes.drop_last()) + match nodes.last() {
            NodeView::Task(t) => t.blocked_by,
            NodeView::Resource(_) => Seq::empty(),
        }
    }
}

proof fn lemma_pool_has(nodes: Seq<NodeView>, k: int, x: Seq<char>)
    requires
        0 <= k < nodes.len(),
        nodes[k] is Task,
        nodes[k]->Task_0.blocked_by.contains(x),
    ensures
        blocker_pool(nodes).contains(x),
    decreases nodes.len(),
{
    let prev = blocker_pool(nodes.drop_last());
    if k == nodes.len() - 1 {
        let d = nodes[k]->Task_0.blocked_by;
        let m = choose|m: int| 0 <= m < d.len() && d[m] == x;
        assert(blocker_pool(nodes)[prev.len() + m] == x);
    } else {
        assert(nodes.drop_last()[k] == nodes[k]);
        lemma_pool_has(nodes.drop_last(), k, x);
        let m = choose|m: int| 0 <= m < prev.len() && prev[m] == x;
        assert(blocker_pool(nodes)[m] == x);
    }
}

proof fn lemma_blocker_in_pool(nodes: Seq<NodeView>, a: Seq<char>, b: Seq<char>)
    requires
        blocker_of(nodes, a, b),
    ensures
        blocker_pool(nodes).contains(b),
{
    crate::graph::lemma_find_node(nodes, a);
    let i = crate::graph::find_node(nodes, a)->0;
    lemma_pool_has(nodes, i, b);
}

proof fn lemma_chain_prepend(nodes: Seq<NodeView>, a: Seq<char>, d: Seq<char>, x: Seq<char>)
    requires
        blocker_of(nodes, a, d),
        depends_on(nodes, d, x),
    ensures
        depends_on(nodes, a, x),
{
    let p = choose|p: Seq<Seq<char>>| chain_up(nodes, d, p) && p.last() == x;
    let q = seq![d] + p;
    assert forall|k: int| #![trigger q[k]] 0 <= k < q.len() - 1 implies blocker_of(nodes, q[k], q[k + 1]) by {
        if k == 0 {
            assert(q[1] == p[0]);
        } else {
            assert(q[k] == p[k - 1]);
            assert(q[k + 1] == p[k]);
        }
    }
    assert(q.last() == x);
    assert(chain_up(nodes, a, q));
}

proof fn lemma_direct(nodes: Seq<NodeView>, a: Seq<char>, d: Seq<char>)
    requires
        blocker_of(nodes, a, d),
    ensures
        depends_on(nodes, a, d),
{
    let q = seq![d];
    assert(chain_up(nodes, a, q));
    assert(q.last() == d);
}

/// Add to `visited` every task that `task_id` depends on, directly or
/// through other tasks, searching depth first; a task already in `visited`
/// is not searched again.
fn collect_blockers(graph: &WorkGraph, task_id: &str, visited: &mut Vec<String>)
    requires
        strs(*old(visited)).no_duplicates(),
    ensures
        strs(*final(visited)).no_duplicates(),
        forall|x: Seq<char>| strs(*old(visited)).contains(x) ==> strs(*final(visited)).contains(x),
        forall|x: Seq<char>|
            #![trigger strs(*final(visited)).contains(x)]
            strs(*final(visited)).contains(x) && !strs(*old(visited)).contains(x) ==> depends_on(graph@, task_id@, x),
        forall|x: Seq<char>| blocker_of(graph@, task_id@, x) ==> strs(*final(visited)).contains(x),
        forall|x: Seq<char>, y: Seq<char>|
            #![trigger strs(*final(visited)).contains(x), blocker_of(graph@, x, y)]
            strs(*final(visited)).contains(x) && !strs(*old(visited)).contains(x) && blocker_of(graph@, x, y)
                ==> strs(*final(visited)).contains(y),
    decreases missing(blocker_pool(graph@), strs(*old(visited))),
{
    let ghost e = graph@;
    let ghost start = strs(*visited);
    match graph.get_task(task_id) {
        Some(t) => {
            let deps = &t.blocked_by;
            assert(forall|x: Seq<char>| blocker_of(e, task_id@, x) <==> strs(*deps).contains(x));
            let mut j: usize = 0;
            while j < deps.len()
                invariant
                    j <= deps.len(),
                    e == graph@,
                    forall|x: Seq<char>| blocker_of(e, task_id@, x) <==> strs(*deps).contains(x),
                    start == strs(*old(visited)),
                    strs(*visited).no_duplicates(),
                    forall|x: Seq<char>| start.contains(x) ==> strs(*visited).contains(x),
                    forall|x: Seq<char>|
                        #![trigger strs(*visited).contains(x)]
                        strs(*visited).contains(x) && !start.contains(x) ==> depends_on(e, task_id@, x),
                    forall|m: int| 0 <= m < j ==> strs(*visited).contains(#[trigger] strs(*deps)[m]),
                    forall|x: Seq<char>, y: Seq<char>|
                        #![trigger strs(*visited).contains(x), blocker_of(e, x, y)]
                        strs(*visited).contains(x) && !start.contains(x) && blocker_of(e, x, y)
                            ==> strs(*visited).contains(y),
                    missing(blocker_pool(e), strs(*visited)) <= missing(blocker_pool(e), start),
                decreases deps.len() - j,
            {
                let d = &deps[j];
                assert(strs(*deps)[j as int] == d@);
                assert(strs(*deps).contains(d@));
                assert(blocker_of(e, task_id@, d@));
                if !contains_str(visited, d.as_str()) {
                    assert(strs(*visited) =~= visited@.map_values(|x: String| x@));
                    let ghost mid = strs(*visited);
                    visited.push(d.clone());
                    let ghost pushed = strs(*visited);
                    assert(pushed =~= mid.push(d@));
                    proof {
                        assert(pushed.last() == d@);
                        assert(pushed.no_duplicates()) by {
                            assert forall|a: int, b: int|
                                0 <= a < pushed.len() && 0 <= b < pushed.len() && a != b implies pushed[a] != pushed[b] by {
                                if a < mid.len() && b < mid.len() {
                                    assert(pushed[a] == mid[a]);
                                    assert(pushed[b] == mid[b]);
                                } else if a == mid.len() {
                                    assert(pushed[b] == mid[b]);
                                } else {
                                    assert(pushed[a] == mid[a]);
                                }
                            }
                        }
                        assert forall|x: Seq<char>| mid.contains(x) implies pushed.contains(x) by {
                            let m = choose|m: int| 0 <= m < mid.len() && mid[m] == x;
                            assert(pushed[m] == x);
                        }
                        lemma_blocker_in_pool(e, task_id@, d@);
                        assert(!start.contains(d@));
                        lemma_missing_strict(blocker_pool(e), start, pushed, d@);
                        lemma_direct(e, task_id@, d@);
                    }
                    collect_blockers(graph, d.as_str(), visited);
                    proof {
                        let fin = strs(*visited);
                        assert(fin.contains(d@));
                        assert forall|x: Seq<char>| #![trigger fin.contains(x)] fin.contains(x) && !start.contains(x) implies depends_on(
                            e,
                            task_id@,
                            x,
                        ) by {
                            if !pushed.contains(x) {
                                assert(depends_on(e, d@, x));
                                lemma_chain_prepend(e, task_id@, d@, x);
                            } else if x != d@ {
                                let m = choose|m: int| 0 <= m < pushed.len() && pushed[m] == x;
                                assert(mid[m] == x);
                                assert(mid.contains(x));
                            } else {
                                lemma_direct(e, task_id@, d@);
                            }
                        }
                        assert forall|x: Seq<char>, y: Seq<char>|
                            #![trigger fin.contains(x), blocker_of(e, x, y)]
                            fin.contains(x) && !start.contains(x) && blocker_of(e, x, y) implies fin.contains(y) by {
                            if pushed.contains(x) && x != d@ {
                                let m = choose|m: int| 0 <= m < pushed.len() && pushed[m] == x;
                                assert(mid[m] == x);
                                assert(mid.contains(x));
                            }
                        }
                        assert forall|m: int| 0 <= m < j + 1 implies fin.contains(#[trigger] strs(*deps)[m]) by {
                            if m < j {
                                assert(mid.contains(strs(*deps)[m]));
                            }
                        }
                        lemma_missing_mono(blocker_pool(e), pushed, fin);
                        lemma_missing_mono(blocker_pool(e), mid, pushed);
                    }
                } else {
                    assert(strs(*visited) =~= visited@.map_values(|x: String| x@));
                }
                j = j + 1;
            }
            proof {
                assert forall|x: Seq<char>| blocker_of(e, task_id@, x) implies strs(*visited).contains(x) by {
                    let m = choose|m: int| 0 <= m < strs(*deps).len() && strs(*deps)[m] == x;
                }
            }
        },
        None => {},
    }
}

proof fn lemma_chain_inside(nodes: Seq<NodeView>, a: Seq<char>, vis: Seq<Seq<char>>, p: Seq<Seq<char>>, k: int)
    requires
        chain_up(nodes, a, p),
        0 <= k < p.len(),
        forall|x: Seq<char>| blocker_of(nodes, a, x) ==> vis.contains(x),
        forall|x: Seq<char>, y: Seq<char>|
            #![trigger vis.contains(x), blocker_of(nodes, x, y)]
            vis.contains(x) && blocker_of(nodes, x, y) ==> vis.contains(y),
    ensures
        vis.contains(p[k]),
    decreases k,
{
    if k > 0 {
        lemma_chain_inside(nodes, a, vis, p, k - 1);
        assert(blocker_of(nodes, p[k - 1], p[k]));
    }
}

/// The tasks whose cost task `id` carries: the task itself and every task it
/// depends on, directly or through other tasks, each once. Ids that name no
/// task are left out, so an unknown `id` gives none.
pub fn cost_basis(graph: &WorkGraph, id: &str) -> (r: Vec<String>)
    ensures
        strs(r).no_duplicates(),
        forall|x: Seq<char>|
            #![trigger strs(r).contains(x)]
            strs(r).contains(x) <==> ((x == id@ || depends_on(graph@, id@, x)) && lookup_task(graph@, x) is Some),
{
    let ghost e = graph@;
    let mut visited: Vec<String> = Vec::new();
    visited.push(id.to_string());
    let ghost start = strs(visited);
    proof {
        assert(start =~= seq![id@]);
        assert(start.contains(id@)) by {
            assert(start[0] == id@);
        }
    }
    collect_blockers(graph, id, &mut visited);
    let ghost vis = strs(visited);
    proof {
        assert forall|x: Seq<char>, y: Seq<char>|
            #![trigger vis.contains(x), blocker_of(e, x, y)]
            vis.contains(x) && blocker_of(e, x, y) implies vis.contains(y) by {
            if start.contains(x) {
                let m = choose|m: int| 0 <= m < start.len() && start[m] == x;
                assert(x == id@);
            }
        }
        assert forall|x: Seq<char>| depends_on(e, id@, x) implies vis.contains(x) by {
            let p = choose|p: Seq<Seq<char>>| chain_up(e, id@, p) && p.last() == x;
            lemma_chain_inside(e, id@, vis, p, p.len() - 1);
        }
        assert forall|x: Seq<char>| vis.contains(x) implies x == id@ || depends_on(e, id@, x) by {
            if start.contains(x) {
                let m = choose|m: int| 0 <= m < start.len() && start[m] == x;
            }
        }
    }
    let mut out: Vec<String> = Vec::new();
    let mut k: usize = 0;
    while k < visited.len()
        invariant
            k <= visited@.len(),
            e == graph@,
            vis == strs(visited),
            vis.no_duplicates(),
            strs(out).no_duplicates(),
            forall|x: Seq<char>|
                #![trigger strs(out).contains(x)]
                strs(out).contains(x) <==> (vis.take(k as int).contains(x) && lookup_task(e, x) is Some),
        decreases visited.len() - k,
    {
        let ghost before = strs(out);
        let ghost x = vis[k as int];
        assert(vis.take(k + 1) =~= vis.take(k as int).push(x));
        if graph.get_task(visited[k].as_str()).is_some() {
            out.push(visited[k].clone());
            proof {
                let now = strs(out);
                assert(now =~= before.push(x));
                assert(!vis.take(k as int).contains(x)) by {
                    if vis.take(k as int).contains(x) {
                        let m = choose|m: int| 0 <= m < k && vis.take(k as int)[m] == x;
                        assert(vis[m] == vis[k as int]);
                    }
                }
                assert(now.no_duplicates()) by {
                    assert forall|a: int, b: int| 0 <= a < now.len() && 0 <= b < now.len() && a != b implies now[a] != now[b] by {
                        if a < before.len() && b < before.len() {
                        } else if a == before.len() {
                            assert(before.contains(before[b]));
                        } else {
                            assert(before.contains(before[a]));
                        }
                    }
                }
                assert(lookup_task(e, x) is Some);
                assert(vis.take(k + 1)[k as int] == x);
                assert forall|y: Seq<char>| #![trigger now.contains(y)] now.contains(y) <==> (vis.take(k + 1).contains(y) && lookup_task(e, y) is Some) by {
                    if now.contains(y) {
                        if y != x {
                            let m = choose|m: int| 0 <= m < now.len() && now[m] == y;
                            assert(before[m] == y);
                            assert(before.contains(y));
                            let kk = k as int;
                            let q = choose|q: int| 0 <= q < kk && vis.take(kk)[q] == y;
                            assert(vis.take(k + 1)[q] == y);
                        }
                    }
                    if vis.take(k + 1).contains(y) && lookup_task(e, y) is Some {
                        if y == x {
                            assert(now[before.len() as int] == x);
                        } else {
                            let kk = k + 1;
                            let q = choose|q: int| 0 <= q < kk && vis.take(kk as int)[q] == y;
                            assert(q < k);
                            assert(vis.take(k as int)[q] == y);
                            assert(before.contains(y));
                            let m = choose|m: int| 0 <= m < before.len() && before[m] == y;
                            assert(now[m] == y);
                        }
                    }
                }
            }
        }
        k = k + 1;
    }
    proof {
        assert(vis.take(vis.len() as int) =~= vis);
    }
    out
}

proof fn lemma_step_mirror(nodes: Seq<NodeView>, x: Seq<char>, y: Seq<char>)
    requires
        unique_ids(nodes),
    ensures
        blocker_of(nodes, x, y) <==> graph_waits(nodes, y, x),
{
    crate::graph::lemma_find_node(nodes, x);
    if blocker_of(nodes, x, y) {
        let i = find_node(nodes, x)->0;
        assert(lists_blocker(nodes[i], y, x));
    }
    if graph_waits(nodes, y, x) {
        let j = choose|j: int| 0 <= j < nodes.len() && #[trigger] lists_blocker(nodes[j], y, x);
        assert(node_id(nodes[j]) == x);
        let i = find_node(nodes, x)->0;
        assert(i == j);
    }
}

/// What a task depends on and what waits on it are mirror images: in a graph
/// whose ids are unique, `a` depends on `b`, directly or through other
/// tasks, exactly when `a` is among the tasks that wait on `b`.
pub proof fn law_depends_mirrors_dependents(nodes: Seq<NodeView>, a: Seq<char>, b: Seq<char>)
    requires
        unique_ids(nodes),
    ensures
        depends_on(nodes, a, b) <==> graph_reaches(nodes, b, a),
{
    if depends_on(nodes, a, b) {
        let p = choose|p: Seq<Seq<char>>| chain_up(nodes, a, p) && p.last() == b;
        let n = p.len() as int;
        let full = seq![a] + p;
        assert forall|k: int| 0 <= k < n implies #[trigger] blocker_of(nodes, full[k], full[k + 1]) by {
            if k == 0 {
                assert(full[1] == p[0]);
            } else {
                assert(full[k] == p[k - 1] && full[k + 1] == p[k]);
            }
        }
        let q = Seq::new(n as nat, |m: int| full[n - 1 - m]);
        assert(full[n] == b);
        lemma_step_mirror(nodes, full[n - 1], full[n]);
        assert(graph_waits(nodes, b, q[0]));
        assert forall|m: int| #![trigger q[m]] 0 <= m < q.len() - 1 implies graph_waits(nodes, q[m], q[m + 1]) by {
            let k = n - 2 - m;
            assert(blocker_of(nodes, full[k], full[k + 1]));
            lemma_step_mirror(nodes, full[k], full[k + 1]);
        }
        assert(q.last() == a);
    }
    if graph_reaches(nodes, b, a) {
        let p = choose|p: Seq<Seq<char>>|
            {
                &&& p.len() > 0
                &&& graph_waits(nodes, b, p[0])
                &&& forall|k: int| #![trigger p[k]] 0 <= k < p.len() - 1 ==> graph_waits(nodes, p[k], p[k + 1])
                &&& p.last() == a
            };
        let n = p.len() as int;
        let full = seq![b] + p;
        assert forall|k: int| 0 <= k < n implies #[trigger] graph_waits(nodes, full[k], full[k + 1]) by {
            if k == 0 {
                assert(full[1] == p[0]);
            } else {
                assert(full[k] == p[k - 1] && full[k + 1] == p[k]);
            }
        }
        let q = Seq::new(n as nat, |m: int| full[n - 1 - m]);
        assert(full[n] == a);
        lemma_step_mirror(nodes, full[n], full[n - 1]);
        assert(blocker_of(nodes, a, q[0]));
        assert forall|m: int| #![trigger q[m]] 0 <= m < q.len() - 1 implies blocker_of(nodes, q[m], q[m + 1]) by {
            let k = n - 2 - m;
            assert(graph_waits(nodes, full[k], full[k + 1]));
            lemma_step_mirror(nodes, full[k + 1], full[k]);
        }
        assert(q.last() == b);
        assert(chain_up(nodes, a, q));
    }
}

} // verus!
