//! Laws of the two-way dependency links: when an edit adds a blocker, the
//! blocker lists the task among those it blocks; when it removes one, the
//! blocker no longer does.
use vstd::prelude::*;
use crate::graph::{NodeView, TaskView, find_node, lookup_task, node_id, task_index};
use crate::ops::{lemma_find_after_update, task_at, with_task, without};
use crate::lists::{add_all, added, first_pos, law_added_contains, remove_all, removed};
use crate::edit::{TaskEdit, edited, graph_after_edit, link_blockers, unlink_blockers};
use crate::graph::strs;
use crate::add::{NewTask, add_refusal, add_result, new_task_view, with_node};
use crate::graph::has_node;

verus! {

/// Two node lists hold the same ids at the same positions, and tasks where
/// the other has tasks.
pub open spec fn same_shape(a: Seq<NodeView>, b: Seq<NodeView>) -> bool {
    &&& a.len() == b.len()
    &&& forall|j: int| 0 <= j < a.len() ==> node_id(#[trigger] a[j]) == node_id(b[j]) && (a[j] is Task <==> b[j] is Task)
}

proof fn lemma_same_shape_find(a: Seq<NodeView>, b: Seq<NodeView>, x: Seq<char>)
    requires
        same_shape(a, b),
    ensures
        find_node(a, x) == find_node(b, x),
        task_index(a, x) == task_index(b, x),
    decreases a.len(),
{
    if a.len() > 0 {
        assert(same_shape(a.drop_last(), b.drop_last())) by {
            assert forall|j: int| 0 <= j < a.drop_last().len() implies node_id(#[trigger] a.drop_last()[j]) == node_id(
                b.drop_last()[j],
            ) && (a.drop_last()[j] is Task <==> b.drop_last()[j] is Task) by {
                assert(a.drop_last()[j] == a[j]);
                assert(b.drop_last()[j] == b[j]);
            }
        }
        lemma_same_shape_find(a.drop_last(), b.drop_last(), x);
        assert(node_id(a.last()) == node_id(b.last()));
        match find_node(a, x) {
            Some(j) => {
                crate::graph::lemma_find_node(a, x);
            },
            None => {},
        }
        crate::graph::lemma_find_node(a, x);
        crate::graph::lemma_find_node(b, x);
    }
}

proof fn lemma_with_task_shape(n: Seq<NodeView>, j: int, t: TaskView)
    requires
        0 <= j < n.len(),
        n[j] is Task,
        t.id == node_id(n[j]),
    ensures
        same_shape(with_task(n, j, t), n),
{
}

/// Linking changes only the blockers' lists, and each task named among `deps`
/// ends up listing `id`.
proof fn lemma_link(n: Seq<NodeView>, id: Seq<char>, deps: Seq<Seq<char>>, b: Seq<char>)
    requires
        task_index(n, b) is Some,
    ensures
        same_shape(link_blockers(n, id, deps), n),
        deps.contains(b) ==> task_at(link_blockers(n, id, deps), task_index(n, b)->0).blocks.contains(id),
        !deps.contains(b) ==> task_at(link_blockers(n, id, deps), task_index(n, b)->0) == task_at(n, task_index(n, b)->0),
    decreases deps.len(),
{
    let jb = task_index(n, b)->0;
    crate::graph::lemma_find_node(n, b);
    if deps.len() > 0 {
        let prev = link_blockers(n, id, deps.drop_last());
        lemma_link(n, id, deps.drop_last(), b);
        let d = deps.last();
        lemma_same_shape_find(prev, n, d);
        lemma_same_shape_find(prev, n, b);
        match task_index(prev, d) {
            Some(j) => {
                crate::graph::lemma_find_node(prev, d);
                let t = task_at(prev, j);
                let t2 = TaskView { blocks: added(t.blocks, id), ..t };
                assert(prev[j] is Task);
                assert(t.id == node_id(prev[j]));
                lemma_with_task_shape(prev, j, t2);
                assert(link_blockers(n, id, deps) == with_task(prev, j, t2));
                if d == b {
                    assert(j == jb);
                    law_added_contains(t.blocks, id);
                } else {
                    assert(node_id(prev[j]) == d);
                    assert(node_id(prev[jb]) == b);
                    assert(j != jb);
                    if deps.drop_last().contains(b) {
                        let k = choose|k: int| 0 <= k < deps.drop_last().len() && deps.drop_last()[k] == b;
                        assert(deps[k] == b);
                    }
                }
                assert forall|j2: int| 0 <= j2 < n.len() implies node_id(#[trigger] link_blockers(n, id, deps)[j2])
                    == node_id(n[j2]) && (link_blockers(n, id, deps)[j2] is Task <==> n[j2] is Task) by {
                    assert(node_id(prev[j2]) == node_id(n[j2]));
                }
            },
            None => {
                assert(link_blockers(n, id, deps) == prev);
                if d == b {
                    assert(false);
                }
            },
        }
        if deps.contains(b) && !deps.drop_last().contains(b) {
            assert(d == b) by {
                let k = choose|k: int| 0 <= k < deps.len() && deps[k] == b;
                if k < deps.len() - 1 {
                    assert(deps.drop_last()[k] == b);
                }
            }
        }
        if !deps.contains(b) {
            assert(!deps.drop_last().contains(b)) by {
                if deps.drop_last().contains(b) {
                    let k = choose|k: int| 0 <= k < deps.drop_last().len() && deps.drop_last()[k] == b;
                    assert(deps[k] == b);
                }
            }
            assert(d != b) by {
                assert(deps[deps.len() - 1] == d);
            }
        }
        if deps.drop_last().contains(b) {
            assert(deps.contains(b)) by {
                let k = choose|k: int| 0 <= k < deps.drop_last().len() && deps.drop_last()[k] == b;
                assert(deps[k] == b);
            }
            if d == b {
            } else {
                lemma_same_shape_find(prev, n, b);
            }
        }
    }
}

proof fn lemma_without_lacks(v: Seq<Seq<char>>, x: Seq<char>)
    ensures
        !without(v, x).contains(x),
{
    if without(v, x).contains(x) {
        let k = choose|k: int| 0 <= k < without(v, x).len() && without(v, x)[k] == x;
        v.lemma_filter_contains_rev(|y: Seq<char>| y != x, x);
    }
}

/// Unlinking changes only the former blockers' lists, and each task named
/// among `deps` ends up not listing `id`.
proof fn lemma_unlink(n: Seq<NodeView>, id: Seq<char>, deps: Seq<Seq<char>>, b: Seq<char>)
    requires
        task_index(n, b) is Some,
    ensures
        same_shape(unlink_blockers(n, id, deps), n),
        deps.contains(b) ==> !task_at(unlink_blockers(n, id, deps), task_index(n, b)->0).blocks.contains(id),
        !deps.contains(b) ==> task_at(unlink_blockers(n, id, deps), task_index(n, b)->0) == task_at(
            n,
            task_index(n, b)->0,
        ),
    decreases deps.len(),
{
    let jb = task_index(n, b)->0;
    crate::graph::lemma_find_node(n, b);
    if deps.len() > 0 {
        let prev = unlink_blockers(n, id, deps.drop_last());
        lemma_unlink(n, id, deps.drop_last(), b);
        let d = deps.last();
        lemma_same_shape_find(prev, n, d);
        lemma_same_shape_find(prev, n, b);
        if deps.contains(b) && !deps.drop_last().contains(b) {
            assert(d == b) by {
                let k = choose|k: int| 0 <= k < deps.len() && deps[k] == b;
                if k < deps.len() - 1 {
                    assert(deps.drop_last()[k] == b);
                }
            }
        }
        if !deps.contains(b) {
            assert(!deps.drop_last().contains(b)) by {
                if deps.drop_last().contains(b) {
                    let k = choose|k: int| 0 <= k < deps.drop_last().len() && deps.drop_last()[k] == b;
                    assert(deps[k] == b);
                }
            }
            assert(d != b) by {
                assert(deps[deps.len() - 1] == d);
            }
        }
        if deps.drop_last().contains(b) {
            assert(deps.contains(b)) by {
                let k = choose|k: int| 0 <= k < deps.drop_last().len() && deps.drop_last()[k] == b;
                assert(deps[k] == b);
            }
        }
        match task_index(prev, d) {
            Some(j) => {
                crate::graph::lemma_find_node(prev, d);
                let t = task_at(prev, j);
                let t2 = TaskView { blocks: without(t.blocks, id), ..t };
                assert(prev[j] is Task);
                assert(t.id == node_id(prev[j]));
                lemma_with_task_shape(prev, j, t2);
                assert(unlink_blockers(n, id, deps) == with_task(prev, j, t2));
                if d == b {
                    assert(j == jb);
                    lemma_without_lacks(t.blocks, id);
                } else {
                    assert(node_id(prev[j]) == d);
                    assert(node_id(prev[jb]) == b);
                    assert(j != jb);
                }
                assert forall|j2: int| 0 <= j2 < n.len() implies node_id(#[trigger] unlink_blockers(n, id, deps)[j2])
                    == node_id(n[j2]) && (unlink_blockers(n, id, deps)[j2] is Task <==> n[j2] is Task) by {
                    assert(node_id(prev[j2]) == node_id(n[j2]));
                }
            },
            None => {
                assert(unlink_blockers(n, id, deps) == prev);
                if d == b {
                    assert(false);
                }
            },
        }
    }
}

proof fn lemma_add_all_contains(v: Seq<Seq<char>>, items: Seq<Seq<char>>, x: Seq<char>)
    requires
        v.contains(x) || items.contains(x),
    ensures
        add_all(v, items).contains(x),
    decreases items.len(),
{
    if items.len() > 0 {
        let rest = items.drop_last();
        if v.contains(x) || rest.contains(x) {
            lemma_add_all_contains(v, rest, x);
            let w = add_all(v, rest);
            if !w.contains(items.last()) {
                let k = choose|k: int| 0 <= k < w.len() && w[k] == x;
                assert(w.push(items.last())[k] == x);
            }
        } else {
            assert(items.last() == x) by {
                let k = choose|k: int| 0 <= k < items.len() && items[k] == x;
                if k < items.len() - 1 {
                    assert(rest[k] == x);
                }
            }
            law_added_contains(add_all(v, rest), x);
        }
    }
}

proof fn lemma_first_exists(w: Seq<Seq<char>>, y: Seq<char>, k: int)
    requires
        0 <= k < w.len(),
        w[k] == y,
    ensures
        exists|c: int| 0 <= c < w.len() && w[c] == y && forall|j: int| 0 <= j < c ==> w[j] != y,
    decreases k,
{
    if exists|j: int| 0 <= j < k && w[j] == y {
        let j = choose|j: int| 0 <= j < k && w[j] == y;
        lemma_first_exists(w, y, j);
    } else {
        assert(forall|j: int| 0 <= j < k ==> w[j] != y);
    }
}

proof fn lemma_remove_all_keeps(v: Seq<Seq<char>>, items: Seq<Seq<char>>, x: Seq<char>)
    requires
        v.contains(x),
        !items.contains(x),
    ensures
        remove_all(v, items).contains(x),
    decreases items.len(),
{
    if items.len() > 0 {
        let rest = items.drop_last();
        assert(!rest.contains(x)) by {
            if rest.contains(x) {
                let k = choose|k: int| 0 <= k < rest.len() && rest[k] == x;
                assert(items[k] == x);
            }
        }
        lemma_remove_all_keeps(v, rest, x);
        let w = remove_all(v, rest);
        let y = items.last();
        assert(y != x) by {
            assert(items[items.len() - 1] == y);
        }
        if w.contains(y) {
            let k0 = choose|k: int| 0 <= k < w.len() && w[k] == y;
            lemma_first_exists(w, y, k0);
            let c = first_pos(w, y);
            let k = choose|k: int| 0 <= k < w.len() && w[k] == x;
            assert(k != c);
            if k < c {
                assert(w.remove(c)[k] == x);
            } else {
                assert(w.remove(c)[k - 1] == x);
            }
        }
    }
}

/// An edit that adds blocker `b` (a task other than the edited one, and not
/// removed by the same edit) leaves the link in place on both ends: the task
/// lists `b` in `blocked_by`, and `b` lists the task in `blocks`.
pub proof fn law_edit_links_added_blocker(nodes: Seq<NodeView>, id: Seq<char>, e: TaskEdit, b: Seq<char>)
    requires
        task_index(nodes, id) is Some,
        task_index(nodes, b) is Some,
        b != id,
        strs(e.add_blocked_by).contains(b),
        !strs(e.remove_blocked_by).contains(b),
        crate::edit::edit_refusal(nodes, id, e) is None,
    ensures
        ({
            let after = graph_after_edit(nodes, task_index(nodes, id)->0, id, e);
            &&& lookup_task(after, id) matches Some(t) && t.blocked_by.contains(b)
            &&& lookup_task(after, b) matches Some(bt) && bt.blocks.contains(id)
        }),
{
    let i = task_index(nodes, id)->0;
    crate::graph::lemma_find_node(nodes, id);
    crate::graph::lemma_find_node(nodes, b);
    let t0 = task_at(nodes, i);
    let n1 = with_task(nodes, i, edited(t0, e));
    lemma_with_task_shape(nodes, i, edited(t0, e));
    lemma_same_shape_find(n1, nodes, b);
    lemma_same_shape_find(n1, nodes, id);
    let adds = strs(e.add_blocked_by);
    let rems = strs(e.remove_blocked_by);
    let n2 = link_blockers(n1, id, adds);
    lemma_link(n1, id, adds, b);
    lemma_link(n1, id, adds, id);
    lemma_same_shape_find(n2, n1, b);
    lemma_same_shape_find(n2, n1, id);
    let n3 = unlink_blockers(n2, id, rems);
    lemma_unlink(n2, id, rems, b);
    lemma_same_shape_find(n3, n2, b);
    lemma_same_shape_find(n3, n2, id);
    let jb = task_index(nodes, b)->0;
    assert(jb != i);
    // the blocker's side
    assert(task_at(n2, jb).blocks.contains(id));
    assert(task_at(n3, jb) == task_at(n2, jb));
    assert(n3[jb] is Task);
    assert(lookup_task(n3, b) == Some(task_at(n3, jb)));
    // the task's side
    lemma_add_all_contains(t0.blocked_by, adds, b);
    lemma_remove_all_keeps(add_all(t0.blocked_by, adds), rems, b);
    assert(edited(t0, e).blocked_by.contains(b));
    assert(!adds.contains(id));
    assert(task_at(n2, i) == task_at(n1, i));
    if rems.contains(id) {
        lemma_unlink(n2, id, rems, id);
        // the task itself loses `id` from its own `blocks` only; `blocked_by` is untouched
        let k = i;
        assert(task_at(n3, k).blocked_by == task_at(n2, k).blocked_by) by {
            lemma_unlink_keeps_blocked_by(n2, id, rems, k);
        }
    } else {
        lemma_unlink(n2, id, rems, id);
    }
    assert(n3[i] is Task);
    assert(lookup_task(n3, id) == Some(task_at(n3, i)));
}

proof fn lemma_unlink_keeps_blocked_by(n: Seq<NodeView>, id: Seq<char>, deps: Seq<Seq<char>>, k: int)
    requires
        0 <= k < n.len(),
        n[k] is Task,
    ensures
        task_at(unlink_blockers(n, id, deps), k).blocked_by == task_at(n, k).blocked_by,
        unlink_blockers(n, id, deps).len() == n.len(),
        unlink_blockers(n, id, deps)[k] is Task,
    decreases deps.len(),
{
    if deps.len() > 0 {
        let prev = unlink_blockers(n, id, deps.drop_last());
        lemma_unlink_keeps_blocked_by(n, id, deps.drop_last(), k);
        match task_index(prev, deps.last()) {
            Some(j) => {
                crate::graph::lemma_find_node(prev, deps.last());
            },
            None => {},
        }
    }
}

/// An edit that removes blocker `b` (a task other than the edited one) leaves
/// `b` no longer listing the task in `blocks`.
pub proof fn law_edit_unlinks_removed_blocker(nodes: Seq<NodeView>, id: Seq<char>, e: TaskEdit, b: Seq<char>)
    requires
        task_index(nodes, id) is Some,
        task_index(nodes, b) is Some,
        b != id,
        strs(e.remove_blocked_by).contains(b),
    ensures
        lookup_task(graph_after_edit(nodes, task_index(nodes, id)->0, id, e), b) matches Some(bt) && !bt.blocks.contains(
            id,
        ),
{
    let i = task_index(nodes, id)->0;
    crate::graph::lemma_find_node(nodes, id);
    crate::graph::lemma_find_node(nodes, b);
    let t0 = task_at(nodes, i);
    let n1 = with_task(nodes, i, edited(t0, e));
    lemma_with_task_shape(nodes, i, edited(t0, e));
    lemma_same_shape_find(n1, nodes, b);
    let adds = strs(e.add_blocked_by);
    let rems = strs(e.remove_blocked_by);
    let n2 = link_blockers(n1, id, adds);
    lemma_link(n1, id, adds, b);
    lemma_same_shape_find(n2, n1, b);
    let n3 = unlink_blockers(n2, id, rems);
    lemma_unlink(n2, id, rems, b);
    lemma_same_shape_find(n3, n2, b);
    let jb = task_index(nodes, b)->0;
    assert(n3[jb] is Task);
    assert(lookup_task(n3, b) == Some(task_at(n3, jb)));
}

/// A task added with blocker `b` (an existing task) lists `b` in
/// `blocked_by`, and `b` lists the new task in `blocks`.
pub proof fn law_add_links_blockers(nodes: Seq<NodeView>, n: NewTask, id: Seq<char>, now: Seq<char>, b: Seq<char>)
    requires
        !has_node(nodes, id),
        task_index(nodes, b) is Some,
        strs(n.blocked_by).contains(b),
        add_refusal(n, id) is None,
    ensures
        ({
            let after = add_result(nodes, n, id, now).0;
            &&& lookup_task(after, id) matches Some(t) && t.blocked_by.contains(b)
            &&& lookup_task(after, b) matches Some(bt) && bt.blocks.contains(id)
        }),
{
    let x = NodeView::Task(new_task_view(n, id, now));
    crate::graph::lemma_find_node(nodes, id);
    crate::graph::lemma_find_node(nodes, b);
    assert(find_node(nodes, id) is None) by {
        if find_node(nodes, id) is Some {
            let j = find_node(nodes, id)->0;
            assert(node_id(nodes[j]) == id);
        }
    }
    let n1 = nodes.push(x);
    assert(with_node(nodes, x) == n1);
    assert(n1.drop_last() =~= nodes);
    assert(find_node(n1, b) == find_node(nodes, b));
    assert(find_node(n1, id) == Some(nodes.len() as int));
    let jb = task_index(nodes, b)->0;
    assert(n1[jb] == nodes[jb]);
    assert(task_index(n1, b) == Some(jb));
    assert(task_index(n1, id) == Some(nodes.len() as int));
    let deps = strs(n.blocked_by);
    let n2 = link_blockers(n1, id, deps);
    lemma_link(n1, id, deps, b);
    lemma_link(n1, id, deps, id);
    lemma_same_shape_find(n2, n1, b);
    lemma_same_shape_find(n2, n1, id);
    assert(n2 == add_result(nodes, n, id, now).0);
    assert(!deps.contains(id));
    assert(n2[jb] is Task);
    assert(lookup_task(n2, b) == Some(task_at(n2, jb)));
    let k = nodes.len() as int;
    assert(task_at(n2, k) == task_at(n1, k));
    assert(n2[k] is Task);
    assert(lookup_task(n2, id) == Some(task_at(n2, k)));
}

} // verus!
