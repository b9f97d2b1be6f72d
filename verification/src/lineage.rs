//! Lineage queries: the ancestry of a role or motivation, found by walking
//! parent ids from the item itself up to its oldest ancestors.
use vstd::prelude::*;
use crate::graph::strs;
use crate::agency::{Motivation, Role};
use crate::deps::{lemma_missing_mono, lemma_missing_strict, missing};
use crate::text::{clone_strs, contains_str, str_eq};

verus! {

/// One item of an ancestry: who it is and where it came from.
#[derive(Debug, Clone)]
pub struct AncestryNode {
    pub id: String,
    pub name: String,
    pub generation: u32,
    pub created_by: String,
    pub created_at: String,
    pub parent_ids: Vec<String>,
}

pub ghost struct AncestryNodeView {
    pub id: Seq<char>,
    pub name: Seq<char>,
    pub generation: u32,
    pub created_by: Seq<char>,
    pub created_at: Seq<char>,
    pub parent_ids: Seq<Seq<char>>,
}

impl View for AncestryNode {
    type V = AncestryNodeView;

    open spec fn view(&self) -> AncestryNodeView {
        AncestryNodeView {
            id: self.id@,
            name: self.name@,
            generation: self.generation,
            created_by: self.created_by@,
            created_at: self.created_at@,
            parent_ids: strs(self.parent_ids),
        }
    }
}

pub open spec fn node_views(v: Seq<AncestryNode>) -> Seq<AncestryNodeView> {
    v.map_values(|n: AncestryNode| n@)
}

/// Index of the last item with id `id` (a later item replaces an earlier one).
pub open spec fn last_index(items: Seq<AncestryNodeView>, id: Seq<char>) -> Option<int>
    decreases items.len(),
{
    if items.len() == 0 {
        None
    } else if items.last().id == id {
        Some(items.len() - 1)
    } else {
        last_index(items.drop_last(), id)
    }
}

/// The item stored under `id`.
pub open spec fn node_for(items: Seq<AncestryNodeView>, id: Seq<char>) -> Option<AncestryNodeView> {
    match last_index(items, id) {
        Some(k) => Some(items[k]),
        None => None,
    }
}

proof fn lemma_last_index(items: Seq<AncestryNodeView>, id: Seq<char>)
    ensures
        match last_index(items, id) {
            Some(k) => 0 <= k < items.len() && items[k].id == id,
            None => forall|j: int| 0 <= j < items.len() ==> (#[trigger] items[j]).id != id,
        },
    decreases items.len(),
{
    if items.len() > 0 {
        lemma_last_index(items.drop_last(), id);
        assert forall|j: int| 0 <= j < items.len() - 1 implies items.drop_last()[j] == items[j] by {}
    }
}

/// Every parent id named by any item.
pub open spec fn parent_pool(items: Seq<AncestryNodeView>) -> Seq<Seq<char>>
    decreases items.len(),
{
    if items.len() == 0 {
        Seq::empty()
    } else {
        parent_pool(items.drop_last()) + items.last().parent_ids
    }
}

proof fn lemma_pool_has(items: Seq<AncestryNodeView>, k: int, x: Seq<char>)
    requires
        0 <= k < items.len(),
        items[k].parent_ids.contains(x),
    ensures
        parent_pool(items).contains(x),
    decreases items.len(),
{
    let d = items.last().parent_ids;
    if k == items.len() - 1 {
        let m = choose|m: int| 0 <= m < d.len() && d[m] == x;
        assert(parent_pool(items)[parent_pool(items.drop_last()).len() + m] == x);
    } else {
        assert(items.drop_last()[k] == items[k]);
        lemma_pool_has(items.drop_last(), k, x);
        let m = choose|m: int| 0 <= m < parent_pool(items.drop_last()).len() && parent_pool(items.drop_last())[m] == x;
        assert(parent_pool(items)[m] == x);
    }
}

pub proof fn lemma_push_grows(s: Seq<Seq<char>>, e: Seq<char>)
    ensures
        forall|y: Seq<char>| s.contains(y) ==> s.push(e).contains(y),
        s.push(e).contains(e),
{
    assert forall|y: Seq<char>| s.contains(y) implies s.push(e).contains(y) by {
        let m = choose|m: int| 0 <= m < s.len() && s[m] == y;
        assert(s.push(e)[m] == y);
    }
    assert(s.push(e)[s.len() as int] == e);
}

/// The walk over a stack of ids: take the last id; skip it when already
/// visited; otherwise mark it visited and, when an item has that id, list
/// the item and push its parent ids in order. (`pool` only measures the
/// walk: every id on the stack is in it.)
pub open spec fn stack_walk(
    items: Seq<AncestryNodeView>,
    pool: Seq<Seq<char>>,
    queue: Seq<Seq<char>>,
    visited: Seq<Seq<char>>,
    out: Seq<AncestryNodeView>,
) -> Seq<AncestryNodeView>
    decreases missing(pool, visited), queue.len(),
{
    if queue.len() == 0 {
        out
    } else {
        let id = queue.last();
        let rest = queue.drop_last();
        if visited.contains(id) {
            stack_walk(items, pool, rest, visited, out)
        } else if !pool.contains(id) {
            out
        } else {
            proof {
                lemma_push_grows(visited, id);
                lemma_missing_strict(pool, visited, visited.push(id), id);
            }
            match node_for(items, id) {
                Some(n) => stack_walk(items, pool, rest + n.parent_ids, visited.push(id), out.push(n)),
                None => stack_walk(items, pool, rest, visited.push(id), out),
            }
        }
    }
}

/// The items the ancestry walk from `start` lists, in the order it lists them.
pub open spec fn ancestry_order(items: Seq<AncestryNodeView>, start: Seq<char>) -> Seq<AncestryNodeView> {
    stack_walk(items, seq![start] + parent_pool(items), seq![start], Seq::empty(), Seq::empty())
}

/// The ids of a list of ancestry items.
pub open spec fn ids_of(v: Seq<AncestryNodeView>) -> Seq<Seq<char>> {
    v.map_values(|n: AncestryNodeView| n.id)
}

/// What an ancestry walk from `start` over `items` gives back: the items
/// reached from `start` through parent ids, each once, starting with `start`'s
/// own item; every item after the first is a parent of an earlier one, and
/// every parent of a listed item that is known is listed too.
pub open spec fn is_ancestry(items: Seq<AncestryNodeView>, start: Seq<char>, r: Seq<AncestryNodeView>) -> bool {
    &&& forall|i: int, j: int| 0 <= i < j < r.len() ==> r[i].id != r[j].id
    &&& forall|k: int| 0 <= k < r.len() ==> node_for(items, (#[trigger] r[k]).id) == Some(r[k])
    &&& (node_for(items, start) is Some ==> r.len() > 0 && r[0].id == start)
    &&& (node_for(items, start) is None ==> r.len() == 0)
    &&& forall|k: int|
        0 < k < r.len() ==> exists|j: int| 0 <= j < k && (#[trigger] r[j]).parent_ids.contains((#[trigger] r[k]).id)
    &&& forall|k: int, p: Seq<char>|
        0 <= k < r.len() && #[trigger] r[k].parent_ids.contains(p) && node_for(items, p) is Some
            ==> ids_of(r).contains(p)
}

fn last_with_id(items: &Vec<AncestryNode>, id: &str) -> (r: Option<usize>)
    ensures
        match r {
            Some(k) => last_index(node_views(items@), id@) == Some(k as int) && k < items@.len(),
            None => last_index(node_views(items@), id@) is None,
        },
{
    let ghost v = node_views(items@);
    let mut k: usize = items.len();
    assert(v.take(k as int) =~= v);
    while k > 0
        invariant
            k <= items.len(),
            v == node_views(items@),
            last_index(v, id@) == last_index(v.take(k as int), id@),
        decreases k,
    {
        proof {
            assert(v.take(k as int).drop_last() =~= v.take(k - 1));
            assert(v.take(k as int).last() == items@[k - 1]@);
        }
        if str_eq(items[k - 1].id.as_str(), id) {
            return Some(k - 1);
        }
        k = k - 1;
    }
    proof {
        assert(v.take(0) =~= Seq::<AncestryNodeView>::empty());
    }
    assert(v.take(items.len() as int) =~= v);
    None
}

fn copy_node(n: &AncestryNode) -> (r: AncestryNode)
    ensures
        r@ == n@,
{
    AncestryNode {
        id: n.id.clone(),
        name: n.name.clone(),
        generation: n.generation,
        created_by: n.created_by.clone(),
        created_at: n.created_at.clone(),
        parent_ids: clone_strs(&n.parent_ids),
    }
}

proof fn lemma_ids_push(r: Seq<AncestryNodeView>, n: AncestryNodeView)
    ensures
        ids_of(r.push(n)) == ids_of(r).push(n.id),
{
    assert(ids_of(r.push(n)) =~= ids_of(r).push(n.id));
}

/// Some listed item names `q` as a parent.
pub open spec fn named_by(out: Seq<AncestryNodeView>, q: Seq<char>) -> bool {
    exists|j: int| 0 <= j < out.len() && (#[trigger] out[j]).parent_ids.contains(q)
}

/// The state of the walk: what is listed, what was visited and what waits.
pub open spec fn walk_inv(
    items: Seq<AncestryNodeView>,
    start: Seq<char>,
    out: Seq<AncestryNodeView>,
    visited: Seq<Seq<char>>,
    queue: Seq<Seq<char>>,
) -> bool {
    &&& forall|i: int, j: int| 0 <= i < j < out.len() ==> out[i].id != out[j].id
    &&& forall|k: int| 0 <= k < out.len() ==> node_for(items, (#[trigger] out[k]).id) == Some(out[k])
    &&& forall|k: int| 0 <= k < out.len() ==> visited.contains((#[trigger] out[k]).id)
    &&& forall|x: Seq<char>| visited.contains(x) && node_for(items, x) is Some ==> ids_of(out).contains(x)
    &&& forall|k: int, p: Seq<char>|
        0 <= k < out.len() && #[trigger] out[k].parent_ids.contains(p) ==> visited.contains(p) || queue.contains(p)
    &&& (visited.len() == 0 ==> queue == seq![start] && out.len() == 0)
    &&& (visited.len() > 0 ==> visited.contains(start))
    &&& (visited.len() > 0 && node_for(items, start) is Some ==> out.len() > 0 && out[0].id == start)
    &&& (visited.len() > 0 && node_for(items, start) is None ==> out.len() == 0 && queue.len() == 0)
    &&& forall|k: int|
        0 < k < out.len() ==> exists|j: int| 0 <= j < k && (#[trigger] out[j]).parent_ids.contains((#[trigger] out[k]).id)
    &&& forall|i: int| 0 <= i < queue.len() ==> (out.len() == 0 && queue[i] == start) || named_by(out, #[trigger] queue[i])
    &&& forall|i: int| 0 <= i < queue.len() ==> (seq![start] + parent_pool(items)).contains(#[trigger] queue[i])
}

/// Walk parent ids from `start` over `items` (a later item with the same id
/// replaces an earlier one), listing each item reached once.
#[verifier::rlimit(60)]
pub fn ancestry(items: &Vec<AncestryNode>, start: &str) -> (r: Vec<AncestryNode>)
    ensures
        is_ancestry(node_views(items@), start@, node_views(r@)),
        node_views(r@) == ancestry_order(node_views(items@), start@),
{
    let ghost iv = node_views(items@);
    let ghost pool = seq![start@] + parent_pool(iv);
    let mut out: Vec<AncestryNode> = Vec::new();
    let mut visited: Vec<String> = Vec::new();
    let mut queue: Vec<String> = Vec::new();
    queue.push(start.to_string());
    proof {
        assert(strs(queue) =~= seq![start@]);
        assert(node_views(out@) =~= Seq::<AncestryNodeView>::empty());
        assert(strs(visited) =~= Seq::<Seq<char>>::empty());
        assert(pool[0] == start@);
    }
    while queue.len() > 0
        invariant
            iv == node_views(items@),
            pool == seq![start@] + parent_pool(iv),
            walk_inv(iv, start@, node_views(out@), strs(visited), strs(queue)),
            stack_walk(iv, pool, strs(queue), strs(visited), node_views(out@)) == ancestry_order(iv, start@),
        decreases missing(pool, strs(visited)), queue.len(),
    {
        let ghost q0 = strs(queue);
        let ghost v0 = strs(visited);
        let ghost o0 = node_views(out@);
        let id = queue.pop().unwrap();
        proof {
            assert(strs(queue) =~= q0.drop_last());
            assert(id@ == q0.last());
        }
        if contains_str(&visited, id.as_str()) {
            proof {
                assert forall|k: int, p: Seq<char>|
                    0 <= k < o0.len() && #[trigger] o0[k].parent_ids.contains(p) implies v0.contains(p)
                    || strs(queue).contains(p) by {
                    if q0.contains(p) && !v0.contains(p) {
                        let i = choose|i: int| 0 <= i < q0.len() && q0[i] == p;
                        if i < q0.len() - 1 {
                            assert(strs(queue)[i] == p);
                        }
                    }
                }
                assert forall|i: int| 0 <= i < strs(queue).len() implies (o0.len() == 0 && strs(queue)[i] == start@)
                    || named_by(o0, #[trigger] strs(queue)[i]) by {
                    assert(strs(queue)[i] == q0[i]);
                }
                assert forall|i: int| 0 <= i < strs(queue).len() implies pool.contains(#[trigger] strs(queue)[i]) by {
                    assert(strs(queue)[i] == q0[i]);
                }
            }
            continue;
        }
        let ghost was_empty = v0.len() == 0;
        visited.push(id.clone());
        proof {
            assert(strs(visited) =~= v0.push(id@));
            assert(pool.contains(id@)) by {
                assert(q0[q0.len() - 1] == id@);
            }
            assert forall|y: Seq<char>| v0.contains(y) implies strs(visited).contains(y) by {
                let m = choose|m: int| 0 <= m < v0.len() && v0[m] == y;
                assert(strs(visited)[m] == y);
            }
            assert(strs(visited)[v0.len() as int] == id@);
            lemma_missing_strict(pool, v0, strs(visited), id@);
        }
        let ghost v1 = strs(visited);
        let found = last_with_id(items, id.as_str());
        match found {
            None => {
                proof {
                    lemma_last_index(iv, id@);
                    assert(node_for(iv, id@) is None);
                    assert forall|x: Seq<char>| v1.contains(x) && node_for(iv, x) is Some implies ids_of(o0).contains(x) by {
                        if x != id@ {
                            let m = choose|m: int| 0 <= m < v1.len() && v1[m] == x;
                            assert(v0[m] == x);
                            assert(v0.contains(x));
                        }
                    }
                    assert forall|k: int| 0 <= k < o0.len() implies v1.contains((#[trigger] o0[k]).id) by {
                        let m = choose|m: int| 0 <= m < v0.len() && v0[m] == o0[k].id;
                        assert(v1[m] == o0[k].id);
                    }
                    assert forall|k: int, p: Seq<char>|
                        0 <= k < o0.len() && #[trigger] o0[k].parent_ids.contains(p) implies v1.contains(p)
                        || strs(queue).contains(p) by {
                        if v0.contains(p) {
                            let m = choose|m: int| 0 <= m < v0.len() && v0[m] == p;
                            assert(v1[m] == p);
                        } else if p == id@ {
                        } else {
                            let i = choose|i: int| 0 <= i < q0.len() && q0[i] == p;
                            assert(i < q0.len() - 1);
                            assert(strs(queue)[i] == p);
                        }
                    }
                    assert forall|i: int| 0 <= i < strs(queue).len() implies (o0.len() == 0 && strs(queue)[i]
                        == start@) || named_by(o0, #[trigger] strs(queue)[i]) by {
                        assert(strs(queue)[i] == q0[i]);
                    }
                    assert forall|i: int| 0 <= i < strs(queue).len() implies pool.contains(#[trigger] strs(queue)[i]) by {
                        assert(strs(queue)[i] == q0[i]);
                    }
                    if was_empty {
                        assert(q0 == seq![start@]);
                        assert(id@ == start@);
                        assert(strs(queue).len() == 0);
                    }
                    assert(v1.contains(start@)) by {
                        if !was_empty {
                            let m = choose|m: int| 0 <= m < v0.len() && v0[m] == start@;
                            assert(v1[m] == start@);
                        }
                    }
                }
            },
            Some(k) => {
                proof {
                    lemma_last_index(iv, id@);
                }
                let node = copy_node(&items[k]);
                let ghost nv = node@;
                assert(nv == iv[k as int]);
                assert(node_for(iv, id@) == Some(nv));
                let ghost qmid = strs(queue);
                let mut m: usize = 0;
                while m < items[k].parent_ids.len()
                    invariant
                        k < items@.len(),
                        iv == node_views(items@),
                        nv == iv[k as int],
                        pool == seq![start@] + parent_pool(iv),
                        m <= nv.parent_ids.len(),
                        nv.parent_ids == strs(items@[k as int].parent_ids),
                        strs(queue) == qmid + nv.parent_ids.take(m as int),
                        forall|i: int| 0 <= i < qmid.len() ==> pool.contains(#[trigger] qmid[i]),
                    decreases nv.parent_ids.len() - m,
                {
                    let ghost before = strs(queue);
                    queue.push(items[k].parent_ids[m].clone());
                    proof {
                        assert(strs(queue) =~= before.push(nv.parent_ids[m as int]));
                        assert(nv.parent_ids.take(m + 1) =~= nv.parent_ids.take(m as int).push(nv.parent_ids[m as int]));
                    }
                    m = m + 1;
                }
                let ghost q2 = strs(queue);
                proof {
                    assert(nv.parent_ids.take(nv.parent_ids.len() as int) =~= nv.parent_ids);
                    assert(q2 == qmid + nv.parent_ids);
                }
                out.push(node);
                proof {
                    let o1 = node_views(out@);
                    assert(o1 =~= o0.push(nv));
                    lemma_ids_push(o0, nv);
                    assert(!ids_of(o0).contains(id@)) by {
                        if ids_of(o0).contains(id@) {
                            let j = choose|j: int| 0 <= j < ids_of(o0).len() && ids_of(o0)[j] == id@;
                            assert(o0[j].id == id@);
                            assert(v0.contains(id@));
                        }
                    }
                    assert forall|i: int, j: int| 0 <= i < j < o1.len() implies o1[i].id != o1[j].id by {
                        if j == o0.len() {
                            assert(ids_of(o0)[i] == o0[i].id);
                        }
                    }
                    assert forall|kk: int| 0 <= kk < o1.len() implies v1.contains((#[trigger] o1[kk]).id) by {
                        if kk < o0.len() {
                            let mm = choose|mm: int| 0 <= mm < v0.len() && v0[mm] == o0[kk].id;
                            assert(v1[mm] == o0[kk].id);
                        }
                    }
                    assert forall|x: Seq<char>| v1.contains(x) && node_for(iv, x) is Some implies ids_of(o1).contains(
                        x,
                    ) by {
                        if x == id@ {
                            assert(ids_of(o1)[o0.len() as int] == x);
                        } else {
                            let mm = choose|mm: int| 0 <= mm < v1.len() && v1[mm] == x;
                            assert(v0[mm] == x);
                            assert(v0.contains(x));
                            assert(ids_of(o0).contains(x));
                            let j = choose|j: int| 0 <= j < ids_of(o0).len() && ids_of(o0)[j] == x;
                            assert(ids_of(o1)[j] == x);
                        }
                    }
                    assert forall|kk: int, p: Seq<char>|
                        0 <= kk < o1.len() && #[trigger] o1[kk].parent_ids.contains(p) implies v1.contains(p)
                        || q2.contains(p) by {
                        if kk == o0.len() {
                            let mm = choose|mm: int| 0 <= mm < nv.parent_ids.len() && nv.parent_ids[mm] == p;
                            assert(q2[qmid.len() + mm] == p);
                        } else if v0.contains(p) {
                            let mm = choose|mm: int| 0 <= mm < v0.len() && v0[mm] == p;
                            assert(v1[mm] == p);
                        } else if p == id@ {
                        } else {
                            let i = choose|i: int| 0 <= i < q0.len() && q0[i] == p;
                            assert(i < q0.len() - 1);
                            assert(qmid[i] == p);
                            assert(q2[i] == p);
                        }
                    }
                    assert forall|kk: int| 0 < kk < o1.len() implies exists|j: int|
                        0 <= j < kk && (#[trigger] o1[j]).parent_ids.contains((#[trigger] o1[kk]).id) by {
                        if kk == o0.len() {
                            if o0.len() > 0 {
                                assert(q0[q0.len() - 1] == id@);
                                assert(named_by(o0, q0[q0.len() - 1]));
                                let j = choose|j: int| 0 <= j < o0.len() && (#[trigger] o0[j]).parent_ids.contains(id@);
                                assert(o1[j] == o0[j]);
                            }
                        } else {
                            let j = choose|j: int| 0 <= j < kk && (#[trigger] o0[j]).parent_ids.contains((#[trigger] o0[kk]).id);
                            assert(o1[j] == o0[j]);
                        }
                    }
                    assert forall|i: int| 0 <= i < q2.len() implies (o1.len() == 0 && q2[i] == start@) || named_by(
                        o1,
                        #[trigger] q2[i],
                    ) by {
                        if i < qmid.len() {
                            assert(q2[i] == q0[i]);
                            if o0.len() == 0 {
                                assert(q0.len() == 1);
                            }
                            assert(named_by(o0, q0[i]));
                            let j = choose|j: int| 0 <= j < o0.len() && (#[trigger] o0[j]).parent_ids.contains(q0[i]);
                            assert(o1[j] == o0[j]);
                        } else {
                            let mm = i - qmid.len();
                            assert(q2[i] == nv.parent_ids[mm]);
                            assert(o1[o0.len() as int] == nv);
                            assert(nv.parent_ids.contains(q2[i]));
                        }
                    }
                    assert forall|i: int| 0 <= i < q2.len() implies pool.contains(#[trigger] q2[i]) by {
                        if i < qmid.len() {
                            assert(q2[i] == q0[i]);
                        } else {
                            let mm = i - qmid.len();
                            assert(q2[i] == nv.parent_ids[mm]);
                            assert(iv[k as int].parent_ids.contains(q2[i]));
                            lemma_pool_has(iv, k as int, q2[i]);
                            let z = choose|z: int| 0 <= z < parent_pool(iv).len() && parent_pool(iv)[z] == q2[i];
                            assert(pool[z + 1] == q2[i]);
                        }
                    }
                    if was_empty {
                        assert(q0 == seq![start@]);
                        assert(id@ == start@);
                        assert(o1[0].id == start@);
                    } else {
                        assert(o1[0] == o0[0]);
                    }
                    assert(v1.contains(start@)) by {
                        if !was_empty {
                            let mm = choose|mm: int| 0 <= mm < v0.len() && v0[mm] == start@;
                            assert(v1[mm] == start@);
                        }
                    }
                    if node_for(iv, start@) is None {
                        assert(!was_empty);
                    }
                }
            },
        }
    }
    proof {
        let o = node_views(out@);
        let v = strs(visited);
        if node_for(iv, start@) is Some {
            assert(v.len() > 0);
        }
        assert forall|kk: int, p: Seq<char>|
            0 <= kk < o.len() && #[trigger] o[kk].parent_ids.contains(p) && node_for(iv, p) is Some implies ids_of(
            o,
        ).contains(p) by {
            assert(v.contains(p) || strs(queue).contains(p));
        }
    }
    out
}

/// The ancestry node of a role.
pub open spec fn role_node(r: Role) -> AncestryNodeView {
    AncestryNodeView {
        id: r.id@,
        name: r.name@,
        generation: r.lineage.generation,
        created_by: r.lineage.created_by@,
        created_at: r.lineage.created_at@,
        parent_ids: strs(r.lineage.parent_ids),
    }
}

/// The ancestry node of a motivation.
pub open spec fn motivation_node(m: Motivation) -> AncestryNodeView {
    AncestryNodeView {
        id: m.id@,
        name: m.name@,
        generation: m.lineage.generation,
        created_by: m.lineage.created_by@,
        created_at: m.lineage.created_at@,
        parent_ids: strs(m.lineage.parent_ids),
    }
}

/// The ancestry of role `role_id` among `roles`, from the role itself up to
/// its oldest ancestors, in the order of the stack walk.
pub fn role_ancestry(role_id: &str, roles: &Vec<Role>) -> (r: Vec<AncestryNode>)
    ensures
        is_ancestry(roles@.map_values(|x: Role| role_node(x)), role_id@, node_views(r@)),
        node_views(r@) == ancestry_order(roles@.map_values(|x: Role| role_node(x)), role_id@),
{
    let mut items: Vec<AncestryNode> = Vec::new();
    let mut i: usize = 0;
    while i < roles.len()
        invariant
            i <= roles.len(),
            node_views(items@) == roles@.take(i as int).map_values(|x: Role| role_node(x)),
        decreases roles.len() - i,
    {
        let ghost before = node_views(items@);
        let x = &roles[i];
        items.push(
            AncestryNode {
                id: x.id.clone(),
                name: x.name.clone(),
                generation: x.lineage.generation,
                created_by: x.lineage.created_by.clone(),
                created_at: x.lineage.created_at.clone(),
                parent_ids: clone_strs(&x.lineage.parent_ids),
            },
        );
        proof {
            assert(node_views(items@) =~= before.push(role_node(roles@[i as int])));
            assert(roles@.take(i + 1).map_values(|x: Role| role_node(x)) =~= roles@.take(i as int).map_values(
                |x: Role| role_node(x),
            ).push(role_node(roles@[i as int])));
        }
        i = i + 1;
    }
    assert(roles@.take(roles.len() as int) =~= roles@);
    ancestry(&items, role_id)
}

/// The ancestry of motivation `motivation_id` among `motivations`, from the
/// motivation itself up to its oldest ancestors.
pub fn motivation_ancestry(motivation_id: &str, motivations: &Vec<Motivation>) -> (r: Vec<AncestryNode>)
    ensures
        is_ancestry(motivations@.map_values(|x: Motivation| motivation_node(x)), motivation_id@, node_views(r@)),
        node_views(r@) == ancestry_order(motivations@.map_values(|x: Motivation| motivation_node(x)), motivation_id@),
{
    let mut items: Vec<AncestryNode> = Vec::new();
    let mut i: usize = 0;
    while i < motivations.len()
        invariant
            i <= motivations.len(),
            node_views(items@) == motivations@.take(i as int).map_values(|x: Motivation| motivation_node(x)),
        decreases motivations.len() - i,
    {
        let ghost before = node_views(items@);
        let x = &motivations[i];
        items.push(
            AncestryNode {
                id: x.id.clone(),
                name: x.name.clone(),
                generation: x.lineage.generation,
                created_by: x.lineage.created_by.clone(),
                created_at: x.lineage.created_at.clone(),
                parent_ids: clone_strs(&x.lineage.parent_ids),
            },
        );
        proof {
            assert(node_views(items@) =~= before.push(motivation_node(motivations@[i as int])));
            assert(motivations@.take(i + 1).map_values(|x: Motivation| motivation_node(x)) =~= motivations@.take(
                i as int,
            ).map_values(|x: Motivation| motivation_node(x)).push(motivation_node(motivations@[i as int])));
        }
        i = i + 1;
    }
    assert(motivations@.take(motivations.len() as int) =~= motivations@);
    ancestry(&items, motivation_id)
}

} // verus!
