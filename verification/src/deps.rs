//! Who waits on whom: the reverse dependency index and transitive dependents.
use vstd::prelude::*;
use crate::graph::{Node, NodeView, WorkGraph, strs};
use crate::check::views;
use crate::text::{clone_strs, contains_str, str_eq};

verus! {

/// The tasks waiting on one blocker, in graph order, once per listing.
#[derive(Debug, Clone)]
pub struct ReverseEntry {
    pub blocker: String,
    pub dependents: Vec<String>,
}

pub ghost struct ReverseEntryView {
    pub blocker: Seq<char>,
    pub dependents: Seq<Seq<char>>,
}

impl View for ReverseEntry {
    type V = ReverseEntryView;

    open spec fn view(&self) -> ReverseEntryView {
        ReverseEntryView { blocker: self.blocker@, dependents: strs(self.dependents) }
    }
}

/// For each blocker id, the ids of the tasks that list it in `blocked_by`.
#[derive(Debug, Clone)]
pub struct ReverseIndex {
    pub entries: Vec<ReverseEntry>,
}

impl View for ReverseIndex {
    type V = Seq<ReverseEntryView>;

    open spec fn view(&self) -> Seq<ReverseEntryView> {
        views(self.entries@)
    }
}

/// No blocker has two entries.
pub open spec fn distinct_blockers(e: Seq<ReverseEntryView>) -> bool {
    forall|i: int, j: int|
        0 <= i < e.len() && 0 <= j < e.len() && i != j ==> (#[trigger] e[i]).blocker != (#[trigger] e[j]).blocker
}

/// Whether the index has an entry for `a`.
pub open spec fn has_entry(e: Seq<ReverseEntryView>, a: Seq<char>) -> bool {
    exists|i: int| 0 <= i < e.len() && (#[trigger] e[i]).blocker == a
}

/// The dependents recorded for `a` (empty when there is no entry).
pub open spec fn deps_of(e: Seq<ReverseEntryView>, a: Seq<char>) -> Seq<Seq<char>> {
    if has_entry(e, a) {
        e[choose|i: int| 0 <= i < e.len() && (#[trigger] e[i]).blocker == a].dependents
    } else {
        Seq::empty()
    }
}

/// `id` once for every listing of `a` among `bs`.
pub open spec fn listings(bs: Seq<Seq<char>>, a: Seq<char>, id: Seq<char>) -> Seq<Seq<char>>
    decreases bs.len(),
{
    if bs.len() == 0 {
        Seq::empty()
    } else {
        listings(bs.drop_last(), a, id) + if bs.last() == a {
            seq![id]
        } else {
            Seq::empty()
        }
    }
}

/// The tasks among `part` that list `a` in `blocked_by`, in order, once per listing.
pub open spec fn dependents_in(part: Seq<NodeView>, a: Seq<char>) -> Seq<Seq<char>>
    decreases part.len(),
{
    if part.len() == 0 {
        Seq::empty()
    } else {
        dependents_in(part.drop_last(), a) + match part.last() {
            NodeView::Task(t) => listings(t.blocked_by, a, t.id),
            NodeView::Resource(_) => Seq::empty(),
        }
    }
}

/// The index holds an entry, for exactly the ids with dependents, listing them.
pub open spec fn indexes(e: Seq<ReverseEntryView>, nodes: Seq<NodeView>) -> bool {
    &&& distinct_blockers(e)
    &&& forall|a: Seq<char>| #[trigger] deps_of(e, a) == dependents_in(nodes, a)
    &&& forall|a: Seq<char>| has_entry(e, a) <==> dependents_in(nodes, a).len() > 0
}

pub proof fn lemma_deps_of_at(e: Seq<ReverseEntryView>, i: int)
    requires
        distinct_blockers(e),
        0 <= i < e.len(),
    ensures
        deps_of(e, e[i].blocker) == e[i].dependents,
{
    let a = e[i].blocker;
    assert(has_entry(e, a));
    let k = choose|k: int| 0 <= k < e.len() && (#[trigger] e[k]).blocker == a;
    assert(k == i);
}

fn find_entry(entries: &Vec<ReverseEntry>, a: &str) -> (r: Option<usize>)
    ensures
        match r {
            Some(i) => i < entries@.len() && entries@[i as int].blocker@ == a@,
            None => !has_entry(views(entries@), a@),
        },
{
    let ghost ev = views(entries@);
    let mut i: usize = 0;
    while i < entries.len()
        invariant
            i <= entries.len(),
            ev == views(entries@),
            forall|j: int| 0 <= j < i ==> (#[trigger] ev[j]).blocker != a@,
        decreases entries.len() - i,
    {
        if str_eq(entries[i].blocker.as_str(), a) {
            return Some(i);
        }
        i = i + 1;
    }
    None
}

/// Record that task `id` waits on `blocker`.
fn add_listing(entries: &mut Vec<ReverseEntry>, blocker: &String, id: &String)
    requires
        distinct_blockers(views(old(entries)@)),
    ensures
        distinct_blockers(views(final(entries)@)),
        forall|a: Seq<char>|
            #[trigger] deps_of(views(final(entries)@), a) == if a
                == blocker@ {
                deps_of(views(old(entries)@), a).push(id@)
            } else {
                deps_of(views(old(entries)@), a)
            },
        forall|a: Seq<char>|
            #[trigger] has_entry(views(final(entries)@), a) <==> (
            has_entry(views(old(entries)@), a) || a == blocker@),
{
    let ghost old_e = views(entries@);
    match find_entry(entries, blocker.as_str()) {
        Some(i) => {
            let mut deps = clone_strs(&entries[i].dependents);
            let ghost before = strs(deps);
            deps.push(id.clone());
            assert(strs(deps) =~= before.push(id@));
            let entry = ReverseEntry { blocker: entries[i].blocker.clone(), dependents: deps };
            entries.set(i, entry);
            let ghost new_e = views(entries@);
            assert(new_e =~= old_e.update(
                i as int,
                ReverseEntryView { blocker: old_e[i as int].blocker, dependents: old_e[i as int].dependents.push(id@) },
            ));
            proof {
                assert(distinct_blockers(new_e)) by {
                    assert forall|x: int, y: int|
                        0 <= x < new_e.len() && 0 <= y < new_e.len() && x != y implies (#[trigger] new_e[x]).blocker
                            != (#[trigger] new_e[y]).blocker by {
                        assert(new_e[x].blocker == old_e[x].blocker);
                        assert(new_e[y].blocker == old_e[y].blocker);
                    }
                }
                assert forall|a: Seq<char>| #[trigger] has_entry(new_e, a) <==> (has_entry(old_e, a) || a == blocker@) by {
                    if has_entry(new_e, a) {
                        let k = choose|k: int| 0 <= k < new_e.len() && (#[trigger] new_e[k]).blocker == a;
                        assert(old_e[k].blocker == a);
                    }
                    if has_entry(old_e, a) {
                        let k = choose|k: int| 0 <= k < old_e.len() && (#[trigger] old_e[k]).blocker == a;
                        assert(new_e[k].blocker == a);
                    }
                    if a == blocker@ {
                        assert(new_e[i as int].blocker == a);
                        assert(old_e[i as int].blocker == a);
                    }
                }
                assert forall|a: Seq<char>| #[trigger] deps_of(new_e, a) == if a == blocker@ {
                    deps_of(old_e, a).push(id@)
                } else {
                    deps_of(old_e, a)
                } by {
                    if a == blocker@ {
                        lemma_deps_of_at(old_e, i as int);
                        lemma_deps_of_at(new_e, i as int);
                    } else if has_entry(old_e, a) {
                        let k = choose|k: int| 0 <= k < old_e.len() && (#[trigger] old_e[k]).blocker == a;
                        lemma_deps_of_at(old_e, k);
                        assert(new_e[k] == old_e[k]);
                        lemma_deps_of_at(new_e, k);
                    } else {
                        if has_entry(new_e, a) {
                            let k = choose|k: int| 0 <= k < new_e.len() && (#[trigger] new_e[k]).blocker == a;
                            assert(old_e[k].blocker == a);
                        }
                    }
                }
            }
        },
        None => {
            let mut deps: Vec<String> = Vec::new();
            deps.push(id.clone());
            assert(strs(deps) =~= seq![id@]);
            let entry = ReverseEntry { blocker: blocker.clone(), dependents: deps };
            assert(entry@ == ReverseEntryView { blocker: blocker@, dependents: seq![id@] });
            entries.push(entry);
            let ghost new_e = views(entries@);
            assert(new_e =~= old_e.push(ReverseEntryView { blocker: blocker@, dependents: seq![id@] }));
            proof {
                lemma_deps_of_at(new_e, new_e.len() - 1);
                assert forall|a: Seq<char>| #[trigger] has_entry(new_e, a) <==> (has_entry(old_e, a) || a == blocker@) by {
                    if has_entry(new_e, a) && a != blocker@ {
                        let k = choose|k: int| 0 <= k < new_e.len() && (#[trigger] new_e[k]).blocker == a;
                        assert(old_e[k].blocker == a);
                    }
                    if has_entry(old_e, a) {
                        let k = choose|k: int| 0 <= k < old_e.len() && (#[trigger] old_e[k]).blocker == a;
                        assert(new_e[k].blocker == a);
                    }
                    if a == blocker@ {
                        assert(new_e[new_e.len() - 1].blocker == a);
                    }
                }
                assert forall|a: Seq<char>| #[trigger] deps_of(new_e, a) == if a == blocker@ {
                    deps_of(old_e, a).push(id@)
                } else {
                    deps_of(old_e, a)
                } by {
                    if a == blocker@ {
                        assert(deps_of(old_e, a) =~= Seq::<Seq<char>>::empty());
                        assert(seq![id@] =~= Seq::<Seq<char>>::empty().push(id@));
                    } else if has_entry(old_e, a) {
                        let k = choose|k: int| 0 <= k < old_e.len() && (#[trigger] old_e[k]).blocker == a;
                        lemma_deps_of_at(old_e, k);
                        assert(new_e[k] == old_e[k]);
                        lemma_deps_of_at(new_e, k);
                    } else {
                        assert(!has_entry(new_e, a));
                    }
                }
            }
        },
    }
}

/// Build the reverse index: for each blocker id, the tasks that list it in
/// `blocked_by`, in graph order.
pub fn build_reverse_index(graph: &WorkGraph) -> (r: ReverseIndex)
    ensures
        indexes(r@, graph@),
{
    let mut entries: Vec<ReverseEntry> = Vec::new();
    let mut i: usize = 0;
    proof {
        assert forall|a: Seq<char>| #[trigger] deps_of(views(entries@), a) == dependents_in(graph@.take(0), a) by {
            assert(!has_entry(views(entries@), a));
            assert(dependents_in(graph@.take(0), a) =~= Seq::<Seq<char>>::empty());
        }
        assert forall|a: Seq<char>| has_entry(views(entries@), a) <==> dependents_in(graph@.take(0), a).len() > 0 by {
            assert(dependents_in(graph@.take(0), a) =~= Seq::<Seq<char>>::empty());
        }
    }
    while i < graph.nodes.len()
        invariant
            i <= graph.nodes.len(),
            graph@.len() == graph.nodes.len(),
            distinct_blockers(views(entries@)),
            forall|a: Seq<char>| #[trigger] deps_of(views(entries@), a) == dependents_in(graph@.take(i as int), a),
            forall|a: Seq<char>| has_entry(views(entries@), a) <==> dependents_in(graph@.take(i as int), a).len() > 0,
        decreases graph.nodes.len() - i,
    {
        assert(graph@.take(i + 1).drop_last() =~= graph@.take(i as int));
        assert(graph@.take(i + 1).last() == graph.nodes@[i as int]@);
        match &graph.nodes[i] {
            Node::Task(t) => {
                let ghost prev = graph@.take(i as int);
                let ghost bs = strs(t.blocked_by);
                let mut j: usize = 0;
                proof {
                    assert forall|a: Seq<char>| #[trigger] deps_of(views(entries@), a) == dependents_in(prev, a) + listings(bs.take(0), a, t.id@) by {
                        assert(listings(bs.take(0), a, t.id@) =~= Seq::<Seq<char>>::empty());
                        assert(dependents_in(prev, a) + Seq::<Seq<char>>::empty() =~= dependents_in(prev, a));
                    }
                    assert forall|a: Seq<char>| has_entry(views(entries@), a) <==> (dependents_in(prev, a) + listings(bs.take(0), a, t.id@)).len() > 0 by {
                        assert(listings(bs.take(0), a, t.id@) =~= Seq::<Seq<char>>::empty());
                    }
                }
                while j < t.blocked_by.len()
                    invariant
                        j <= t.blocked_by.len(),
                        bs == strs(t.blocked_by),
                        prev == graph@.take(i as int),
                        distinct_blockers(views(entries@)),
                        forall|a: Seq<char>| #[trigger] deps_of(views(entries@), a) == dependents_in(prev, a) + listings(bs.take(j as int), a, t.id@),
                        forall|a: Seq<char>| has_entry(views(entries@), a) <==> (dependents_in(prev, a) + listings(bs.take(j as int), a, t.id@)).len() > 0,
                    decreases t.blocked_by.len() - j,
                {
                    let ghost before = views(entries@);
                    add_listing(&mut entries, &t.blocked_by[j], &t.id);
                    proof {
                        let b = bs[j as int];
                        assert(b == t.blocked_by@[j as int]@);
                        assert(bs.take(j + 1).drop_last() =~= bs.take(j as int));
                        assert(bs.take(j + 1).last() == b);
                        assert forall|a: Seq<char>| #[trigger] deps_of(views(entries@), a) == dependents_in(prev, a) + listings(bs.take(j + 1), a, t.id@) by {
                            let l0 = listings(bs.take(j as int), a, t.id@);
                            if a == b {
                                assert(listings(bs.take(j + 1), a, t.id@) =~= l0.push(t.id@));
                                assert((dependents_in(prev, a) + l0).push(t.id@) =~= dependents_in(prev, a) + l0.push(t.id@));
                            } else {
                                assert(listings(bs.take(j + 1), a, t.id@) =~= l0);
                            }
                        }
                        assert forall|a: Seq<char>| has_entry(views(entries@), a) <==> (dependents_in(prev, a) + listings(bs.take(j + 1), a, t.id@)).len() > 0 by {
                            let l0 = listings(bs.take(j as int), a, t.id@);
                            if a == b {
                                assert(listings(bs.take(j + 1), a, t.id@) =~= l0.push(t.id@));
                            } else {
                                assert(listings(bs.take(j + 1), a, t.id@) =~= l0);
                            }
                        }
                    }
                    j = j + 1;
                }
                proof {
                    assert(bs.take(t.blocked_by.len() as int) =~= bs);
                }
            },
            Node::Resource(_) => {
                proof {
                    assert forall|a: Seq<char>| #[trigger] dependents_in(graph@.take(i + 1), a) == dependents_in(graph@.take(i as int), a) by {
                        assert(dependents_in(graph@.take(i as int), a) + Seq::<Seq<char>>::empty() =~= dependents_in(graph@.take(i as int), a));
                    }
                }
            },
        }
        i = i + 1;
    }
    assert(graph@.take(graph.nodes.len() as int) =~= graph@);
    ReverseIndex { entries }
}

// ---------------------------------------------------------------------------
// Transitive dependents
// ---------------------------------------------------------------------------

/// `b` waits on `a` directly, according to the index.
pub open spec fn waits(e: Seq<ReverseEntryView>, a: Seq<char>, b: Seq<char>) -> bool {
    deps_of(e, a).contains(b)
}

/// `p` is a chain of waiting that starts at a dependent of `a`.
pub open spec fn chain_from(e: Seq<ReverseEntryView>, a: Seq<char>, p: Seq<Seq<char>>) -> bool {
    &&& p.len() > 0
    &&& waits(e, a, p[0])
    &&& forall|k: int| #![trigger p[k]] 0 <= k < p.len() - 1 ==> waits(e, p[k], p[k + 1])
}

/// `b` waits on `a`, directly or through other tasks.
pub open spec fn reaches(e: Seq<ReverseEntryView>, a: Seq<char>, b: Seq<char>) -> bool {
    exists|p: Seq<Seq<char>>| chain_from(e, a, p) && p.last() == b
}

/// Every dependent listed anywhere in the index.
pub open spec fn pool(e: Seq<ReverseEntryView>) -> Seq<Seq<char>>
    decreases e.len(),
{
    if e.len() == 0 {
        Seq::empty()
    } else {
        pool(e.drop_last()) + e.last().dependents
    }
}

/// How many entries of `ids` are not in `vis`.
pub open spec fn missing(ids: Seq<Seq<char>>, vis: Seq<Seq<char>>) -> nat
    decreases ids.len(),
{
    if ids.len() == 0 {
        0
    } else {
        missing(ids.drop_last(), vis) + if vis.contains(ids.last()) {
            0nat
        } else {
            1nat
        }
    }
}

pub proof fn lemma_missing_mono(ids: Seq<Seq<char>>, a: Seq<Seq<char>>, b: Seq<Seq<char>>)
    requires
        forall|x: Seq<char>| a.contains(x) ==> b.contains(x),
    ensures
        missing(ids, b) <= missing(ids, a),
    decreases ids.len(),
{
    if ids.len() > 0 {
        lemma_missing_mono(ids.drop_last(), a, b);
    }
}

pub proof fn lemma_missing_strict(ids: Seq<Seq<char>>, a: Seq<Seq<char>>, b: Seq<Seq<char>>, x: Seq<char>)
    requires
        forall|y: Seq<char>| a.contains(y) ==> b.contains(y),
        ids.contains(x),
        !a.contains(x),
        b.contains(x),
    ensures
        missing(ids, b) < missing(ids, a),
    decreases ids.len(),
{
    lemma_missing_mono(ids.drop_last(), a, b);
    if ids.last() != x {
        let k = choose|k: int| 0 <= k < ids.len() && ids[k] == x;
        assert(ids.drop_last()[k] == x);
        lemma_missing_strict(ids.drop_last(), a, b, x);
    }
}

proof fn lemma_pool_has(e: Seq<ReverseEntryView>, k: int, x: Seq<char>)
    requires
        0 <= k < e.len(),
        e[k].dependents.contains(x),
    ensures
        pool(e).contains(x),
    decreases e.len(),
{
    let d = e.last().dependents;
    if k == e.len() - 1 {
        let m = choose|m: int| 0 <= m < d.len() && d[m] == x;
        assert(pool(e)[pool(e.drop_last()).len() + m] == x);
    } else {
        assert(e.drop_last()[k] == e[k]);
        lemma_pool_has(e.drop_last(), k, x);
        let m = choose|m: int| 0 <= m < pool(e.drop_last()).len() && pool(e.drop_last())[m] == x;
        assert(pool(e)[m] == x);
    }
}

proof fn lemma_waits_in_pool(e: Seq<ReverseEntryView>, a: Seq<char>, b: Seq<char>)
    requires
        waits(e, a, b),
    ensures
        pool(e).contains(b),
{
    let k = choose|k: int| 0 <= k < e.len() && (#[trigger] e[k]).blocker == a;
    lemma_pool_has(e, k, b);
}

proof fn lemma_chain_prepend(e: Seq<ReverseEntryView>, a: Seq<char>, d: Seq<char>, x: Seq<char>)
    requires
        waits(e, a, d),
        reaches(e, d, x),
    ensures
        reaches(e, a, x),
{
    let p = choose|p: Seq<Seq<char>>| chain_from(e, d, p) && p.last() == x;
    let q = seq![d] + p;
    assert(q[0] == d);
    assert forall|k: int| #![trigger q[k]] 0 <= k < q.len() - 1 implies waits(e, q[k], q[k + 1]) by {
        if k == 0 {
            assert(q[1] == p[0]);
        } else {
            assert(q[k] == p[k - 1]);
            assert(q[k + 1] == p[k]);
        }
    }
    assert(q.last() == x);
    assert(chain_from(e, a, q));
}

proof fn lemma_direct_reaches(e: Seq<ReverseEntryView>, a: Seq<char>, d: Seq<char>)
    requires
        waits(e, a, d),
    ensures
        reaches(e, a, d),
{
    let q = seq![d];
    assert(chain_from(e, a, q));
    assert(q.last() == d);
}

/// Index of the entry for `id`.
pub fn entry_for(index: &ReverseIndex, id: &str) -> (r: Option<usize>)
    ensures
        match r {
            Some(k) => k < index@.len() && index@[k as int].blocker == id@,
            None => !has_entry(index@, id@),
        },
{
    find_entry(&index.entries, id)
}

/// Add to `visited` every task that waits on `task_id`, directly or through
/// other tasks, searching depth first; a task already in `visited` is not
/// searched again.
pub fn collect_transitive_dependents(index: &ReverseIndex, task_id: &str, visited: &mut Vec<String>)
    requires
        distinct_blockers(index@),
        strs(*old(visited)).no_duplicates(),
    ensures
        strs(*final(visited)).no_duplicates(),
        forall|x: Seq<char>| strs(*old(visited)).contains(x) ==> strs(*final(visited)).contains(x),
        forall|x: Seq<char>|
            #![trigger strs(*final(visited)).contains(x)]
            strs(*final(visited)).contains(x) && !strs(*old(visited)).contains(x) ==> reaches(index@, task_id@, x),
        forall|x: Seq<char>| waits(index@, task_id@, x) ==> strs(*final(visited)).contains(x),
        forall|x: Seq<char>, y: Seq<char>|
            #![trigger strs(*final(visited)).contains(x), waits(index@, x, y)]
            strs(*final(visited)).contains(x) && !strs(*old(visited)).contains(x) && waits(index@, x, y)
                ==> strs(*final(visited)).contains(y),
        strs(*old(visited)).len() == 0 ==> forall|x: Seq<char>|
            #![trigger strs(*final(visited)).contains(x)]
            strs(*final(visited)).contains(x) <==> reaches(index@, task_id@, x),
    decreases missing(pool(index@), strs(*old(visited))),
{
    let ghost e = index@;
    let ghost start = strs(*visited);
    match entry_for(index, task_id) {
        Some(k) => {
            let deps = &index.entries[k].dependents;
            proof {
                lemma_deps_of_at(e, k as int);
                assert(e[k as int].dependents == strs(*deps));
            }
            let mut j: usize = 0;
            while j < deps.len()
                invariant
                    j <= deps.len(),
                    e == index@,
                    distinct_blockers(e),
                    deps_of(e, task_id@) == strs(*deps),
                    start == strs(*old(visited)),
                    strs(*visited).no_duplicates(),
                    forall|x: Seq<char>| start.contains(x) ==> strs(*visited).contains(x),
                    forall|x: Seq<char>|
                        #![trigger strs(*visited).contains(x)]
                        strs(*visited).contains(x) && !start.contains(x) ==> reaches(e, task_id@, x),
                    forall|m: int| 0 <= m < j ==> strs(*visited).contains(#[trigger] strs(*deps)[m]),
                    forall|x: Seq<char>, y: Seq<char>|
                        #![trigger strs(*visited).contains(x), waits(e, x, y)]
                        strs(*visited).contains(x) && !start.contains(x) && waits(e, x, y)
                            ==> strs(*visited).contains(y),
                    missing(pool(e), strs(*visited)) <= missing(pool(e), start),
                decreases deps.len() - j,
            {
                let d = &deps[j];
                assert(strs(*deps)[j as int] == d@);
                assert(waits(e, task_id@, d@));
                if !contains_str(visited, d.as_str()) {
                    assert(strs(*visited) =~= visited@.map_values(|x: String| x@));
                    let ghost mid = strs(*visited);
                    visited.push(d.clone());
                    let ghost pushed = strs(*visited);
                    assert(pushed =~= mid.push(d@));
                    proof {
                        assert(pushed.last() == d@);
                        assert(pushed.no_duplicates()) by {
                            assert forall|a: int, b: int| 0 <= a < pushed.len() && 0 <= b < pushed.len() && a != b implies pushed[a] != pushed[b] by {
                                if a < mid.len() && b < mid.len() {
                                    assert(pushed[a] == mid[a]);
                                    assert(pushed[b] == mid[b]);
                                } else if a == mid.len() {
                                    assert(pushed[b] == mid[b]);
                                } else {
                                    assert(pushed[a] == mid[a]);
                                }
                            }
                        }
                        assert forall|x: Seq<char>| mid.contains(x) implies pushed.contains(x) by {
                            let m = choose|m: int| 0 <= m < mid.len() && mid[m] == x;
                            assert(pushed[m] == x);
                        }
                        lemma_waits_in_pool(e, task_id@, d@);
                        assert(!start.contains(d@));
                        lemma_missing_strict(pool(e), start, pushed, d@);
                        lemma_direct_reaches(e, task_id@, d@);
                    }
                    collect_transitive_dependents(index, d.as_str(), visited);
                    proof {
                        let fin = strs(*visited);
                        assert(fin.contains(d@));
                        assert forall|x: Seq<char>| #![trigger fin.contains(x)] fin.contains(x) && !start.contains(x) implies reaches(e, task_id@, x) by {
                            if !pushed.contains(x) {
                                assert(reaches(e, d@, x));
                                lemma_chain_prepend(e, task_id@, d@, x);
                            } else if x != d@ {
                                let m = choose|m: int| 0 <= m < pushed.len() && pushed[m] == x;
                                assert(mid[m] == x);
                                assert(mid.contains(x));
                            } else {
                                lemma_direct_reaches(e, task_id@, d@);
                            }
                        }
                        assert forall|x: Seq<char>, y: Seq<char>|
                            #![trigger fin.contains(x), waits(e, x, y)]
                            fin.contains(x) && !start.contains(x) && waits(e, x, y) implies fin.contains(y) by {
                            if pushed.contains(x) && x != d@ {
                                let m = choose|m: int| 0 <= m < pushed.len() && pushed[m] == x;
                                assert(mid[m] == x);
                                assert(mid.contains(x));
                            }
                        }
                        assert forall|m: int| 0 <= m < j + 1 implies fin.contains(#[trigger] strs(*deps)[m]) by {
                            if m < j {
                                assert(mid.contains(strs(*deps)[m]));
                            }
                        }
                        lemma_missing_mono(pool(e), pushed, fin);
                        lemma_missing_mono(pool(e), mid, pushed);
                    }
                } else {
                    assert(strs(*visited) =~= visited@.map_values(|x: String| x@));
                }
                j = j + 1;
            }
            proof {
                assert forall|x: Seq<char>| waits(e, task_id@, x) implies strs(*visited).contains(x) by {
                    let m = choose|m: int| 0 <= m < strs(*deps).len() && strs(*deps)[m] == x;
                }
            }
        },
        None => {
            assert(deps_of(e, task_id@) =~= Seq::<Seq<char>>::empty());
        },
    }
    proof {
        if start.len() == 0 {
            let vis = strs(*visited);
            assert forall|x: Seq<char>, y: Seq<char>|
                #![trigger vis.contains(x), waits(e, x, y)]
                vis.contains(x) && waits(e, x, y) implies vis.contains(y) by {
                assert(!start.contains(x));
            }
            assert forall|x: Seq<char>| #![trigger vis.contains(x)] vis.contains(x) <==> reaches(e, task_id@, x) by {
                if reaches(e, task_id@, x) {
                    let p = choose|p: Seq<Seq<char>>| chain_from(e, task_id@, p) && p.last() == x;
                    lemma_chain_inside(e, task_id@, vis, p, p.len() - 1);
                }
                if vis.contains(x) {
                    assert(!start.contains(x));
                }
            }
        }
    }
}

proof fn lemma_chain_inside(e: Seq<ReverseEntryView>, a: Seq<char>, vis: Seq<Seq<char>>, p: Seq<Seq<char>>, k: int)
    requires
        chain_from(e, a, p),
        0 <= k < p.len(),
        forall|x: Seq<char>| waits(e, a, x) ==> vis.contains(x),
        forall|x: Seq<char>, y: Seq<char>| #![trigger vis.contains(x), waits(e, x, y)] vis.contains(x) && waits(e, x, y) ==> vis.contains(y),
    ensures
        vis.contains(p[k]),
    decreases k,
{
    if k > 0 {
        lemma_chain_inside(e, a, vis, p, k - 1);
        assert(waits(e, p[k - 1], p[k]));
    }
}

/// The set of tasks that wait on `a`, directly or through other tasks.
pub open spec fn reach_set(e: Seq<ReverseEntryView>, a: Seq<char>) -> Set<Seq<char>> {
    Set::new(|x: Seq<char>| reaches(e, a, x))
}

/// The tasks that wait on `id`, directly or through other tasks, each once.
pub fn transitive_dependents(index: &ReverseIndex, id: &str) -> (r: Vec<String>)
    requires
        distinct_blockers(index@),
    ensures
        strs(r).no_duplicates(),
        forall|x: Seq<char>| strs(r).contains(x) <==> reaches(index@, id@, x),
        strs(r).len() == reach_set(index@, id@).len(),
{
    let mut visited: Vec<String> = Vec::new();
    assert(strs(visited) =~= Seq::<Seq<char>>::empty());
    collect_transitive_dependents(index, id, &mut visited);
    proof {
        let e = index@;
        let vis = strs(visited);
        assert forall|x: Seq<char>| reaches(e, id@, x) implies vis.contains(x) by {
            let p = choose|p: Seq<Seq<char>>| chain_from(e, id@, p) && p.last() == x;
            lemma_chain_inside(e, id@, vis, p, p.len() - 1);
        }
        assert(vis.to_set() =~= reach_set(e, id@));
        vis.unique_seq_to_set();
    }
    visited
}

// ---------------------------------------------------------------------------
// The index and the graph
// ---------------------------------------------------------------------------

/// Node `n` is a task with id `b` that lists `a` in `blocked_by`.
pub open spec fn lists_blocker(n: NodeView, a: Seq<char>, b: Seq<char>) -> bool {
    match n {
        NodeView::Task(t) => t.id == b && t.blocked_by.contains(a),
        NodeView::Resource(_) => false,
    }
}

/// Some task with id `b` lists `a` in `blocked_by`.
pub open spec fn graph_waits(nodes: Seq<NodeView>, a: Seq<char>, b: Seq<char>) -> bool {
    exists|j: int| 0 <= j < nodes.len() && #[trigger] lists_blocker(nodes[j], a, b)
}

/// `b` waits on `a` in the graph, directly or through other tasks.
pub open spec fn graph_reaches(nodes: Seq<NodeView>, a: Seq<char>, b: Seq<char>) -> bool {
    exists|p: Seq<Seq<char>>|
        {
            &&& p.len() > 0
            &&& graph_waits(nodes, a, p[0])
            &&& forall|k: int| #![trigger p[k]] 0 <= k < p.len() - 1 ==> graph_waits(nodes, p[k], p[k + 1])
            &&& p.last() == b
        }
}

proof fn lemma_listings(bs: Seq<Seq<char>>, a: Seq<char>, id: Seq<char>, b: Seq<char>)
    ensures
        listings(bs, a, id).contains(b) <==> (bs.contains(a) && id == b),
    decreases bs.len(),
{
    if bs.len() > 0 {
        lemma_listings(bs.drop_last(), a, id, b);
        let l0 = listings(bs.drop_last(), a, id);
        if bs.contains(a) && bs.last() != a {
            let k = choose|k: int| 0 <= k < bs.len() && bs[k] == a;
            assert(bs.drop_last()[k] == a);
        }
        if bs.drop_last().contains(a) {
            let k = choose|k: int| 0 <= k < bs.drop_last().len() && bs.drop_last()[k] == a;
            assert(bs[k] == a);
        }
        if bs.last() == a {
            assert(listings(bs, a, id) == l0.push(id));
            assert(listings(bs, a, id)[l0.len() as int] == id);
            if l0.contains(b) {
                let k = choose|k: int| 0 <= k < l0.len() && l0[k] == b;
                assert(listings(bs, a, id)[k] == b);
            }
        } else {
            assert(listings(bs, a, id) =~= l0);
        }
    }
}

proof fn lemma_dependents_in(part: Seq<NodeView>, a: Seq<char>, b: Seq<char>)
    ensures
        dependents_in(part, a).contains(b) <==> graph_waits(part, a, b),
    decreases part.len(),
{
    if part.len() > 0 {
        let rest = part.drop_last();
        lemma_dependents_in(rest, a, b);
        let d0 = dependents_in(rest, a);
        let tail = match part.last() {
            NodeView::Task(t) => listings(t.blocked_by, a, t.id),
            NodeView::Resource(_) => Seq::empty(),
        };
        assert(dependents_in(part, a) == d0 + tail);
        match part.last() {
            NodeView::Task(t) => lemma_listings(t.blocked_by, a, t.id, b),
            NodeView::Resource(_) => {},
        }
        if graph_waits(rest, a, b) {
            let j = choose|j: int| 0 <= j < rest.len() && #[trigger] lists_blocker(rest[j], a, b);
            assert(part[j] == rest[j]);
            let k = choose|k: int| 0 <= k < d0.len() && d0[k] == b;
            assert((d0 + tail)[k] == b);
        }
        if tail.contains(b) {
            let k = choose|k: int| 0 <= k < tail.len() && tail[k] == b;
            assert((d0 + tail)[d0.len() + k] == b);
            assert(lists_blocker(part[part.len() - 1], a, b));
        }
        if dependents_in(part, a).contains(b) {
            let k = choose|k: int| 0 <= k < (d0 + tail).len() && (d0 + tail)[k] == b;
            if k < d0.len() {
                assert(d0[k] == b);
            } else {
                assert(tail[k - d0.len()] == b);
            }
        }
        if graph_waits(part, a, b) {
            let j = choose|j: int| 0 <= j < part.len() && #[trigger] lists_blocker(part[j], a, b);
            if j < part.len() - 1 {
                assert(rest[j] == part[j]);
            }
        }
    }
}

/// The index built from a graph records exactly its direct dependencies:
/// `b` is listed under `a` if and only if a task with id `b` lists `a` in
/// `blocked_by`.
pub proof fn law_index_matches_graph(e: Seq<ReverseEntryView>, nodes: Seq<NodeView>, a: Seq<char>, b: Seq<char>)
    requires
        indexes(e, nodes),
    ensures
        waits(e, a, b) <==> graph_waits(nodes, a, b),
{
    assert(deps_of(e, a) == dependents_in(nodes, a));
    lemma_dependents_in(nodes, a, b);
}

/// Over an index built from a graph, transitive dependents are exactly the
/// tasks that wait on the given one in the graph, directly or through others.
pub proof fn law_transitive_matches_graph(e: Seq<ReverseEntryView>, nodes: Seq<NodeView>, a: Seq<char>, b: Seq<char>)
    requires
        indexes(e, nodes),
    ensures
        reaches(e, a, b) <==> graph_reaches(nodes, a, b),
{
    assert forall|x: Seq<char>, y: Seq<char>| waits(e, x, y) <==> graph_waits(nodes, x, y) by {
        law_index_matches_graph(e, nodes, x, y);
    }
    if reaches(e, a, b) {
        let p = choose|p: Seq<Seq<char>>| chain_from(e, a, p) && p.last() == b;
        assert forall|k: int| #![trigger p[k]] 0 <= k < p.len() - 1 implies graph_waits(nodes, p[k], p[k + 1]) by {
            assert(waits(e, p[k], p[k + 1]));
        }
        assert(graph_waits(nodes, a, p[0]));
    }
    if graph_reaches(nodes, a, b) {
        let p = choose|p: Seq<Seq<char>>|
            {
                &&& p.len() > 0
                &&& graph_waits(nodes, a, p[0])
                &&& forall|k: int| #![trigger p[k]] 0 <= k < p.len() - 1 ==> graph_waits(nodes, p[k], p[k + 1])
                &&& p.last() == b
            };
        assert forall|k: int| #![trigger p[k]] 0 <= k < p.len() - 1 implies waits(e, p[k], p[k + 1]) by {
            assert(graph_waits(nodes, p[k], p[k + 1]));
        }
        assert(waits(e, a, p[0]));
        assert(chain_from(e, a, p));
    }
}

} // verus!
