//! What a task can draw on from its dependencies, and who draws on it.
use vstd::prelude::*;
use crate::graph::{Node, NodeView, Status, Task, TaskView, WorkGraph, lookup_task, strs};
use crate::check::views;
use crate::messages::{not_found, not_found_text};
use crate::text::{clone_strs, contains_str};

verus! {

/// A dependency that has produced artifacts.
#[derive(Debug, Clone)]
pub struct ContextSource {
    pub task_id: String,
    pub task_title: String,
    pub status: Status,
    pub artifacts: Vec<String>,
}

pub ghost struct ContextSourceView {
    pub task_id: Seq<char>,
    pub task_title: Seq<char>,
    pub status: Status,
    pub artifacts: Seq<Seq<char>>,
}

impl View for ContextSource {
    type V = ContextSourceView;

    open spec fn view(&self) -> ContextSourceView {
        ContextSourceView {
            task_id: self.task_id@,
            task_title: self.task_title@,
            status: self.status,
            artifacts: strs(self.artifacts),
        }
    }
}

/// The inputs a task declares, what its dependencies offer, and what is missing.
#[derive(Debug, Clone)]
pub struct TaskContext {
    pub task_id: String,
    pub task_title: String,
    pub declared_inputs: Vec<String>,
    pub available_context: Vec<ContextSource>,
    pub missing_inputs: Vec<String>,
}

/// The source entry of a dependency task.
pub open spec fn source_of(d: TaskView) -> ContextSourceView {
    ContextSourceView { task_id: d.id, task_title: d.title, status: d.status, artifacts: d.artifacts }
}

/// The dependencies among `bs` that are tasks with artifacts, in order.
pub open spec fn sources(nodes: Seq<NodeView>, bs: Seq<Seq<char>>) -> Seq<ContextSourceView>
    decreases bs.len(),
{
    if bs.len() == 0 {
        Seq::empty()
    } else {
        sources(nodes, bs.drop_last()) + match lookup_task(nodes, bs.last()) {
            Some(d) => if d.artifacts.len() > 0 {
                seq![source_of(d)]
            } else {
                Seq::empty()
            },
            None => Seq::empty(),
        }
    }
}

/// Every artifact of the dependencies among `bs` that are tasks.
pub open spec fn produced(nodes: Seq<NodeView>, bs: Seq<Seq<char>>) -> Seq<Seq<char>>
    decreases bs.len(),
{
    if bs.len() == 0 {
        Seq::empty()
    } else {
        produced(nodes, bs.drop_last()) + match lookup_task(nodes, bs.last()) {
            Some(d) => d.artifacts,
            None => Seq::empty(),
        }
    }
}

/// The entries of `xs` that `have` lacks, in order.
pub open spec fn lacking(xs: Seq<Seq<char>>, have: Seq<Seq<char>>) -> Seq<Seq<char>>
    decreases xs.len(),
{
    if xs.len() == 0 {
        Seq::empty()
    } else {
        lacking(xs.drop_last(), have) + if have.contains(xs.last()) {
            Seq::empty()
        } else {
            seq![xs.last()]
        }
    }
}

fn lacking_of(xs: &Vec<String>, have: &Vec<String>) -> (r: Vec<String>)
    ensures
        strs(r) == lacking(strs(*xs), strs(*have)),
{
    let ghost x = strs(*xs);
    let mut out: Vec<String> = Vec::new();
    let mut k: usize = 0;
    assert(strs(out) =~= lacking(x.take(0), strs(*have)));
    while k < xs.len()
        invariant
            k <= xs.len(),
            x == strs(*xs),
            strs(out) == lacking(x.take(k as int), strs(*have)),
        decreases xs.len() - k,
    {
        proof {
            assert(x.take(k + 1).drop_last() =~= x.take(k as int));
            assert(x.take(k + 1).last() == xs@[k as int]@);
        }
        if !contains_str(have, xs[k].as_str()) {
            let ghost before = strs(out);
            out.push(xs[k].clone());
            assert(strs(out) =~= before.push(xs@[k as int]@));
        }
        k = k + 1;
    }
    assert(x.take(xs.len() as int) =~= x);
    out
}

/// The context of task `id`: its declared inputs, the dependencies that have
/// produced artifacts, and the inputs no dependency has produced. A missing
/// task is an error.
pub fn task_context(graph: &WorkGraph, id: &str) -> (r: Result<TaskContext, String>)
    ensures
        match r {
            Ok(c) => match lookup_task(graph@, id@) {
                Some(t) => c.task_id@ == t.id && c.task_title@ == t.title && strs(c.declared_inputs) == t.inputs
                    && views(c.available_context@) == sources(graph@, t.blocked_by) && strs(c.missing_inputs)
                    == lacking(t.inputs, produced(graph@, t.blocked_by))
                    && (forall|x: Seq<char>| #[trigger] strs(c.missing_inputs).contains(x) <==> (t.inputs.contains(x)
                        && forall|b: Seq<char>| #[trigger] t.blocked_by.contains(b) && lookup_task(graph@, b) is Some
                            ==> !lookup_task(graph@, b)->0.artifacts.contains(x)))
                    && (forall|b: Seq<char>| #[trigger] t.blocked_by.contains(b) && lookup_task(graph@, b) is Some
                        && lookup_task(graph@, b)->0.artifacts.len() > 0 ==> views(c.available_context@).contains(
                        source_of(lookup_task(graph@, b)->0),
                    )),
                None => false,
            },
            Err(m) => lookup_task(graph@, id@) is None && m@ == not_found_text(id@),
        },
{
    let task = match graph.get_task(id) {
        Some(t) => t,
        None => return Err(not_found(id)),
    };
    let ghost bb = strs(task.blocked_by);
    let mut available: Vec<ContextSource> = Vec::new();
    let mut all: Vec<String> = Vec::new();
    let mut k: usize = 0;
    proof {
        assert(views(available@) =~= sources(graph@, bb.take(0)));
        assert(strs(all) =~= produced(graph@, bb.take(0)));
    }
    while k < task.blocked_by.len()
        invariant
            k <= task.blocked_by.len(),
            bb == strs(task.blocked_by),
            views(available@) == sources(graph@, bb.take(k as int)),
            strs(all) == produced(graph@, bb.take(k as int)),
        decreases task.blocked_by.len() - k,
    {
        proof {
            assert(bb.take(k + 1).drop_last() =~= bb.take(k as int));
            assert(bb.take(k + 1).last() == task.blocked_by@[k as int]@);
        }
        let ghost a0 = views(available@);
        let ghost p0 = strs(all);
        if let Some(dep) = graph.get_task(task.blocked_by[k].as_str()) {
            let mut j: usize = 0;
            while j < dep.artifacts.len()
                invariant
                    j <= dep.artifacts.len(),
                    strs(all) == p0 + strs(dep.artifacts).take(j as int),
                decreases dep.artifacts.len() - j,
            {
                let ghost before = strs(all);
                all.push(dep.artifacts[j].clone());
                assert(strs(all) =~= before.push(dep.artifacts@[j as int]@));
                assert(strs(dep.artifacts).take(j + 1) =~= strs(dep.artifacts).take(j as int).push(
                    dep.artifacts@[j as int]@,
                ));
                j = j + 1;
            }
            assert(strs(dep.artifacts).take(dep.artifacts.len() as int) =~= strs(dep.artifacts));
            if dep.artifacts.len() > 0 {
                available.push(
                    ContextSource {
                        task_id: dep.id.clone(),
                        task_title: dep.title.clone(),
                        status: dep.status,
                        artifacts: clone_strs(&dep.artifacts),
                    },
                );
                assert(views(available@) =~= a0.push(source_of(dep@)));
            } else {
                assert(views(available@) =~= a0);
            }
        } else {
            assert(strs(all) =~= p0 + Seq::<Seq<char>>::empty());
        }
        k = k + 1;
    }
    proof {
        assert(bb.take(task.blocked_by.len() as int) =~= bb);
    }
    let missing = lacking_of(&task.inputs, &all);
    proof {
        assert forall|x: Seq<char>| #[trigger] strs(missing).contains(x) <==> (task@.inputs.contains(x)
            && forall|b: Seq<char>| #[trigger] task@.blocked_by.contains(b) && lookup_task(graph@, b) is Some
                ==> !lookup_task(graph@, b)->0.artifacts.contains(x)) by {
            law_context_offers_every_blocker(graph@, task@.blocked_by, task@.inputs, x);
        }
        law_context_offers_every_blocker(graph@, task@.blocked_by, task@.inputs, Seq::empty());
    }
    Ok(
        TaskContext {
            task_id: task.id.clone(),
            task_title: task.title.clone(),
            declared_inputs: clone_strs(&task.inputs),
            available_context: available,
            missing_inputs: missing,
        },
    )
}

/// A task that lists another in `blocked_by`, with the inputs it needs from it.
#[derive(Debug, Clone)]
pub struct Dependent {
    pub task_id: String,
    pub title: String,
    pub needs: Vec<String>,
}

pub ghost struct DependentView {
    pub task_id: Seq<char>,
    pub title: Seq<char>,
    pub needs: Seq<Seq<char>>,
}

impl View for Dependent {
    type V = DependentView;

    open spec fn view(&self) -> DependentView {
        DependentView { task_id: self.task_id@, title: self.title@, needs: strs(self.needs) }
    }
}

/// The entries of `xs` that `t` produces or promises (artifacts or
/// deliverables), in order.
pub open spec fn offered(xs: Seq<Seq<char>>, t: TaskView) -> Seq<Seq<char>>
    decreases xs.len(),
{
    if xs.len() == 0 {
        Seq::empty()
    } else {
        offered(xs.drop_last(), t) + if t.artifacts.contains(xs.last()) || t.deliverables.contains(xs.last()) {
            seq![xs.last()]
        } else {
            Seq::empty()
        }
    }
}

/// The tasks among `part` that list `id` in `blocked_by`, with what they need of `t`.
pub open spec fn dependents_of(part: Seq<NodeView>, id: Seq<char>, t: TaskView) -> Seq<DependentView>
    decreases part.len(),
{
    if part.len() == 0 {
        Seq::empty()
    } else {
        dependents_of(part.drop_last(), id, t) + match part.last() {
            NodeView::Task(o) => if o.blocked_by.contains(id) {
                seq![DependentView { task_id: o.id, title: o.title, needs: offered(o.inputs, t) }]
            } else {
                Seq::empty()
            },
            NodeView::Resource(_) => Seq::empty(),
        }
    }
}

fn offered_of(xs: &Vec<String>, t: &Task) -> (r: Vec<String>)
    ensures
        strs(r) == offered(strs(*xs), t@),
{
    let ghost x = strs(*xs);
    let mut out: Vec<String> = Vec::new();
    let mut k: usize = 0;
    assert(strs(out) =~= offered(x.take(0), t@));
    while k < xs.len()
        invariant
            k <= xs.len(),
            x == strs(*xs),
            strs(out) == offered(x.take(k as int), t@),
        decreases xs.len() - k,
    {
        proof {
            assert(x.take(k + 1).drop_last() =~= x.take(k as int));
            assert(x.take(k + 1).last() == xs@[k as int]@);
        }
        let s = xs[k].as_str();
        if contains_str(&t.artifacts, s) || contains_str(&t.deliverables, s) {
            let ghost before = strs(out);
            out.push(xs[k].clone());
            assert(strs(out) =~= before.push(xs@[k as int]@));
        }
        k = k + 1;
    }
    assert(x.take(xs.len() as int) =~= x);
    out
}

/// The tasks that list task `id` in `blocked_by`, in graph order, each with
/// the inputs it needs that `id` produces or promises. A missing task is an
/// error.
pub fn task_dependents(graph: &WorkGraph, id: &str) -> (r: Result<Vec<Dependent>, String>)
    ensures
        match r {
            Ok(v) => match lookup_task(graph@, id@) {
                Some(t) => views(v@) == dependents_of(graph@, id@, t),
                None => false,
            },
            Err(m) => lookup_task(graph@, id@) is None && m@ == not_found_text(id@),
        },
{
    let task = match graph.get_task(id) {
        Some(t) => t,
        None => return Err(not_found(id)),
    };
    let ghost tv = task@;
    let mut out: Vec<Dependent> = Vec::new();
    let mut i: usize = 0;
    assert(views(out@) =~= dependents_of(graph@.take(0), id@, tv));
    while i < graph.nodes.len()
        invariant
            i <= graph.nodes.len(),
            graph@.len() == graph.nodes.len(),
            tv == task@,
            views(out@) == dependents_of(graph@.take(i as int), id@, tv),
        decreases graph.nodes.len() - i,
    {
        proof {
            assert(graph@.take(i + 1).drop_last() =~= graph@.take(i as int));
            assert(graph@.take(i + 1).last() == graph.nodes@[i as int]@);
        }
        let ghost before = views(out@);
        if let Node::Task(o) = &graph.nodes[i] {
            if contains_str(&o.blocked_by, id) {
                let needs = offered_of(&o.inputs, task);
                out.push(Dependent { task_id: o.id.clone(), title: o.title.clone(), needs });
                assert(views(out@) =~= before.push(
                    DependentView { task_id: o@.id, title: o@.title, needs: offered(o@.inputs, tv) },
                ));
            }
        }
        i = i + 1;
    }
    assert(graph@.take(graph.nodes.len() as int) =~= graph@);
    Ok(out)
}

proof fn lemma_lacking(xs: Seq<Seq<char>>, have: Seq<Seq<char>>, x: Seq<char>)
    ensures
        lacking(xs, have).contains(x) <==> (xs.contains(x) && !have.contains(x)),
    decreases xs.len(),
{
    if xs.len() > 0 {
        let d = xs.drop_last();
        lemma_lacking(d, have, x);
        let prev = lacking(d, have);
        let tail: Seq<Seq<char>> = if have.contains(xs.last()) {
            Seq::empty()
        } else {
            seq![xs.last()]
        };
        assert(lacking(xs, have) == prev + tail);
        if (prev + tail).contains(x) {
            let m = choose|m: int| 0 <= m < (prev + tail).len() && (prev + tail)[m] == x;
            if m < prev.len() {
                assert(prev[m] == x);
                let i = choose|i: int| 0 <= i < d.len() && d[i] == x;
                assert(xs[i] == x);
            } else {
                assert(xs[xs.len() - 1] == x);
            }
        }
        if xs.contains(x) && !have.contains(x) {
            let i = choose|i: int| 0 <= i < xs.len() && xs[i] == x;
            if i < xs.len() - 1 {
                assert(d[i] == x);
                let m = choose|m: int| 0 <= m < prev.len() && prev[m] == x;
                assert((prev + tail)[m] == x);
            } else {
                assert((prev + tail)[prev.len() as int] == x);
            }
        }
    } else {
        assert(lacking(xs, have) =~= Seq::<Seq<char>>::empty());
    }
}

proof fn lemma_produced(nodes: Seq<NodeView>, bs: Seq<Seq<char>>, k: int, a: Seq<char>)
    requires
        0 <= k < bs.len(),
        lookup_task(nodes, bs[k]) matches Some(d) && d.artifacts.contains(a),
    ensures
        produced(nodes, bs).contains(a),
    decreases bs.len(),
{
    let d = bs.drop_last();
    let prev = produced(nodes, d);
    let tail: Seq<Seq<char>> = match lookup_task(nodes, bs.last()) {
        Some(t) => t.artifacts,
        None => Seq::empty(),
    };
    assert(produced(nodes, bs) == prev + tail);
    if k < bs.len() - 1 {
        assert(d[k] == bs[k]);
        lemma_produced(nodes, d, k, a);
        let m = choose|m: int| 0 <= m < prev.len() && prev[m] == a;
        assert((prev + tail)[m] == a);
    } else {
        let m = choose|m: int| 0 <= m < tail.len() && tail[m] == a;
        assert((prev + tail)[prev.len() + m] == a);
    }
}

proof fn lemma_sources(nodes: Seq<NodeView>, bs: Seq<Seq<char>>, k: int)
    requires
        0 <= k < bs.len(),
        lookup_task(nodes, bs[k]) matches Some(d) && d.artifacts.len() > 0,
    ensures
        sources(nodes, bs).contains(source_of(lookup_task(nodes, bs[k])->0)),
    decreases bs.len(),
{
    let d = bs.drop_last();
    let prev = sources(nodes, d);
    let tail: Seq<ContextSourceView> = match lookup_task(nodes, bs.last()) {
        Some(t) => if t.artifacts.len() > 0 {
            seq![source_of(t)]
        } else {
            Seq::empty()
        },
        None => Seq::empty(),
    };
    assert(sources(nodes, bs) == prev + tail);
    let s = source_of(lookup_task(nodes, bs[k])->0);
    if k < bs.len() - 1 {
        assert(d[k] == bs[k]);
        lemma_sources(nodes, d, k);
        let m = choose|m: int| 0 <= m < prev.len() && prev[m] == s;
        assert((prev + tail)[m] == s);
    } else {
        assert((prev + tail)[prev.len() as int] == s);
    }
}

/// What a dependency produced is never missing, and every dependency with
/// artifacts is offered as context, whatever its status: an input declared
/// among `inputs` is missing exactly when no task among the blockers `bs`
/// lists it as an artifact.
pub proof fn law_context_offers_every_blocker(
    nodes: Seq<NodeView>,
    bs: Seq<Seq<char>>,
    inputs: Seq<Seq<char>>,
    x: Seq<char>,
)
    ensures
        lacking(inputs, produced(nodes, bs)).contains(x) <==> (inputs.contains(x) && forall|b: Seq<char>|
            #[trigger] bs.contains(b) && lookup_task(nodes, b) is Some ==> !lookup_task(
                nodes,
                b,
            )->0.artifacts.contains(x)),
        forall|b: Seq<char>|
            #[trigger] bs.contains(b) && lookup_task(nodes, b) is Some && lookup_task(nodes, b)->0.artifacts.len()
                > 0 ==> sources(nodes, bs).contains(source_of(lookup_task(nodes, b)->0)),
{
    let have = produced(nodes, bs);
    lemma_lacking(inputs, have, x);
    assert forall|b: Seq<char>| #[trigger] bs.contains(b) && lookup_task(nodes, b) is Some
        && lookup_task(nodes, b)->0.artifacts.contains(x) implies have.contains(x) by {
        let k = choose|k: int| 0 <= k < bs.len() && bs[k] == b;
        lemma_produced(nodes, bs, k, x);
    }
    if have.contains(x) {
        lemma_produced_from(nodes, bs, x);
    }
    assert forall|b: Seq<char>| #[trigger] bs.contains(b) && lookup_task(nodes, b) is Some
        && lookup_task(nodes, b)->0.artifacts.len() > 0 implies sources(nodes, bs).contains(
        source_of(lookup_task(nodes, b)->0),
    ) by {
        let k = choose|k: int| 0 <= k < bs.len() && bs[k] == b;
        lemma_sources(nodes, bs, k);
    }
}

proof fn lemma_produced_from(nodes: Seq<NodeView>, bs: Seq<Seq<char>>, a: Seq<char>)
    requires
        produced(nodes, bs).contains(a),
    ensures
        exists|b: Seq<char>| #[trigger] bs.contains(b) && lookup_task(nodes, b) is Some
            && lookup_task(nodes, b)->0.artifacts.contains(a),
    decreases bs.len(),
{
    let d = bs.drop_last();
    let prev = produced(nodes, d);
    let tail: Seq<Seq<char>> = match lookup_task(nodes, bs.last()) {
        Some(t) => t.artifacts,
        None => Seq::empty(),
    };
    if bs.len() == 0 {
        assert(produced(nodes, bs) =~= Seq::<Seq<char>>::empty());
    } else {
        assert(produced(nodes, bs) == prev + tail);
        let m = choose|m: int| 0 <= m < (prev + tail).len() && (prev + tail)[m] == a;
        if m < prev.len() {
            assert(prev[m] == a);
            lemma_produced_from(nodes, d, a);
            let b = choose|b: Seq<char>| #[trigger] d.contains(b) && lookup_task(nodes, b) is Some
                && lookup_task(nodes, b)->0.artifacts.contains(a);
            let i = choose|i: int| 0 <= i < d.len() && d[i] == b;
            assert(bs[i] == b);
            assert(bs.contains(b));
        } else {
            assert(tail[m - prev.len()] == a);
            assert(bs[bs.len() - 1] == bs.last());
            assert(bs.contains(bs.last()));
            assert(lookup_task(nodes, bs.last())->0.artifacts.contains(a));
        }
    }
}

/// Whether blocker `b` is a task with artifacts.
pub open spec fn offers(nodes: Seq<NodeView>) -> spec_fn(Seq<char>) -> bool {
    |b: Seq<char>| lookup_task(nodes, b) is Some && lookup_task(nodes, b)->0.artifacts.len() > 0
}

/// Whether `x` is not among `have`.
pub open spec fn absent_from(have: Seq<Seq<char>>) -> spec_fn(Seq<char>) -> bool {
    |x: Seq<char>| !have.contains(x)
}

/// The context lists the blockers that are tasks with artifacts, in
/// `blocked_by` order, and the missing inputs are the declared inputs, in
/// order, that no blocker produced.
pub proof fn law_context_in_order(nodes: Seq<NodeView>, bs: Seq<Seq<char>>, inputs: Seq<Seq<char>>)
    ensures
        sources(nodes, bs) == bs.filter(offers(nodes)).map_values(
            |b: Seq<char>| source_of(lookup_task(nodes, b)->0),
        ),
        lacking(inputs, produced(nodes, bs)) == inputs.filter(absent_from(produced(nodes, bs))),
{
    lemma_sources_filter(nodes, bs);
    lemma_lacking_filter(inputs, produced(nodes, bs));
}

proof fn lemma_sources_filter(nodes: Seq<NodeView>, bs: Seq<Seq<char>>)
    ensures
        sources(nodes, bs) == bs.filter(offers(nodes)).map_values(
            |b: Seq<char>| source_of(lookup_task(nodes, b)->0),
        ),
    decreases bs.len(),
{
    reveal(Seq::filter);
    let f = |b: Seq<char>| source_of(lookup_task(nodes, b)->0);
    if bs.len() == 0 {
        assert(bs.filter(offers(nodes)) =~= Seq::<Seq<char>>::empty());
        assert(sources(nodes, bs) =~= Seq::<ContextSourceView>::empty());
        assert(bs.filter(offers(nodes)).map_values(f) =~= Seq::<ContextSourceView>::empty());
    } else {
        lemma_sources_filter(nodes, bs.drop_last());
        let prev = bs.drop_last().filter(offers(nodes));
        if offers(nodes)(bs.last()) {
            assert(bs.filter(offers(nodes)) == prev.push(bs.last()));
            assert(prev.push(bs.last()).map_values(f) =~= prev.map_values(f).push(f(bs.last())));
            assert(sources(nodes, bs) =~= sources(nodes, bs.drop_last()).push(f(bs.last())));
        } else {
            assert(bs.filter(offers(nodes)) == prev);
            assert(sources(nodes, bs) =~= sources(nodes, bs.drop_last()));
        }
    }
}

proof fn lemma_lacking_filter(xs: Seq<Seq<char>>, have: Seq<Seq<char>>)
    ensures
        lacking(xs, have) == xs.filter(absent_from(have)),
    decreases xs.len(),
{
    reveal(Seq::filter);
    if xs.len() == 0 {
        assert(lacking(xs, have) =~= Seq::<Seq<char>>::empty());
    } else {
        lemma_lacking_filter(xs.drop_last(), have);
        if have.contains(xs.last()) {
            assert(lacking(xs, have) =~= lacking(xs.drop_last(), have));
        } else {
            assert(lacking(xs, have) =~= lacking(xs.drop_last(), have).push(xs.last()));
        }
    }
}

} // verus!
