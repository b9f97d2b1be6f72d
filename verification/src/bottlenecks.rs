//! The tasks that hold up the most others, with advice on each.
use vstd::prelude::*;
use vstd::string::*;
use crate::graph::{Node, NodeView, Status, TaskView, WorkGraph, opt_str};
use crate::check::views;
use crate::deps::{ReverseIndex, build_reverse_index, deps_of, dependents_in, entry_for, indexes};
use crate::analyze::{
    count_tasks, first_n, impact_percent, percent, task_total, waiting_count, waiting_set,
};
use crate::order::{is_stable_desc_pairs, sort_desc_by_pair};
use crate::aging::pick;
use crate::fmt::{decimal, push_u64};

verus! {

/// A task that others wait on, with how many and what to do about it.
#[derive(Debug, Clone)]
pub struct BottleneckInfo {
    pub id: String,
    pub title: String,
    pub direct_blocks: usize,
    pub transitive_blocks: usize,
    pub status: Status,
    pub assigned: Option<String>,
    pub recommendation: Option<String>,
}

pub ghost struct BottleneckInfoView {
    pub id: Seq<char>,
    pub title: Seq<char>,
    pub direct_blocks: nat,
    pub transitive_blocks: nat,
    pub status: Status,
    pub assigned: Option<Seq<char>>,
    pub recommendation: Option<Seq<char>>,
}

impl View for BottleneckInfo {
    type V = BottleneckInfoView;

    open spec fn view(&self) -> BottleneckInfoView {
        BottleneckInfoView {
            id: self.id@,
            title: self.title@,
            direct_blocks: self.direct_blocks as nat,
            transitive_blocks: self.transitive_blocks as nat,
            status: self.status,
            assigned: opt_str(self.assigned),
            recommendation: opt_str(self.recommendation),
        }
    }
}

/// The share in percent, capped at the largest `usize`.
pub open spec fn capped_percent(part: nat, whole: nat) -> nat {
    let p = impact_percent(part, whole);
    if p > usize::MAX {
        usize::MAX as nat
    } else {
        p
    }
}

/// The advice for a task that holds up `blocks` of `total` tasks: none for
/// done tasks or an empty graph, else by status and share held up.
pub open spec fn recommendation_text(status: Status, blocks: nat, total: nat) -> Option<Seq<char>> {
    let p = capped_percent(blocks, total);
    let tail = "blocking "@ + decimal(p) + "% of project"@;
    if total == 0 || status == Status::Done {
        None
    } else if status == Status::Open && p >= 20 {
        Some("High priority - "@ + tail)
    } else if status == Status::Open && p >= 10 {
        Some("Medium priority - "@ + tail)
    } else if status == Status::InProgress && p >= 20 {
        Some("Critical path - "@ + tail)
    } else if status == Status::Blocked && p >= 20 {
        Some("Urgent: unblock this first - "@ + tail)
    } else if status == Status::Blocked && p >= 10 {
        Some("Priority: unblock this - "@ + tail)
    } else {
        None
    }
}

fn with_share(prefix: &str, pct: usize) -> (r: String)
    ensures
        r@ == prefix@ + "blocking "@ + decimal(pct as nat) + "% of project"@,
{
    let mut s = prefix.to_string();
    s.append("blocking ");
    push_u64(&mut s, pct as u64);
    s.append("% of project");
    proof {
        reveal_strlit("blocking ");
        reveal_strlit("% of project");
    }
    assert(s@ =~= prefix@ + "blocking "@ + decimal(pct as nat) + "% of project"@);
    s
}

/// Advice for a task that holds up `transitive_blocks` of `total_tasks` tasks.
pub fn generate_recommendation(status: &Status, transitive_blocks: usize, total_tasks: usize) -> (r: Option<String>)
    ensures
        opt_str(r) == recommendation_text(*status, transitive_blocks as nat, total_tasks as nat),
{
    if total_tasks == 0 {
        return None;
    }
    let wide = percent(transitive_blocks, total_tasks);
    let pct: usize = if wide > usize::MAX as u128 {
        usize::MAX
    } else {
        wide as usize
    };
    proof {
        reveal_strlit("blocking ");
        reveal_strlit("% of project");
    }
    match status {
        Status::Done => None,
        Status::Open if pct >= 20 => Some(with_share("High priority - ", pct)),
        Status::Open if pct >= 10 => Some(with_share("Medium priority - ", pct)),
        Status::InProgress if pct >= 20 => Some(with_share("Critical path - ", pct)),
        Status::Blocked if pct >= 20 => Some(with_share("Urgent: unblock this first - ", pct)),
        Status::Blocked if pct >= 10 => Some(with_share("Priority: unblock this - ", pct)),
        _ => None,
    }
}

/// The share `q`, in whole percent, rounded to the nearest with halves up,
/// of `blocks` out of `total` tasks.
pub open spec fn rounds_to(blocks: nat, total: nat, q: nat) -> bool {
    2 * total * q <= 200 * blocks + total < 2 * total * q + 2 * total
}

/// The advice table: a task that holds up a rounded share of `q` percent of
/// a non-empty project gets advice exactly when its share reaches its
/// status's threshold (open: 10 and 20; in progress: 20; blocked: 10 and
/// 20), and the advice names that share; done, failed, abandoned and
/// pending-review tasks get none.
pub proof fn law_recommendation_advice(status: Status, blocks: nat, total: nat, q: nat)
    requires
        total > 0,
        rounds_to(blocks, total, q),
        q <= usize::MAX,
    ensures
        ({
            let tail = "blocking "@ + decimal(q) + "% of project"@;
            let r = recommendation_text(status, blocks, total);
            &&& (status == Status::Blocked && q >= 20) ==> r == Some("Urgent: unblock this first - "@ + tail)
            &&& (status == Status::Blocked && 10 <= q < 20) ==> r == Some("Priority: unblock this - "@ + tail)
            &&& (status == Status::Open && q >= 20) ==> r == Some("High priority - "@ + tail)
            &&& (status == Status::Open && 10 <= q < 20) ==> r == Some("Medium priority - "@ + tail)
            &&& (status == Status::InProgress && q >= 20) ==> r == Some("Critical path - "@ + tail)
            &&& r is Some <==> ((status == Status::Open || status == Status::Blocked) && q >= 10)
                || (status == Status::InProgress && q >= 20)
        }),
{
    let x: int = 200 * blocks as int + total as int;
    let d: int = 2 * total as int;
    assert(q * d == 2 * total * q) by (nonlinear_arith)
        requires
            d == 2 * total,
    ;
    vstd::arithmetic::div_mod::lemma_fundamental_div_mod_converse(x, d, q as int, x - q * d);
    assert(impact_percent(blocks, total) == q);
    assert(capped_percent(blocks, total) == q);
}


/// The tasks among `part` that hold up at least one other, in graph order.
pub open spec fn report_candidates(nodes: Seq<NodeView>, part: Seq<NodeView>) -> Seq<BottleneckInfoView>
    decreases part.len(),
{
    if part.len() == 0 {
        Seq::empty()
    } else {
        report_candidates(nodes, part.drop_last()) + match part.last() {
            NodeView::Task(t) => {
                let k = waiting_set(nodes, t.id).len();
                if k > 0 {
                    seq![
                        BottleneckInfoView {
                            id: t.id,
                            title: t.title,
                            direct_blocks: dependents_in(nodes, t.id).len(),
                            transitive_blocks: k,
                            status: t.status,
                            assigned: t.assigned,
                            recommendation: recommendation_text(t.status, k, task_total(nodes)),
                        },
                    ]
                } else {
                    Seq::empty()
                }
            },
            NodeView::Resource(_) => Seq::empty(),
        }
    }
}

pub open spec fn impact_keys(v: Seq<BottleneckInfoView>) -> Seq<(u64, u64)> {
    v.map_values(|b: BottleneckInfoView| (b.transitive_blocks as u64, 0u64))
}

fn direct_count(index: &ReverseIndex, id: &str) -> (r: usize)
    requires
        crate::deps::distinct_blockers(index@),
    ensures
        r == deps_of(index@, id@).len(),
{
    match entry_for(index, id) {
        Some(k) => {
            proof {
                crate::deps::lemma_deps_of_at(index@, k as int);
            }
            index.entries[k].dependents.len()
        },
        None => 0,
    }
}

fn copy_info(b: &BottleneckInfo) -> (r: BottleneckInfo)
    ensures
        r@ == b@,
{
    BottleneckInfo {
        id: b.id.clone(),
        title: b.title.clone(),
        direct_blocks: b.direct_blocks,
        transitive_blocks: b.transitive_blocks,
        status: b.status,
        assigned: crate::ops::clone_opt(&b.assigned),
        recommendation: crate::ops::clone_opt(&b.recommendation),
    }
}

/// The tasks that hold up at least one other, most held up first (ties keep
/// graph order), at most ten, each with direct and transitive counts and advice.
pub fn bottleneck_report(graph: &WorkGraph) -> (r: Vec<BottleneckInfo>)
    ensures
        exists|order: Seq<usize>|
            #![trigger is_stable_desc_pairs(impact_keys(report_candidates(graph@, graph@)), order)]
            is_stable_desc_pairs(impact_keys(report_candidates(graph@, graph@)), order)
                && views(r@) == first_n(pick(order, report_candidates(graph@, graph@)), 10),
{
    let index = build_reverse_index(graph);
    let total = count_tasks(graph);
    let ghost all = report_candidates(graph@, graph@);
    let mut found: Vec<BottleneckInfo> = Vec::new();
    let mut i: usize = 0;
    assert(views(found@) =~= Seq::<BottleneckInfoView>::empty());
    while i < graph.nodes.len()
        invariant
            i <= graph.nodes.len(),
            graph@.len() == graph.nodes.len(),
            indexes(index@, graph@),
            total == task_total(graph@),
            views(found@) == report_candidates(graph@, graph@.take(i as int)),
        decreases graph.nodes.len() - i,
    {
        assert(graph@.take(i + 1).drop_last() =~= graph@.take(i as int));
        assert(graph@.take(i + 1).last() == graph.nodes@[i as int]@);
        let ghost before = views(found@);
        if let Node::Task(task) = &graph.nodes[i] {
            let k = waiting_count(graph, &index, task.id.as_str());
            if k > 0 {
                let direct = direct_count(&index, task.id.as_str());
                let info = BottleneckInfo {
                    id: task.id.clone(),
                    title: task.title.clone(),
                    direct_blocks: direct,
                    transitive_blocks: k,
                    status: task.status,
                    assigned: crate::ops::clone_opt(&task.assigned),
                    recommendation: generate_recommendation(&task.status, k, total),
                };
                found.push(info);
                assert(views(found@) =~= before.push(info@));
            }
        }
        proof {
            assert(views(found@) =~= report_candidates(graph@, graph@.take(i + 1)));
        }
        i = i + 1;
    }
    assert(graph@.take(graph.nodes.len() as int) =~= graph@);
    let mut keys: Vec<(u64, u64)> = Vec::new();
    let mut j: usize = 0;
    while j < found.len()
        invariant
            j <= found.len(),
            views(found@) == all,
            keys@ == impact_keys(all.take(j as int)),
        decreases found.len() - j,
    {
        assert(all[j as int] == found@[j as int]@);
        keys.push((found[j].transitive_blocks as u64, 0));
        assert(keys@ =~= impact_keys(all.take(j + 1)));
        j = j + 1;
    }
    assert(all.take(all.len() as int) =~= all);
    let order = sort_desc_by_pair(&keys);
    let n: usize = if order.len() < 10 {
        order.len()
    } else {
        10
    };
    let mut out: Vec<BottleneckInfo> = Vec::new();
    let mut q: usize = 0;
    while q < n
        invariant
            q <= n,
            n <= order@.len(),
            n == (if order@.len() < 10 { order@.len() } else { 10 }),
            order@.len() == found@.len(),
            forall|z: int| 0 <= z < order@.len() ==> #[trigger] order@[z] < found@.len(),
            views(found@) == all,
            views(out@) == pick(order@.take(q as int), all),
        decreases n - q,
    {
        assert(order@[q as int] < found@.len());
        let ghost before = out@;
        out.push(copy_info(&found[order[q]]));
        proof {
            let bm = views(before);
            assert(views(out@) =~= bm.push(all[order@[q as int] as int]));
            assert(order@.take(q + 1) =~= order@.take(q as int).push(order@[q as int]));
            assert(pick(order@.take(q + 1), all) =~= pick(order@.take(q as int), all).push(all[order@[q as int] as int]));
        }
        q = q + 1;
    }
    assert(first_n(pick(order@, all), 10) =~= pick(order@.take(n as int), all));
    out
}

} // verus!
