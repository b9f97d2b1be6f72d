//! Adding tasks: ids made from titles, and the checks a new task must pass.
use vstd::prelude::*;
use vstd::string::*;
use crate::graph::{
    LoopEdge, LoopEdgeView, LoopGuard, LoopGuardView, Node, NodeView, Status, Task, TaskView, WorkGraph,
    find_node, has_node, lemma_find_node, lookup_node, opt_str, strs,
};
use crate::parse::{lowercase, to_lowercase, trim, trim_str, GuardError, GuardErrorView, guard_of, parse_guard_expr, delay_seconds, parse_delay};
use crate::agency::joined;
use crate::analyze::first_n;
use crate::fmt::{decimal, push_u64};
use crate::text::str_eq;

verus! {

/// Whether `char::is_alphanumeric` holds of `c` (Unicode Alphabetic or Numeric).
pub uninterp spec fn is_alphanumeric(c: char) -> bool;

/// `char::is_alphanumeric`.
#[verifier::external_body]
fn char_is_alphanumeric(c: char) -> (r: bool)
    ensures
        r == is_alphanumeric(c),
{
    c.is_alphanumeric()
}

/// Every character that is not alphanumeric replaced by a dash.
pub open spec fn slug_mask(s: Seq<char>) -> Seq<char> {
    s.map_values(|c: char| if is_alphanumeric(c) { c } else { '-' })
}

/// The non-empty runs of characters between dashes, in order.
pub open spec fn dash_words(s: Seq<char>) -> Seq<Seq<char>>
    decreases s.len(),
{
    if s.len() == 0 {
        Seq::empty()
    } else if s.last() == '-' {
        dash_words(s.drop_last())
    } else if s.len() >= 2 && s[s.len() - 2] != '-' {
        let w = dash_words(s.drop_last());
        w.update(w.len() - 1, w.last().push(s.last()))
    } else {
        dash_words(s.drop_last()).push(seq![s.last()])
    }
}

/// The slug of a title: its first three words (lower case, split at
/// anything not alphanumeric) joined by dashes, or `task` when it has none.
pub open spec fn base_id(title: Seq<char>) -> Seq<char> {
    let words = dash_words(slug_mask(lowercase(title)));
    if words.len() == 0 {
        "task"@
    } else {
        joined(first_n(words, 3), "-"@)
    }
}

/// The id tried for the `n`-th attempt: the base itself, then `base-2`, `base-3`, ...
pub open spec fn numbered_id(base: Seq<char>, n: nat) -> Seq<char> {
    base + "-"@ + decimal(n)
}

/// An id made from the clock: `task-` and a number.
pub open spec fn is_clock_id(id: Seq<char>) -> bool {
    exists|n: nat| id == "task-"@ + #[trigger] decimal(n)
}

/// The id `generate_id` picks: the base when free, else the first free
/// `base-n` for n from 2 to 999; past that, `task-` and the seconds of the
/// clock since the epoch (0 when the clock reads before it).
pub open spec fn generated_id_ok(nodes: Seq<NodeView>, title: Seq<char>, id: Seq<char>) -> bool {
    let base = base_id(title);
    if !has_node(nodes, base) {
        id == base
    } else if exists|n: nat| 2 <= n < 1000 && !has_node(nodes, #[trigger] numbered_id(base, n)) {
        exists|n: nat|
            2 <= n < 1000 && id == numbered_id(base, n) && !has_node(nodes, numbered_id(base, n)) && forall|m: nat|
                2 <= m < n ==> has_node(nodes, #[trigger] numbered_id(base, m))
    } else {
        is_clock_id(id)
    }
}

proof fn lemma_dash_words_nonempty(s: Seq<char>)
    requires
        s.len() > 0,
        s.last() != '-',
    ensures
        dash_words(s).len() > 0,
        dash_words(s).last().len() > 0,
    decreases s.len(),
{
    if s.len() >= 2 && s[s.len() - 2] != '-' {
        let p = s.drop_last();
        assert(p.last() == s[s.len() - 2]);
        lemma_dash_words_nonempty(p);
    }
}

fn node_exists(graph: &WorkGraph, id: &str) -> (r: bool)
    ensures
        r == has_node(graph@, id@),
{
    proof {
        lemma_find_node(graph@, id@);
    }
    let r = graph.find(id).is_some();
    proof {
        if has_node(graph@, id@) {
            let j = choose|j: int| 0 <= j < graph@.len() && crate::graph::node_id(#[trigger] graph@[j]) == id@;
        }
    }
    r
}

/// The slug of a title (see `base_id`).
pub fn slug_of(title: &str) -> (r: String)
    ensures
        r@ == base_id(title@),
{
    let lower = to_lowercase(title);
    let l = lower.as_str();
    let ghost mask = slug_mask(l@);
    let n = l.unicode_len();
    let mut words: Vec<String> = Vec::new();
    let mut start: usize = 0;
    let mut i: usize = 0;
    assert(strs(words) =~= dash_words(mask.take(0)));
    while i < n
        invariant
            n == l@.len(),
            mask == slug_mask(l@),
            mask.len() == n,
            i <= n,
            strs(words) == dash_words(mask.take(i as int)),
            i > 0 && mask[i - 1] != '-' ==> {
                &&& start < i
                &&& words@.len() > 0
                &&& words@.last()@ == l@.subrange(start as int, i as int)
            },
        decreases n - i,
    {
        let c = l.get_char(i);
        let alnum = char_is_alphanumeric(c);
        assert(mask[i as int] == if is_alphanumeric(c) { c } else { '-' });
        assert(mask.take(i + 1).drop_last() =~= mask.take(i as int));
        assert(mask.take(i + 1).last() == mask[i as int]);
        if alnum && c != '-' {
            let ghost before = strs(words);
            if i > 0 && alnum_before(l, i) {
                assert(mask[i - 1] != '-');
                let k = words.len() - 1;
                let w = l.substring_char(start, i + 1).to_string();
                words.set(k, w);
                proof {
                    assert(mask.take(i + 1)[i - 1] == mask[i - 1]);
                    assert(l@.subrange(start as int, i + 1) =~= l@.subrange(start as int, i as int).push(c));
                    assert(strs(words) =~= before.update(before.len() - 1, before.last().push(c)));
                }
            } else {
                proof {
                    if i > 0 {
                        assert(mask.take(i + 1)[i - 1] == mask[i - 1]);
                    }
                }
                start = i;
                let w = l.substring_char(i, i + 1).to_string();
                words.push(w);
                proof {
                    assert(l@.subrange(i as int, i + 1) =~= seq![c]);
                    assert(strs(words) =~= before.push(seq![c]));
                }
            }
        }
        i = i + 1;
    }
    assert(mask.take(n as int) =~= mask);
    if words.len() == 0 {
        return "task".to_string();
    }
    let take = if words.len() < 3 {
        words.len()
    } else {
        3
    };
    let ghost ws = strs(words);
    let mut out = String::new();
    let mut q: usize = 0;
    while q < take
        invariant
            take <= words@.len(),
            take == (if words@.len() < 3 { words@.len() } else { 3 }),
            ws == strs(words),
            q <= take,
            q > 0 ==> out@ == joined(ws.take(q as int), "-"@),
            q == 0 ==> out@ == Seq::<char>::empty(),
        decreases take - q,
    {
        if q > 0 {
            out.append("-");
        }
        out.append(words[q].as_str());
        proof {
            reveal_strlit("-");
            assert(ws.take(q + 1).drop_last() =~= ws.take(q as int));
            if q == 0 {
                assert(joined(ws.take(1), "-"@) == ws.take(1)[0]);
            }
        }
        assert(out@ =~= joined(ws.take(q + 1), "-"@));
        q = q + 1;
    }
    assert(first_n(ws, 3) =~= ws.take(take as int));
    out
}

/// Whether the character before position `i` is alphanumeric and not a dash.
fn alnum_before(l: &str, i: usize) -> (r: bool)
    requires
        0 < i <= l@.len(),
    ensures
        r == (slug_mask(l@)[i - 1] != '-'),
{
    let c = l.get_char(i - 1);
    char_is_alphanumeric(c) && c != '-'
}

fn numbered(base: &str, n: u64) -> (r: String)
    ensures
        r@ == numbered_id(base@, n as nat),
{
    let mut s = base.to_string();
    s.append("-");
    push_u64(&mut s, n);
    proof {
        reveal_strlit("-");
    }
    assert(s@ =~= numbered_id(base@, n as nat));
    s
}

/// An id for a new task titled `title` that no node of the graph has (see
/// `generated_id_ok`).
pub fn generate_id(title: &str, graph: &WorkGraph) -> (r: String)
    ensures
        generated_id_ok(graph@, title@, r@),
{
    let base = slug_of(title);
    if !node_exists(graph, base.as_str()) {
        return base;
    }
    let mut n: u64 = 2;
    while n < 1000
        invariant
            2 <= n <= 1000,
            has_node(graph@, base@),
            base@ == base_id(title@),
            forall|m: nat| 2 <= m < n ==> has_node(graph@, #[trigger] numbered_id(base@, m)),
        decreases 1000 - n,
    {
        let candidate = numbered(base.as_str(), n);
        if !node_exists(graph, candidate.as_str()) {
            assert(!has_node(graph@, numbered_id(base@, n as nat)));
            return candidate;
        }
        n = n + 1;
    }
    let mut id = "task-".to_string();
    let secs: u64 = match crate::time::system_clock() {
        Some((s, _)) => s,
        None => 0,
    };
    push_u64(&mut id, secs);
    assert(id@ == "task-"@ + decimal(secs as nat));
    proof {
        assert forall|m: nat| 2 <= m < 1000 implies has_node(graph@, #[trigger] numbered_id(base@, m)) by {}
    }
    id
}

// ---------------------------------------------------------------------------
// Adding a task
// ---------------------------------------------------------------------------

/// What a new task is made of.
#[derive(Debug, Clone)]
pub struct NewTask {
    pub title: String,
    /// The id to use; one is made from the title when absent.
    pub id: Option<String>,
    pub description: Option<String>,
    pub blocked_by: Vec<String>,
    pub assign: Option<String>,
    pub tags: Vec<String>,
    pub skills: Vec<String>,
    pub inputs: Vec<String>,
    pub deliverables: Vec<String>,
    pub max_retries: Option<u32>,
    pub model: Option<String>,
    pub verify: Option<String>,
    pub loops_to: Option<String>,
    pub loop_max: Option<u32>,
    pub loop_guard: Option<String>,
    pub loop_delay: Option<String>,
}

/// Why a task was not added (nothing is changed then).
#[derive(Debug)]
pub enum AddError {
    /// The title is empty or white space.
    EmptyTitle,
    /// A node with the given id exists; carries it.
    IdExists(String),
    /// The task would block itself; carries its id.
    SelfBlocking(String),
    LoopMaxRequired,
    Guard(GuardError),
    InvalidDelay(String),
    LoopOptionsWithoutTarget,
}

pub ghost enum AddErrorView {
    EmptyTitle,
    IdExists(Seq<char>),
    SelfBlocking(Seq<char>),
    LoopMaxRequired,
    Guard(GuardErrorView),
    InvalidDelay(Seq<char>),
    LoopOptionsWithoutTarget,
}

impl View for AddError {
    type V = AddErrorView;

    open spec fn view(&self) -> AddErrorView {
        match self {
            AddError::EmptyTitle => AddErrorView::EmptyTitle,
            AddError::IdExists(i) => AddErrorView::IdExists(i@),
            AddError::SelfBlocking(i) => AddErrorView::SelfBlocking(i@),
            AddError::LoopMaxRequired => AddErrorView::LoopMaxRequired,
            AddError::Guard(g) => AddErrorView::Guard(g@),
            AddError::InvalidDelay(d) => AddErrorView::InvalidDelay(d@),
            AddError::LoopOptionsWithoutTarget => AddErrorView::LoopOptionsWithoutTarget,
        }
    }
}

/// What was added, with the references worth a warning.
#[derive(Debug, Clone)]
pub struct AddOutcome {
    pub id: String,
    /// Blockers that name no node.
    pub missing_blockers: Vec<String>,
    /// Whether the loop target names no node.
    pub loop_target_missing: bool,
}

pub ghost struct AddOutcomeView {
    pub id: Seq<char>,
    pub missing_blockers: Seq<Seq<char>>,
    pub loop_target_missing: bool,
}

impl View for AddOutcome {
    type V = AddOutcomeView;

    open spec fn view(&self) -> AddOutcomeView {
        AddOutcomeView { id: self.id@, missing_blockers: strs(self.missing_blockers), loop_target_missing: self.loop_target_missing }
    }
}

/// The entries of `refs` that name no node, in order.
pub open spec fn missing_refs(nodes: Seq<NodeView>, refs: Seq<Seq<char>>) -> Seq<Seq<char>>
    decreases refs.len(),
{
    if refs.len() == 0 {
        Seq::empty()
    } else {
        missing_refs(nodes, refs.drop_last()) + if has_node(nodes, refs.last()) {
            Seq::empty()
        } else {
            seq![refs.last()]
        }
    }
}

/// The refusal for adding `n` under `id`, if any: self-blocking, then the
/// loop options.
pub open spec fn add_refusal(n: NewTask, id: Seq<char>) -> Option<AddErrorView> {
    if strs(n.blocked_by).contains(id) {
        Some(AddErrorView::SelfBlocking(id))
    } else if n.loops_to is Some {
        if n.loop_max is None {
            Some(AddErrorView::LoopMaxRequired)
        } else if n.loop_guard is Some && guard_of(n.loop_guard->0@) is Err {
            Some(AddErrorView::Guard(guard_of(n.loop_guard->0@)->Err_0))
        } else if n.loop_delay is Some && delay_seconds(n.loop_delay->0@) is None {
            Some(AddErrorView::InvalidDelay(n.loop_delay->0@))
        } else {
            None
        }
    } else if n.loop_max is Some || n.loop_guard is Some || n.loop_delay is Some {
        Some(AddErrorView::LoopOptionsWithoutTarget)
    } else {
        None
    }
}

/// The loop edges of the new task.
pub open spec fn new_loops(n: NewTask) -> Seq<LoopEdgeView> {
    match n.loops_to {
        Some(t) => seq![
            LoopEdgeView {
                target: t@,
                guard: match n.loop_guard {
                    Some(g) => Some(guard_of(g@)->Ok_0),
                    None => None,
                },
                max_iterations: n.loop_max->0,
                delay: opt_str(n.loop_delay),
            },
        ],
        None => Seq::empty(),
    }
}

/// The new task: open, created at `now`, with the given fields.
pub open spec fn new_task_view(n: NewTask, id: Seq<char>, now: Seq<char>) -> TaskView {
    TaskView {
        id: id,
        title: n.title@,
        description: opt_str(n.description),
        status: Status::Open,
        assigned: opt_str(n.assign),
        blocks: Seq::empty(),
        blocked_by: strs(n.blocked_by),
        requires: Seq::empty(),
        tags: strs(n.tags),
        skills: strs(n.skills),
        inputs: strs(n.inputs),
        deliverables: strs(n.deliverables),
        artifacts: Seq::empty(),
        exec_command: None,
        not_before: None,
        created_at: Some(now),
        started_at: None,
        completed_at: None,
        log: Seq::empty(),
        retry_count: 0,
        max_retries: n.max_retries,
        failure_reason: None,
        model: opt_str(n.model),
        verify: opt_str(n.verify),
        agent: None,
        loops_to: new_loops(n),
        loop_iteration: 0,
        ready_after: None,
    }
}

/// The nodes after inserting `x` as `add_node` does.
pub open spec fn with_node(nodes: Seq<NodeView>, x: NodeView) -> Seq<NodeView> {
    match find_node(nodes, crate::graph::node_id(x)) {
        Some(i) => nodes.update(i, x),
        None => nodes.push(x),
    }
}

/// The outcome of adding `n` under `id` at `now`.
pub open spec fn add_result(nodes: Seq<NodeView>, n: NewTask, id: Seq<char>, now: Seq<char>) -> (
    Seq<NodeView>,
    Result<AddOutcomeView, AddErrorView>,
) {
    match add_refusal(n, id) {
        Some(e) => (nodes, Err(e)),
        None => (
            crate::edit::link_blockers(with_node(nodes, NodeView::Task(new_task_view(n, id, now))), id, strs(n.blocked_by)),
            Ok(
                AddOutcomeView {
                    id,
                    missing_blockers: missing_refs(nodes, strs(n.blocked_by)),
                    loop_target_missing: n.loops_to is Some && !has_node(nodes, n.loops_to->0@),
                },
            ),
        ),
    }
}

pub open spec fn outcome_view(r: Result<AddOutcome, AddError>) -> Result<AddOutcomeView, AddErrorView> {
    match r {
        Ok(o) => Ok(o@),
        Err(e) => Err(e@),
    }
}

fn missing_of(graph: &WorkGraph, refs: &Vec<String>) -> (r: Vec<String>)
    ensures
        strs(r) == missing_refs(graph@, strs(*refs)),
{
    let ghost rs = strs(*refs);
    let mut out: Vec<String> = Vec::new();
    let mut k: usize = 0;
    while k < refs.len()
        invariant
            k <= refs@.len(),
            rs == strs(*refs),
            strs(out) == missing_refs(graph@, rs.take(k as int)),
        decreases refs@.len() - k,
    {
        assert(rs.take(k + 1).drop_last() =~= rs.take(k as int));
        assert(rs.take(k + 1).last() == refs@[k as int]@);
        let ghost before = strs(out);
        if !node_exists(graph, refs[k].as_str()) {
            out.push(refs[k].clone());
            assert(strs(out) =~= before.push(refs@[k as int]@));
        } else {
            assert(before + Seq::<Seq<char>>::empty() =~= before);
        }
        assert(strs(out) =~= missing_refs(graph@, rs.take(k + 1)));
        k = k + 1;
    }
    assert(rs.take(refs@.len() as int) =~= rs);
    out
}

/// Add `n` under the id `id` at time `now` (see `add_result`).
pub fn add_task_with_id(graph: &mut WorkGraph, n: &NewTask, id: String, now: &str) -> (r: Result<AddOutcome, AddError>)
    ensures
        (final(graph)@, outcome_view(r)) == add_result(old(graph)@, *n, id@, now@),
{
    if crate::text::contains_str(&n.blocked_by, id.as_str()) {
        assert(strs(n.blocked_by) =~= n.blocked_by@.map_values(|x: String| x@));
        return Err(AddError::SelfBlocking(id));
    }
    assert(strs(n.blocked_by) =~= n.blocked_by@.map_values(|x: String| x@));
    let mut loop_target_missing = false;
    let loops_to: Vec<LoopEdge> = match &n.loops_to {
        Some(target) => {
            loop_target_missing = !node_exists(graph, target.as_str());
            let max_iterations = match n.loop_max {
                Some(m) => m,
                None => {
                    return Err(AddError::LoopMaxRequired);
                },
            };
            let guard = match &n.loop_guard {
                Some(expr) => match parse_guard_expr(expr.as_str()) {
                    Ok(g) => Some(g),
                    Err(ge) => {
                        return Err(AddError::Guard(ge));
                    },
                },
                None => None,
            };
            if let Some(d) = &n.loop_delay {
                if parse_delay(d.as_str()).is_none() {
                    return Err(AddError::InvalidDelay(d.clone()));
                }
            }
            let mut v: Vec<LoopEdge> = Vec::new();
            v.push(LoopEdge { target: target.clone(), guard, max_iterations, delay: crate::ops::clone_opt(&n.loop_delay) });
            assert(v@.map_values(|e: LoopEdge| e@) =~= new_loops(*n));
            v
        },
        None => {
            if n.loop_max.is_some() || n.loop_guard.is_some() || n.loop_delay.is_some() {
                return Err(AddError::LoopOptionsWithoutTarget);
            }
            let v: Vec<LoopEdge> = Vec::new();
            assert(v@.map_values(|e: LoopEdge| e@) =~= new_loops(*n));
            v
        },
    };
    let missing_blockers = missing_of(graph, &n.blocked_by);
    let task = Task {
        id: id.clone(),
        title: n.title.clone(),
        description: crate::ops::clone_opt(&n.description),
        status: Status::Open,
        assigned: crate::ops::clone_opt(&n.assign),
        blocks: Vec::new(),
        blocked_by: crate::text::clone_strs(&n.blocked_by),
        requires: Vec::new(),
        tags: crate::text::clone_strs(&n.tags),
        skills: crate::text::clone_strs(&n.skills),
        inputs: crate::text::clone_strs(&n.inputs),
        deliverables: crate::text::clone_strs(&n.deliverables),
        artifacts: Vec::new(),
        exec_command: None,
        not_before: None,
        created_at: Some(now.to_string()),
        started_at: None,
        completed_at: None,
        log: Vec::new(),
        retry_count: 0,
        max_retries: n.max_retries,
        failure_reason: None,
        model: crate::ops::clone_opt(&n.model),
        verify: crate::ops::clone_opt(&n.verify),
        agent: None,
        loops_to,
        loop_iteration: 0,
        ready_after: None,
    };
    proof {
        assert(task@.blocks =~= Seq::<Seq<char>>::empty());
        assert(task@.requires =~= Seq::<Seq<char>>::empty());
        assert(task@.artifacts =~= Seq::<Seq<char>>::empty());
        assert(task@.log =~= Seq::<crate::graph::LogEntryView>::empty());
        assert(task@ =~= new_task_view(*n, id@, now@));
    }
    graph.add_node(Node::Task(task));
    crate::edit::link_each(graph, &id, &n.blocked_by);
    Ok(AddOutcome { id, missing_blockers, loop_target_missing })
}

/// Add a new task at time `now`: refused when the title is blank or the
/// given id is taken; otherwise added under the given id or one made from
/// the title (see `generated_id_ok`), as `add_result` says.
pub fn add_task(graph: &mut WorkGraph, n: &NewTask, now: &str) -> (r: Result<AddOutcome, AddError>)
    ensures
        trim(n.title@).len() == 0 ==> (r matches Err(AddError::EmptyTitle) && final(graph)@ == old(graph)@),
        trim(n.title@).len() > 0 && n.id is Some && has_node(old(graph)@, n.id->0@) ==> (r matches Err(
            AddError::IdExists(i),
        ) && i@ == n.id->0@ && final(graph)@ == old(graph)@),
        trim(n.title@).len() > 0 && n.id is Some && !has_node(old(graph)@, n.id->0@) ==> (final(graph)@, outcome_view(r))
            == add_result(old(graph)@, *n, n.id->0@, now@),
        trim(n.title@).len() > 0 && n.id is None ==> exists|id: Seq<char>|
            #![trigger add_result(old(graph)@, *n, id, now@)]
            generated_id_ok(old(graph)@, n.title@, id) && (final(graph)@, outcome_view(r)) == add_result(
                old(graph)@,
                *n,
                id,
                now@,
            ),
{
    if trim_str(n.title.as_str()).unicode_len() == 0 {
        return Err(AddError::EmptyTitle);
    }
    let id = match &n.id {
        Some(i) => {
            if node_exists(graph, i.as_str()) {
                return Err(AddError::IdExists(i.clone()));
            }
            i.clone()
        },
        None => generate_id(n.title.as_str(), graph),
    };
    let ghost idv = id@;
    let ghost before = graph@;
    let r = add_task_with_id(graph, n, id, now);
    proof {
        if n.id is None {
            assert(generated_id_ok(before, n.title@, idv));
            assert((graph@, outcome_view(r)) == add_result(before, *n, idv, now@));
        }
    }
    r
}

} // verus!
