//! Editing an existing task: its fields, its dependencies (kept consistent on
//! both ends), its tags and skills, and its loop edges.
use vstd::prelude::*;
use vstd::string::*;
use crate::graph::{LoopEdge, LoopEdgeView, LoopGuard, LoopGuardView, Node, NodeView, Task, TaskView, WorkGraph, opt_str, strs, task_index};
use crate::ops::{clone_opt, lemma_remove_insert, locate_task, put_task, take_task, task_at, with_task};
use crate::lists::{add_all, add_each, add_effects, added, remove_all, remove_each, remove_effects};
use crate::parse::{GuardError, GuardErrorView, delay_seconds, guard_of, parse_delay, parse_guard_expr};
use crate::text::{contains_str, str_eq};

verus! {

/// The changes asked of a task.
#[derive(Debug, Clone)]
pub struct TaskEdit {
    pub title: Option<String>,
    pub description: Option<String>,
    pub add_blocked_by: Vec<String>,
    pub remove_blocked_by: Vec<String>,
    pub add_tag: Vec<String>,
    pub remove_tag: Vec<String>,
    pub model: Option<String>,
    pub add_skill: Vec<String>,
    pub remove_skill: Vec<String>,
    pub add_loops_to: Option<String>,
    pub loop_max: Option<u32>,
    pub loop_guard: Option<String>,
    pub loop_delay: Option<String>,
    pub remove_loops_to: Option<String>,
    pub loop_iteration: Option<u32>,
}

/// Why an edit was refused (nothing is changed then).
#[derive(Debug)]
pub enum EditError {
    TaskNotFound,
    /// A task cannot block itself.
    SelfBlocking,
    /// A task cannot loop to itself.
    SelfLoop,
    /// A new loop edge needs its maximum number of iterations.
    LoopMaxRequired,
    /// The guard of a new loop edge does not parse.
    Guard(GuardError),
    /// The delay of a new loop edge does not parse; carries it.
    InvalidDelay(String),
    /// Loop options were given without a loop edge to add.
    LoopOptionsWithoutTarget,
}

pub ghost enum EditErrorView {
    TaskNotFound,
    SelfBlocking,
    SelfLoop,
    LoopMaxRequired,
    Guard(GuardErrorView),
    InvalidDelay(Seq<char>),
    LoopOptionsWithoutTarget,
}

impl View for EditError {
    type V = EditErrorView;

    open spec fn view(&self) -> EditErrorView {
        match self {
            EditError::TaskNotFound => EditErrorView::TaskNotFound,
            EditError::SelfBlocking => EditErrorView::SelfBlocking,
            EditError::SelfLoop => EditErrorView::SelfLoop,
            EditError::LoopMaxRequired => EditErrorView::LoopMaxRequired,
            EditError::Guard(g) => EditErrorView::Guard(g@),
            EditError::InvalidDelay(d) => EditErrorView::InvalidDelay(d@),
            EditError::LoopOptionsWithoutTarget => EditErrorView::LoopOptionsWithoutTarget,
        }
    }
}

/// What an accepted edit did, entry by entry.
#[derive(Debug, Clone)]
pub struct EditReport {
    /// Whether anything changed.
    pub changed: bool,
    pub blocked_by_added: Vec<bool>,
    pub blocked_by_removed: Vec<bool>,
    pub tags_added: Vec<bool>,
    pub tags_removed: Vec<bool>,
    pub skills_added: Vec<bool>,
    pub skills_removed: Vec<bool>,
    /// For a loop edge to add: whether it was added (not a duplicate target).
    pub loop_added: Option<bool>,
    /// For a loop edge to remove: whether one was removed.
    pub loop_removed: Option<bool>,
}

/// Whether some edge goes to `target`.
pub open spec fn has_edge_to(ls: Seq<LoopEdgeView>, target: Seq<char>) -> bool {
    exists|k: int| 0 <= k < ls.len() && (#[trigger] ls[k]).target == target
}

/// The position of the first edge to `target`.
pub open spec fn first_edge_to(ls: Seq<LoopEdgeView>, target: Seq<char>) -> int {
    choose|k: int|
        0 <= k < ls.len() && (#[trigger] ls[k]).target == target && forall|j: int| 0 <= j < k ==> ls[j].target != target
}

/// The refusal for an edit, if any: missing task, self-blocking, self-loop,
/// then the loop options, in that order.
pub open spec fn edit_refusal(nodes: Seq<NodeView>, id: Seq<char>, e: TaskEdit) -> Option<EditErrorView> {
    if task_index(nodes, id) is None {
        Some(EditErrorView::TaskNotFound)
    } else if strs(e.add_blocked_by).contains(id) {
        Some(EditErrorView::SelfBlocking)
    } else if opt_str(e.add_loops_to) == Some(id) {
        Some(EditErrorView::SelfLoop)
    } else if e.add_loops_to is Some {
        if e.loop_max is None {
            Some(EditErrorView::LoopMaxRequired)
        } else if e.loop_guard is Some && guard_of(e.loop_guard->0@) is Err {
            Some(EditErrorView::Guard(guard_of(e.loop_guard->0@)->Err_0))
        } else if e.loop_delay is Some && delay_seconds(e.loop_delay->0@) is None {
            Some(EditErrorView::InvalidDelay(e.loop_delay->0@))
        } else {
            None
        }
    } else if e.loop_max is Some || e.loop_guard is Some || e.loop_delay is Some {
        Some(EditErrorView::LoopOptionsWithoutTarget)
    } else {
        None
    }
}

/// The new loop edge an edit asks for.
pub open spec fn new_edge(e: TaskEdit) -> LoopEdgeView {
    LoopEdgeView {
        target: e.add_loops_to->0@,
        guard: match e.loop_guard {
            Some(g) => Some(guard_of(g@)->Ok_0),
            None => None,
        },
        max_iterations: e.loop_max->0,
        delay: opt_str(e.loop_delay),
    }
}

/// The loop edges after an edit: the new edge unless one already goes to its
/// target, then the first edge to the removed target taken out.
pub open spec fn loops_after(ls: Seq<LoopEdgeView>, e: TaskEdit) -> Seq<LoopEdgeView> {
    let l1 = match e.add_loops_to {
        Some(t) => if has_edge_to(ls, t@) {
            ls
        } else {
            ls.push(new_edge(e))
        },
        None => ls,
    };
    match e.remove_loops_to {
        Some(r) => if has_edge_to(l1, r@) {
            l1.remove(first_edge_to(l1, r@))
        } else {
            l1
        },
        None => l1,
    }
}

/// The task after an accepted edit.
pub open spec fn edited(t: TaskView, e: TaskEdit) -> TaskView {
    TaskView {
        title: match e.title {
            Some(s) => s@,
            None => t.title,
        },
        description: match e.description {
            Some(s) => Some(s@),
            None => t.description,
        },
        blocked_by: remove_all(add_all(t.blocked_by, strs(e.add_blocked_by)), strs(e.remove_blocked_by)),
        tags: remove_all(add_all(t.tags, strs(e.add_tag)), strs(e.remove_tag)),
        model: match e.model {
            Some(s) => Some(s@),
            None => t.model,
        },
        skills: remove_all(add_all(t.skills, strs(e.add_skill)), strs(e.remove_skill)),
        loops_to: loops_after(t.loops_to, e),
        loop_iteration: match e.loop_iteration {
            Some(n) => n,
            None => t.loop_iteration,
        },
        ..t
    }
}

/// Each named blocker (when it is a task) lists `id` among the tasks it blocks.
pub open spec fn link_blockers(nodes: Seq<NodeView>, id: Seq<char>, deps: Seq<Seq<char>>) -> Seq<NodeView>
    decreases deps.len(),
{
    if deps.len() == 0 {
        nodes
    } else {
        let n = link_blockers(nodes, id, deps.drop_last());
        match task_index(n, deps.last()) {
            Some(j) => with_task(n, j, TaskView { blocks: added(task_at(n, j).blocks, id), ..task_at(n, j) }),
            None => n,
        }
    }
}

/// Each named former blocker (when it is a task) no longer lists `id` among
/// the tasks it blocks.
pub open spec fn unlink_blockers(nodes: Seq<NodeView>, id: Seq<char>, deps: Seq<Seq<char>>) -> Seq<NodeView>
    decreases deps.len(),
{
    if deps.len() == 0 {
        nodes
    } else {
        let n = unlink_blockers(nodes, id, deps.drop_last());
        match task_index(n, deps.last()) {
            Some(j) => with_task(
                n,
                j,
                TaskView { blocks: crate::ops::without(task_at(n, j).blocks, id), ..task_at(n, j) },
            ),
            None => n,
        }
    }
}

/// Whether any entry is true.
pub open spec fn any(b: Seq<bool>) -> bool {
    exists|k: int| 0 <= k < b.len() && b[k]
}

/// Whether an accepted edit changes the task.
pub open spec fn edit_changes(t: TaskView, e: TaskEdit) -> bool {
    ||| e.title is Some
    ||| e.description is Some
    ||| any(add_effects(t.blocked_by, strs(e.add_blocked_by)))
    ||| any(remove_effects(add_all(t.blocked_by, strs(e.add_blocked_by)), strs(e.remove_blocked_by)))
    ||| any(add_effects(t.tags, strs(e.add_tag)))
    ||| any(remove_effects(add_all(t.tags, strs(e.add_tag)), strs(e.remove_tag)))
    ||| e.model is Some
    ||| any(add_effects(t.skills, strs(e.add_skill)))
    ||| any(remove_effects(add_all(t.skills, strs(e.add_skill)), strs(e.remove_skill)))
    ||| (e.add_loops_to is Some && !has_edge_to(t.loops_to, e.add_loops_to->0@))
    ||| (e.remove_loops_to is Some && has_edge_to(
        match e.add_loops_to {
            Some(a) => if has_edge_to(t.loops_to, a@) {
                t.loops_to
            } else {
                t.loops_to.push(new_edge(e))
            },
            None => t.loops_to,
        },
        e.remove_loops_to->0@,
    ))
    ||| e.loop_iteration is Some
}

/// The graph after an accepted edit of the task at `i`.
pub open spec fn graph_after_edit(nodes: Seq<NodeView>, i: int, id: Seq<char>, e: TaskEdit) -> Seq<NodeView> {
    unlink_blockers(
        link_blockers(with_task(nodes, i, edited(task_at(nodes, i), e)), id, strs(e.add_blocked_by)),
        id,
        strs(e.remove_blocked_by),
    )
}

fn any_true(b: &Vec<bool>) -> (r: bool)
    ensures
        r == any(b@),
{
    let mut k: usize = 0;
    while k < b.len()
        invariant
            k <= b@.len(),
            forall|j: int| 0 <= j < k ==> !b@[j],
        decreases b@.len() - k,
    {
        if b[k] {
            return true;
        }
        k = k + 1;
    }
    false
}

fn find_edge(ls: &Vec<LoopEdge>, target: &str) -> (r: Option<usize>)
    ensures
        match r {
            Some(k) => has_edge_to(ls@.map_values(|e: LoopEdge| e@), target@) && k as int == first_edge_to(
                ls@.map_values(|e: LoopEdge| e@),
                target@,
            ) && (k as int) < ls@.len(),
            None => !has_edge_to(ls@.map_values(|e: LoopEdge| e@), target@),
        },
{
    let ghost lv = ls@.map_values(|e: LoopEdge| e@);
    let mut k: usize = 0;
    while k < ls.len()
        invariant
            k <= ls@.len(),
            lv == ls@.map_values(|e: LoopEdge| e@),
            forall|j: int| 0 <= j < k ==> (#[trigger] lv[j]).target != target@,
        decreases ls@.len() - k,
    {
        if str_eq(ls[k].target.as_str(), target) {
            proof {
                assert(lv[k as int].target == target@);
                let c = first_edge_to(lv, target@);
                assert(0 <= c < lv.len() && lv[c].target == target@ && forall|j: int| 0 <= j < c ==> lv[j].target != target@);
                if c < k {
                } else if c > k {
                    assert(lv[k as int].target == target@);
                }
            }
            return Some(k);
        }
        k = k + 1;
    }
    None
}

/// Check an edit without changing anything; on success, the parsed guard of
/// a new loop edge.
fn check_edit(graph: &WorkGraph, task_id: &str, e: &TaskEdit) -> (r: Result<Option<LoopGuard>, EditError>)
    ensures
        match r {
            Ok(g) => edit_refusal(graph@, task_id@, *e) is None && match e.loop_guard {
                Some(expr) => g is Some && guard_of(expr@) == Ok::<LoopGuardView, GuardErrorView>(g->0@),
                None => g is None,
            },
            Err(err) => edit_refusal(graph@, task_id@, *e) == Some(err@),
        },
{
    if locate_task(graph, task_id).is_none() {
        return Err(EditError::TaskNotFound);
    }
    if contains_str(&e.add_blocked_by, task_id) {
        assert(strs(e.add_blocked_by) =~= e.add_blocked_by@.map_values(|x: String| x@));
        return Err(EditError::SelfBlocking);
    }
    assert(strs(e.add_blocked_by) =~= e.add_blocked_by@.map_values(|x: String| x@));
    match &e.add_loops_to {
        Some(target) => {
            if str_eq(target.as_str(), task_id) {
                return Err(EditError::SelfLoop);
            }
            if e.loop_max.is_none() {
                return Err(EditError::LoopMaxRequired);
            }
            let guard = match &e.loop_guard {
                Some(expr) => match parse_guard_expr(expr.as_str()) {
                    Ok(g) => Some(g),
                    Err(ge) => {
                        return Err(EditError::Guard(ge));
                    },
                },
                None => None,
            };
            if let Some(d) = &e.loop_delay {
                if parse_delay(d.as_str()).is_none() {
                    return Err(EditError::InvalidDelay(d.clone()));
                }
            }
            Ok(guard)
        },
        None => {
            if e.loop_max.is_some() || e.loop_guard.is_some() || e.loop_delay.is_some() {
                Err(EditError::LoopOptionsWithoutTarget)
            } else {
                Ok(None)
            }
        },
    }
}

/// The views of a list of loop edges.
pub open spec fn edge_views(ls: Seq<LoopEdge>) -> Seq<LoopEdgeView> {
    ls.map_values(|x: LoopEdge| x@)
}

/// The edges after adding an edge unless one already goes to its target.
pub open spec fn with_edge(ls: Seq<LoopEdgeView>, edge: LoopEdgeView) -> Seq<LoopEdgeView> {
    if has_edge_to(ls, edge.target) {
        ls
    } else {
        ls.push(edge)
    }
}

/// The edges after removing the first one to `target`, if any.
pub open spec fn without_edge(ls: Seq<LoopEdgeView>, target: Seq<char>) -> Seq<LoopEdgeView> {
    if has_edge_to(ls, target) {
        ls.remove(first_edge_to(ls, target))
    } else {
        ls
    }
}

fn add_edge(ls: &mut Vec<LoopEdge>, edge: LoopEdge) -> (r: bool)
    ensures
        edge_views(final(ls)@) == with_edge(edge_views(old(ls)@), edge@),
        r == !has_edge_to(edge_views(old(ls)@), edge@.target),
{
    let ghost ev = edge@;
    match find_edge(ls, edge.target.as_str()) {
        Some(_) => false,
        None => {
            let ghost before = ls@;
            ls.push(edge);
            assert(edge_views(ls@) =~= edge_views(before).push(ev));
            true
        },
    }
}

fn drop_edge(ls: &mut Vec<LoopEdge>, target: &str) -> (r: bool)
    ensures
        edge_views(final(ls)@) == without_edge(edge_views(old(ls)@), target@),
        r == has_edge_to(edge_views(old(ls)@), target@),
{
    match find_edge(ls, target) {
        Some(k) => {
            let ghost before = ls@;
            ls.remove(k);
            assert(edge_views(ls@) =~= edge_views(before).remove(k as int));
            true
        },
        None => false,
    }
}

fn apply_loops(task: &mut Task, e: &TaskEdit, guard: Option<LoopGuard>) -> (r: (Option<bool>, Option<bool>))
    requires
        e.add_loops_to is Some ==> e.loop_max is Some,
        match e.loop_guard {
            Some(expr) => guard is Some && guard_of(expr@) == Ok::<LoopGuardView, GuardErrorView>(guard->0@),
            None => guard is None,
        },
    ensures
        final(task)@ == (TaskView { loops_to: loops_after(old(task)@.loops_to, *e), ..old(task)@ }),
        r.0 == match e.add_loops_to {
            Some(t) => Some(!has_edge_to(old(task)@.loops_to, t@)),
            None => None::<bool>,
        },
        r.1 == match e.remove_loops_to {
            Some(rm) => Some(
                has_edge_to(
                    match e.add_loops_to {
                        Some(a) => if has_edge_to(old(task)@.loops_to, a@) {
                            old(task)@.loops_to
                        } else {
                            old(task)@.loops_to.push(new_edge(*e))
                        },
                        None => old(task)@.loops_to,
                    },
                    rm@,
                ),
            ),
            None => None::<bool>,
        },
{
    let ghost l0 = edge_views(task.loops_to@);
    assert(task@.loops_to == l0);
    let added = match &e.add_loops_to {
        Some(target) => {
            let edge = LoopEdge {
                target: target.clone(),
                guard,
                max_iterations: e.loop_max.unwrap(),
                delay: clone_opt(&e.loop_delay),
            };
            assert(edge@ == new_edge(*e));
            Some(add_edge(&mut task.loops_to, edge))
        },
        None => None,
    };
    let ghost l1 = edge_views(task.loops_to@);
    let removed = match &e.remove_loops_to {
        Some(target) => Some(drop_edge(&mut task.loops_to, target.as_str())),
        None => None,
    };
    assert(edge_views(task.loops_to@) == loops_after(l0, *e));
    assert(task@.loops_to == edge_views(task.loops_to@));
    (added, removed)
}

fn apply_fields(task: &mut Task, e: &TaskEdit) -> (r: EditReport)
    ensures
        final(task)@ == (TaskView {
            loops_to: old(task)@.loops_to,
            loop_iteration: old(task)@.loop_iteration,
            ..edited(old(task)@, *e)
        }),
        r.blocked_by_added@ == add_effects(old(task)@.blocked_by, strs(e.add_blocked_by)),
        r.blocked_by_removed@ == remove_effects(add_all(old(task)@.blocked_by, strs(e.add_blocked_by)), strs(e.remove_blocked_by)),
        r.tags_added@ == add_effects(old(task)@.tags, strs(e.add_tag)),
        r.tags_removed@ == remove_effects(add_all(old(task)@.tags, strs(e.add_tag)), strs(e.remove_tag)),
        r.skills_added@ == add_effects(old(task)@.skills, strs(e.add_skill)),
        r.skills_removed@ == remove_effects(add_all(old(task)@.skills, strs(e.add_skill)), strs(e.remove_skill)),
        r.loop_added is None,
        r.loop_removed is None,
{
    if let Some(t) = &e.title {
        task.title = t.clone();
    }
    if let Some(d) = &e.description {
        task.description = Some(d.clone());
    }
    let blocked_by_added = add_each(&mut task.blocked_by, &e.add_blocked_by);
    let blocked_by_removed = remove_each(&mut task.blocked_by, &e.remove_blocked_by);
    let tags_added = add_each(&mut task.tags, &e.add_tag);
    let tags_removed = remove_each(&mut task.tags, &e.remove_tag);
    if let Some(m) = &e.model {
        task.model = Some(m.clone());
    }
    let skills_added = add_each(&mut task.skills, &e.add_skill);
    let skills_removed = remove_each(&mut task.skills, &e.remove_skill);
    EditReport {
        changed: false,
        blocked_by_added,
        blocked_by_removed,
        tags_added,
        tags_removed,
        skills_added,
        skills_removed,
        loop_added: None,
        loop_removed: None,
    }
}

pub(crate) fn link_each(graph: &mut WorkGraph, id: &String, deps: &Vec<String>)
    ensures
        final(graph)@ == link_blockers(old(graph)@, id@, strs(*deps)),
{
    let ghost start = graph@;
    let ghost ds = strs(*deps);
    let mut k: usize = 0;
    while k < deps.len()
        invariant
            k <= deps@.len(),
            ds == strs(*deps),
            graph@ == link_blockers(start, id@, ds.take(k as int)),
        decreases deps@.len() - k,
    {
        assert(ds.take(k + 1).drop_last() =~= ds.take(k as int));
        assert(ds.take(k + 1).last() == deps@[k as int]@);
        if let Some(j) = locate_task(graph, deps[k].as_str()) {
            let ghost before = graph@;
            let mut t = take_task(graph, j);
            let ghost tv = t@;
            crate::lists::add_unique(&mut t.blocks, id);
            let ghost nt = TaskView { blocks: added(tv.blocks, id@), ..tv };
            assert(t@ == nt);
            put_task(graph, j, t);
            proof { lemma_remove_insert(before, j as int, NodeView::Task(nt)); }
        }
        k = k + 1;
    }
    assert(ds.take(deps@.len() as int) =~= ds);
}

fn unlink_each(graph: &mut WorkGraph, id: &String, deps: &Vec<String>)
    ensures
        final(graph)@ == unlink_blockers(old(graph)@, id@, strs(*deps)),
{
    let ghost start = graph@;
    let ghost ds = strs(*deps);
    let mut k: usize = 0;
    while k < deps.len()
        invariant
            k <= deps@.len(),
            ds == strs(*deps),
            graph@ == unlink_blockers(start, id@, ds.take(k as int)),
        decreases deps@.len() - k,
    {
        assert(ds.take(k + 1).drop_last() =~= ds.take(k as int));
        assert(ds.take(k + 1).last() == deps@[k as int]@);
        if let Some(j) = locate_task(graph, deps[k].as_str()) {
            let ghost before = graph@;
            let mut t = take_task(graph, j);
            let ghost tv = t@;
            t.blocks = crate::ops::retain_other(&t.blocks, id.as_str());
            let ghost nt = TaskView { blocks: crate::ops::without(tv.blocks, id@), ..tv };
            assert(t@ == nt);
            put_task(graph, j, t);
            proof { lemma_remove_insert(before, j as int, NodeView::Task(nt)); }
        }
        k = k + 1;
    }
    assert(ds.take(deps@.len() as int) =~= ds);
}

/// Edit task `task_id`. Refused edits change nothing; accepted ones change
/// the task's fields, add then remove dependencies, tags and skills (adding
/// skips names already present, removing takes the first occurrence), add a
/// loop edge unless one already goes to its target, remove the first loop
/// edge to a target, set the loop iteration, and keep the blockers' `blocks`
/// lists consistent with the new dependencies.
pub fn edit_task(graph: &mut WorkGraph, task_id: &str, e: &TaskEdit) -> (r: Result<EditReport, EditError>)
    ensures
        match edit_refusal(old(graph)@, task_id@, *e) {
            Some(err) => r matches Err(x) && x@ == err && final(graph)@ == old(graph)@,
            None => {
                let i = task_index(old(graph)@, task_id@)->0;
                let t = task_at(old(graph)@, i);
                &&& r matches Ok(rep)
                &&& final(graph)@ == graph_after_edit(old(graph)@, i, task_id@, *e)
                &&& rep.changed == edit_changes(t, *e)
                &&& rep.blocked_by_added@ == add_effects(t.blocked_by, strs(e.add_blocked_by))
                &&& rep.blocked_by_removed@ == remove_effects(add_all(t.blocked_by, strs(e.add_blocked_by)), strs(e.remove_blocked_by))
                &&& rep.tags_added@ == add_effects(t.tags, strs(e.add_tag))
                &&& rep.tags_removed@ == remove_effects(add_all(t.tags, strs(e.add_tag)), strs(e.remove_tag))
                &&& rep.skills_added@ == add_effects(t.skills, strs(e.add_skill))
                &&& rep.skills_removed@ == remove_effects(add_all(t.skills, strs(e.add_skill)), strs(e.remove_skill))
            },
        },
{
    let guard = match check_edit(graph, task_id, e) {
        Ok(g) => g,
        Err(err) => {
            return Err(err);
        },
    };
    let i = locate_task(graph, task_id).unwrap();
    let ghost old_nodes = graph@;
    let mut task = take_task(graph, i);
    let ghost tv = task@;
    let mut report = apply_fields(&mut task, e);
    let (loop_added, loop_removed) = apply_loops(&mut task, e, guard);
    if let Some(n) = e.loop_iteration {
        task.loop_iteration = n;
    }
    assert(task@ == edited(tv, *e));
    put_task(graph, i, task);
    proof { lemma_remove_insert(old_nodes, i as int, NodeView::Task(edited(tv, *e))); }
    let id = task_id.to_string();
    link_each(graph, &id, &e.add_blocked_by);
    unlink_each(graph, &id, &e.remove_blocked_by);
    let changed = e.title.is_some() || e.description.is_some() || any_true(&report.blocked_by_added)
        || any_true(&report.blocked_by_removed) || any_true(&report.tags_added) || any_true(&report.tags_removed)
        || e.model.is_some() || any_true(&report.skills_added) || any_true(&report.skills_removed)
        || loop_added == Some(true) || loop_removed == Some(true) || e.loop_iteration.is_some();
    report.changed = changed;
    report.loop_added = loop_added;
    report.loop_removed = loop_removed;
    Ok(report)
}

} // verus!
