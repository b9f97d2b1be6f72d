//! The task graph: tasks, resources, their dependencies and loop edges.
//!
//! Every type here has a view made of mathematical values (`Seq<char>` for
//! strings), and the contracts of the whole library are stated over those views.
use vstd::prelude::*;
use crate::text::str_eq;

verus! {

/// Lifecycle state of a task.
#[derive(Clone, Copy, Debug, PartialEq, Eq, Structural)]
pub enum Status {
    Open,
    InProgress,
    Done,
    Blocked,
    Failed,
    Abandoned,
    PendingReview,
}

/// A status is terminal when no more work happens on the task.
pub open spec fn status_is_terminal(s: Status) -> bool {
    s == Status::Done || s == Status::Failed || s == Status::Abandoned
}

impl Status {
    /// Done, failed and abandoned tasks are terminal.
    pub fn is_terminal(&self) -> (b: bool)
        ensures
            b == status_is_terminal(*self),
    {
        match self {
            Status::Done | Status::Failed | Status::Abandoned => true,
            _ => false,
        }
    }
}

/// The view of an optional string.
pub open spec fn opt_str(o: Option<String>) -> Option<Seq<char>> {
    match o {
        Some(s) => Some(s@),
        None => None,
    }
}

/// The view of a list of strings.
pub open spec fn strs(v: Vec<String>) -> Seq<Seq<char>> {
    v@.map_values(|s: String| s@)
}

/// One entry of a task's progress log.
#[derive(Debug, Clone, PartialEq, Eq)]
pub struct LogEntry {
    pub timestamp: String,
    pub actor: Option<String>,
    pub message: String,
}

pub ghost struct LogEntryView {
    pub timestamp: Seq<char>,
    pub actor: Option<Seq<char>>,
    pub message: Seq<char>,
}

impl View for LogEntry {
    type V = LogEntryView;

    open spec fn view(&self) -> LogEntryView {
        LogEntryView { timestamp: self.timestamp@, actor: opt_str(self.actor), message: self.message@ }
    }
}

/// Condition under which a loop edge fires.
#[derive(Debug, Clone, PartialEq, Eq)]
pub enum LoopGuard {
    /// Fire only when the named task has the given status.
    TaskStatus { task: String, status: Status },
    /// Always fire.
    Always,
}

pub ghost enum LoopGuardView {
    TaskStatus { task: Seq<char>, status: Status },
    Always,
}

impl View for LoopGuard {
    type V = LoopGuardView;

    open spec fn view(&self) -> LoopGuardView {
        match self {
            LoopGuard::TaskStatus { task, status } => LoopGuardView::TaskStatus {
                task: task@,
                status: *status,
            },
            LoopGuard::Always => LoopGuardView::Always,
        }
    }
}

/// A back edge: when its source task completes, `target` may be re-opened.
#[derive(Debug, Clone, PartialEq, Eq)]
pub struct LoopEdge {
    pub target: String,
    pub guard: Option<LoopGuard>,
    pub max_iterations: u32,
    pub delay: Option<String>,
}

pub ghost struct LoopEdgeView {
    pub target: Seq<char>,
    pub guard: Option<LoopGuardView>,
    pub max_iterations: u32,
    pub delay: Option<Seq<char>>,
}

impl View for LoopEdge {
    type V = LoopEdgeView;

    open spec fn view(&self) -> LoopEdgeView {
        LoopEdgeView {
            target: self.target@,
            guard: match self.guard {
                Some(g) => Some(g@),
                None => None,
            },
            max_iterations: self.max_iterations,
            delay: opt_str(self.delay),
        }
    }
}

/// A unit of work.
#[derive(Debug, Clone, PartialEq, Eq)]
pub struct Task {
    pub id: String,
    pub title: String,
    pub description: Option<String>,
    pub status: Status,
    pub assigned: Option<String>,
    pub blocks: Vec<String>,
    pub blocked_by: Vec<String>,
    pub requires: Vec<String>,
    pub tags: Vec<String>,
    pub skills: Vec<String>,
    pub inputs: Vec<String>,
    pub deliverables: Vec<String>,
    pub artifacts: Vec<String>,
    pub exec_command: Option<String>,
    pub not_before: Option<String>,
    pub created_at: Option<String>,
    pub started_at: Option<String>,
    pub completed_at: Option<String>,
    pub log: Vec<LogEntry>,
    pub retry_count: u32,
    pub max_retries: Option<u32>,
    pub failure_reason: Option<String>,
    pub model: Option<String>,
    pub verify: Option<String>,
    pub agent: Option<String>,
    pub loops_to: Vec<LoopEdge>,
    pub loop_iteration: u32,
    pub ready_after: Option<String>,
}

pub ghost struct TaskView {
    pub id: Seq<char>,
    pub title: Seq<char>,
    pub description: Option<Seq<char>>,
    pub status: Status,
    pub assigned: Option<Seq<char>>,
    pub blocks: Seq<Seq<char>>,
    pub blocked_by: Seq<Seq<char>>,
    pub requires: Seq<Seq<char>>,
    pub tags: Seq<Seq<char>>,
    pub skills: Seq<Seq<char>>,
    pub inputs: Seq<Seq<char>>,
    pub deliverables: Seq<Seq<char>>,
    pub artifacts: Seq<Seq<char>>,
    pub exec_command: Option<Seq<char>>,
    pub not_before: Option<Seq<char>>,
    pub created_at: Option<Seq<char>>,
    pub started_at: Option<Seq<char>>,
    pub completed_at: Option<Seq<char>>,
    pub log: Seq<LogEntryView>,
    pub retry_count: u32,
    pub max_retries: Option<u32>,
    pub failure_reason: Option<Seq<char>>,
    pub model: Option<Seq<char>>,
    pub verify: Option<Seq<char>>,
    pub agent: Option<Seq<char>>,
    pub loops_to: Seq<LoopEdgeView>,
    pub loop_iteration: u32,
    pub ready_after: Option<Seq<char>>,
}

impl View for Task {
    type V = TaskView;

    open spec fn view(&self) -> TaskView {
        TaskView {
            id: self.id@,
            title: self.title@,
            description: opt_str(self.description),
            status: self.status,
            assigned: opt_str(self.assigned),
            blocks: strs(self.blocks),
            blocked_by: strs(self.blocked_by),
            requires: strs(self.requires),
            tags: strs(self.tags),
            skills: strs(self.skills),
            inputs: strs(self.inputs),
            deliverables: strs(self.deliverables),
            artifacts: strs(self.artifacts),
            exec_command: opt_str(self.exec_command),
            not_before: opt_str(self.not_before),
            created_at: opt_str(self.created_at),
            started_at: opt_str(self.started_at),
            completed_at: opt_str(self.completed_at),
            log: self.log@.map_values(|e: LogEntry| e@),
            retry_count: self.retry_count,
            max_retries: self.max_retries,
            failure_reason: opt_str(self.failure_reason),
            model: opt_str(self.model),
            verify: opt_str(self.verify),
            agent: opt_str(self.agent),
            loops_to: self.loops_to@.map_values(|e: LoopEdge| e@),
            loop_iteration: self.loop_iteration,
            ready_after: opt_str(self.ready_after),
        }
    }
}

/// An open task with the given id and title and every other field empty.
pub open spec fn blank_task(id: Seq<char>, title: Seq<char>) -> TaskView {
    TaskView {
        id,
        title,
        description: None,
        status: Status::Open,
        assigned: None,
        blocks: Seq::empty(),
        blocked_by: Seq::empty(),
        requires: Seq::empty(),
        tags: Seq::empty(),
        skills: Seq::empty(),
        inputs: Seq::empty(),
        deliverables: Seq::empty(),
        artifacts: Seq::empty(),
        exec_command: None,
        not_before: None,
        created_at: None,
        started_at: None,
        completed_at: None,
        log: Seq::empty(),
        retry_count: 0,
        max_retries: None,
        failure_reason: None,
        model: None,
        verify: None,
        agent: None,
        loops_to: Seq::empty(),
        loop_iteration: 0,
        ready_after: None,
    }
}

impl Task {
    /// A new open task with the given id and title and every other field empty.
    pub fn new(id: &str, title: &str) -> (t: Task)
        ensures
            t@ == blank_task(id@, title@),
    {
        let t = Task {
            id: id.to_string(),
            title: title.to_string(),
            description: None,
            status: Status::Open,
            assigned: None,
            blocks: Vec::new(),
            blocked_by: Vec::new(),
            requires: Vec::new(),
            tags: Vec::new(),
            skills: Vec::new(),
            inputs: Vec::new(),
            deliverables: Vec::new(),
            artifacts: Vec::new(),
            exec_command: None,
            not_before: None,
            created_at: None,
            started_at: None,
            completed_at: None,
            log: Vec::new(),
            retry_count: 0,
            max_retries: None,
            failure_reason: None,
            model: None,
            verify: None,
            agent: None,
            loops_to: Vec::new(),
            loop_iteration: 0,
            ready_after: None,
        };
        proof {
            assert(strs(t.blocks) =~= Seq::empty());
            assert(strs(t.blocked_by) =~= Seq::empty());
            assert(strs(t.requires) =~= Seq::empty());
            assert(strs(t.tags) =~= Seq::empty());
            assert(strs(t.skills) =~= Seq::empty());
            assert(strs(t.inputs) =~= Seq::empty());
            assert(strs(t.deliverables) =~= Seq::empty());
            assert(strs(t.artifacts) =~= Seq::empty());
            assert(t.log@.map_values(|e: LogEntry| e@) =~= Seq::empty());
            assert(t.loops_to@.map_values(|e: LoopEdge| e@) =~= Seq::empty());
        }
        t
    }
}

/// A shared asset that tasks may require.
#[derive(Debug, Clone, PartialEq, Eq)]
pub struct Resource {
    pub id: String,
    pub name: Option<String>,
    pub resource_type: Option<String>,
    pub unit: Option<String>,
}

pub ghost struct ResourceView {
    pub id: Seq<char>,
    pub name: Option<Seq<char>>,
    pub resource_type: Option<Seq<char>>,
    pub unit: Option<Seq<char>>,
}

impl View for Resource {
    type V = ResourceView;

    open spec fn view(&self) -> ResourceView {
        ResourceView {
            id: self.id@,
            name: opt_str(self.name),
            resource_type: opt_str(self.resource_type),
            unit: opt_str(self.unit),
        }
    }
}

/// A node of the graph.
#[derive(Debug, Clone, PartialEq, Eq)]
pub enum Node {
    Task(Task),
    Resource(Resource),
}

pub ghost enum NodeView {
    Task(TaskView),
    Resource(ResourceView),
}

impl View for Node {
    type V = NodeView;

    open spec fn view(&self) -> NodeView {
        match self {
            Node::Task(t) => NodeView::Task(t@),
            Node::Resource(r) => NodeView::Resource(r@),
        }
    }
}

pub open spec fn node_id(n: NodeView) -> Seq<char> {
    match n {
        NodeView::Task(t) => t.id,
        NodeView::Resource(r) => r.id,
    }
}

impl Node {
    pub fn id(&self) -> (r: &String)
        ensures
            r@ == node_id(self@),
    {
        match self {
            Node::Task(t) => &t.id,
            Node::Resource(r) => &r.id,
        }
    }
}

/// Index of the first node with the given id, if any.
pub open spec fn find_node(nodes: Seq<NodeView>, id: Seq<char>) -> Option<int>
    decreases nodes.len(),
{
    if nodes.len() == 0 {
        None
    } else {
        match find_node(nodes.drop_last(), id) {
            Some(i) => Some(i),
            None => if node_id(nodes.last()) == id {
                Some((nodes.len() - 1) as int)
            } else {
                None
            },
        }
    }
}

/// The node stored under `id`.
pub open spec fn lookup_node(nodes: Seq<NodeView>, id: Seq<char>) -> Option<NodeView> {
    match find_node(nodes, id) {
        Some(i) => Some(nodes[i]),
        None => None,
    }
}

/// The task stored under `id` (none when the id names a resource or nothing).
pub open spec fn lookup_task(nodes: Seq<NodeView>, id: Seq<char>) -> Option<TaskView> {
    match lookup_node(nodes, id) {
        Some(NodeView::Task(t)) => Some(t),
        _ => None,
    }
}

/// The resource stored under `id`.
pub open spec fn lookup_resource(nodes: Seq<NodeView>, id: Seq<char>) -> Option<ResourceView> {
    match lookup_node(nodes, id) {
        Some(NodeView::Resource(r)) => Some(r),
        _ => None,
    }
}

/// Index of the task stored under `id`.
pub open spec fn task_index(nodes: Seq<NodeView>, id: Seq<char>) -> Option<int> {
    match find_node(nodes, id) {
        Some(i) => if nodes[i] is Task {
            Some(i)
        } else {
            None
        },
        None => None,
    }
}

pub proof fn lemma_find_node(nodes: Seq<NodeView>, id: Seq<char>)
    ensures
        match find_node(nodes, id) {
            Some(i) => 0 <= i < nodes.len() && node_id(nodes[i]) == id && forall|j: int|
                0 <= j < i ==> node_id(#[trigger] nodes[j]) != id,
            None => forall|j: int| 0 <= j < nodes.len() ==> node_id(#[trigger] nodes[j]) != id,
        },
    decreases nodes.len(),
{
    if nodes.len() > 0 {
        lemma_find_node(nodes.drop_last(), id);
        assert forall|j: int| 0 <= j < nodes.len() - 1 implies nodes.drop_last()[j] == nodes[j] by {}
    }
}

/// Whether a node carrying `id` exists.
pub open spec fn has_node(nodes: Seq<NodeView>, id: Seq<char>) -> bool {
    exists|j: int| 0 <= j < nodes.len() && node_id(#[trigger] nodes[j]) == id
}

/// A graph of tasks and resources, keyed by id.
///
/// `add_node` replaces a node with the same id, so ids are never repeated.
#[derive(Debug, Clone)]
pub struct WorkGraph {
    pub nodes: Vec<Node>,
}

impl View for WorkGraph {
    type V = Seq<NodeView>;

    open spec fn view(&self) -> Seq<NodeView> {
        self.nodes@.map_values(|n: Node| n@)
    }
}

/// Ids are pairwise distinct.
pub open spec fn unique_ids(nodes: Seq<NodeView>) -> bool {
    forall|i: int, j: int|
        0 <= i < nodes.len() && 0 <= j < nodes.len() && i != j ==> node_id(#[trigger] nodes[i])
            != node_id(#[trigger] nodes[j])
}

impl WorkGraph {
    /// An empty graph.
    pub fn new() -> (g: WorkGraph)
        ensures
            g@ == Seq::<NodeView>::empty(),
    {
        let g = WorkGraph { nodes: Vec::new() };
        assert(g@ =~= Seq::<NodeView>::empty());
        g
    }

    /// Position of the node with id `id`.
    pub fn find(&self, id: &str) -> (r: Option<usize>)
        ensures
            match r {
                Some(i) => find_node(self@, id@) == Some(i as int) && (i as int) < self@.len(),
                None => find_node(self@, id@) is None,
            },
    {
        proof {
            lemma_find_node(self@, id@);
        }
        let mut i: usize = 0;
        while i < self.nodes.len()
            invariant
                i <= self.nodes.len(),
                self@.len() == self.nodes.len(),
                forall|j: int| 0 <= j < i ==> node_id(#[trigger] self@[j]) != id@,
                match find_node(self@, id@) {
                    Some(k) => 0 <= k < self@.len() && node_id(self@[k]) == id@ && forall|j: int|
                        0 <= j < k ==> node_id(#[trigger] self@[j]) != id@,
                    None => forall|j: int|
                        0 <= j < self@.len() ==> node_id(#[trigger] self@[j]) != id@,
                },
            decreases self.nodes.len() - i,
        {
            let nid = self.nodes[i].id();
            assert(self@[i as int] == self.nodes@[i as int]@);
            if str_eq(nid.as_str(), id) {
                proof {
                    match find_node(self@, id@) {
                        Some(k) => {
                            if k < i {
                            } else if k > i {
                                assert(node_id(self@[i as int]) == id@);
                            }
                        },
                        None => {
                            assert(node_id(self@[i as int]) == id@);
                        },
                    }
                }
                return Some(i);
            }
            i = i + 1;
        }
        None
    }

    /// The node stored under `id`.
    pub fn get_node(&self, id: &str) -> (r: Option<&Node>)
        ensures
            match r {
                Some(n) => lookup_node(self@, id@) == Some(n@),
                None => lookup_node(self@, id@) is None,
            },
    {
        match self.find(id) {
            Some(i) => Some(&self.nodes[i]),
            None => None,
        }
    }

    /// The task stored under `id`.
    pub fn get_task(&self, id: &str) -> (r: Option<&Task>)
        ensures
            match r {
                Some(t) => lookup_task(self@, id@) == Some(t@),
                None => lookup_task(self@, id@) is None,
            },
    {
        match self.get_node(id) {
            Some(Node::Task(t)) => Some(t),
            _ => None,
        }
    }

    /// The resource stored under `id`.
    pub fn get_resource(&self, id: &str) -> (r: Option<&Resource>)
        ensures
            match r {
                Some(t) => lookup_resource(self@, id@) == Some(t@),
                None => lookup_resource(self@, id@) is None,
            },
    {
        match self.get_node(id) {
            Some(Node::Resource(t)) => Some(t),
            _ => None,
        }
    }

    /// Insert a node; a node with the same id is replaced in place.
    pub fn add_node(&mut self, node: Node)
        ensures
            match find_node(old(self)@, node_id(node@)) {
                Some(i) => final(self)@ == old(self)@.update(i, node@),
                None => final(self)@ == old(self)@.push(node@),
            },
    {
        let ghost nv = node@;
        let found = self.find(node.id().as_str());
        match found {
            Some(i) => {
                self.nodes.set(i, node);
                assert(self@ =~= old(self)@.update(i as int, nv));
            },
            None => {
                self.nodes.push(node);
                assert(self@ =~= old(self)@.push(nv));
            },
        }
    }
}

} // verus!
