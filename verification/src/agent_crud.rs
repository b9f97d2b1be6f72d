//! Creating agents: the rule that an AI agent needs a role and an objective,
//! and the id a new agent gets.
use vstd::prelude::*;
use vstd::string::*;
use vstd::utf8::{encode_utf8, is_char_boundary};
use crate::agency::{Agent, content_hash, hex, sha256, short_hash, short_hash_text, short_len};
use crate::fmt::{decimal, push_u64};
use crate::graph::strs;
use crate::lineage::{AncestryNode, AncestryNodeView};
use crate::check::views;

verus! {

/// Why an agent could not be created.
#[derive(Debug, Clone, Copy, PartialEq, Eq)]
pub enum AgentCreateError {
    /// An AI agent was given no role.
    RoleRequired,
    /// An AI agent was given a role but no objective.
    ObjectiveRequired,
}

/// The text a human agent without a role and an objective is hashed from.
pub open spec fn human_agent_key(name: Seq<char>, executor: Seq<char>) -> Seq<char> {
    "human-agent:"@ + name + ":"@ + executor
}

/// The id a new agent gets, or why it cannot be created. An agent that is
/// not run by a human needs a role, and then an objective; with both, its
/// id is `pair_id`, the content hash of the pair. Otherwise (a human agent
/// missing either) its id is the hash of `human-agent:{name}:{executor}`.
pub fn new_agent_id(
    name: &str,
    executor: &str,
    executor_is_human: bool,
    role_id: Option<&str>,
    objective_id: Option<&str>,
    pair_id: Option<&str>,
) -> (r: Result<String, AgentCreateError>)
    requires
        role_id is Some && objective_id is Some ==> pair_id is Some,
    ensures
        (!executor_is_human && role_id is None) <==> r == Err::<String, AgentCreateError>(AgentCreateError::RoleRequired),
        (!executor_is_human && role_id is Some && objective_id is None) <==> r == Err::<String, AgentCreateError>(
            AgentCreateError::ObjectiveRequired,
        ),
        role_id is Some && objective_id is Some ==> (r matches Ok(id) && id@ == pair_id->0@),
        executor_is_human && (role_id is None || objective_id is None) ==> (r matches Ok(id) && id@ == hex(
            sha256(encode_utf8(human_agent_key(name@, executor@))),
        )),
{
    if role_id.is_none() && !executor_is_human {
        return Err(AgentCreateError::RoleRequired);
    }
    if objective_id.is_none() && !executor_is_human {
        return Err(AgentCreateError::ObjectiveRequired);
    }
    match (role_id, objective_id, pair_id) {
        (Some(_), Some(_), Some(p)) => Ok(p.to_string()),
        _ => {
            let mut key = "human-agent:".to_string();
            key.append(name);
            key.append(":");
            key.append(executor);
            proof {
                reveal_strlit("human-agent:");
                reveal_strlit(":");
            }
            assert(key@ == human_agent_key(name@, executor@));
            Ok(content_hash(key.as_str()))
        },
    }
}

/// The message for an agent that could not be created.
pub fn agent_create_error_message(e: AgentCreateError, executor: &str) -> (r: String)
    ensures
        r@ == match e {
            AgentCreateError::RoleRequired => "--role is required for AI agents (executor="@ + executor@ + ")"@,
            AgentCreateError::ObjectiveRequired => "--objective is required for AI agents (executor="@ + executor@
                + ")"@,
        },
{
    let mut m = match e {
        AgentCreateError::RoleRequired => "--role is required for AI agents (executor=".to_string(),
        AgentCreateError::ObjectiveRequired => "--objective is required for AI agents (executor=".to_string(),
    };
    m.append(executor);
    m.append(")");
    m
}

// ---------------------------------------------------------------------------
// Lineage report
// ---------------------------------------------------------------------------

/// An id whose short form can be cut: its first eight bytes (all of it when
/// shorter) end on a character boundary.
pub open spec fn shortenable(s: Seq<char>) -> bool {
    is_char_boundary(encode_utf8(s), short_len(encode_utf8(s).len()))
}

pub open spec fn all_shortenable(ids: Seq<Seq<char>>) -> bool {
    forall|i: int| 0 <= i < ids.len() ==> shortenable(#[trigger] ids[i])
}

/// Whether the short form of `s` can be cut.
pub fn is_shortenable(s: &str) -> (r: bool)
    ensures
        r == shortenable(s@),
{
    let b = s.as_bytes();
    let n = b.len();
    proof {
        vstd::utf8::encode_utf8_valid_utf8(s@);
        vstd::utf8::is_char_boundary_start_end_of_seq(b@);
    }
    if n <= 8 {
        true
    } else {
        let x = b[8];
        proof {
            vstd::utf8::is_char_boundary_iff_not_is_continuation_byte(b@, 8);
        }
        !(0x80 <= x && x <= 0xbf)
    }
}

/// The short forms of `ids`, joined by ", ".
pub open spec fn short_list(ids: Seq<Seq<char>>) -> Seq<char>
    decreases ids.len(),
{
    if ids.len() == 0 {
        Seq::empty()
    } else if ids.len() == 1 {
        short_hash_text(ids[0])
    } else {
        short_list(ids.drop_last()) + ", "@ + short_hash_text(ids.last())
    }
}

/// `n` levels of two-space indentation.
pub open spec fn indentation(n: nat) -> Seq<char>
    decreases n,
{
    if n == 0 {
        Seq::empty()
    } else {
        indentation((n - 1) as nat) + "  "@
    }
}

pub open spec fn generation_label(g: u32) -> Seq<char> {
    if g == 0 {
        "gen 0 (root)"@
    } else {
        "gen "@ + decimal(g as nat)
    }
}

/// One ancestor, indented by its generation.
pub open spec fn ancestry_line(n: AncestryNodeView) -> Seq<char> {
    indentation((n.generation + 1) as nat) + short_hash_text(n.id) + " ("@ + n.name + ") ["@ + generation_label(
        n.generation,
    ) + "] created by: "@ + n.created_by + if n.parent_ids.len() == 0 {
        Seq::<char>::empty()
    } else {
        " <- ["@ + short_list(n.parent_ids) + "]"@
    }
}

/// A section of ancestors of the item `id`, or the line saying it was not
/// found.
pub open spec fn ancestry_section(
    title: Seq<char>,
    id: Seq<char>,
    missing: Seq<char>,
    nodes: Seq<AncestryNodeView>,
) -> Seq<Seq<char>> {
    seq![title + " ancestry ("@ + short_hash_text(id) + ")"@] + if nodes.len() == 0 {
        seq![missing]
    } else {
        nodes.map_values(|n: AncestryNodeView| ancestry_line(n))
    }
}

pub open spec fn nodes_shortenable(nodes: Seq<AncestryNodeView>) -> bool {
    forall|i: int| 0 <= i < nodes.len() ==> shortenable((#[trigger] nodes[i]).id) && all_shortenable(nodes[i].parent_ids)
}

/// The lineage report of an agent: the agent itself, then the ancestry of
/// its role and of its objective.
pub open spec fn lineage_lines(
    agent_id: Seq<char>,
    name: Seq<char>,
    generation: u32,
    created_by: Seq<char>,
    parents: Seq<Seq<char>>,
    role_id: Seq<char>,
    objective_id: Seq<char>,
    role_nodes: Seq<AncestryNodeView>,
    objective_nodes: Seq<AncestryNodeView>,
) -> Seq<Seq<char>> {
    seq![
        "Lineage for agent: "@ + name + " ("@ + short_hash_text(agent_id) + ")"@,
        "  Generation: "@ + decimal(generation as nat),
        "  Created by: "@ + created_by,
    ] + (if parents.len() > 0 {
        seq!["  Parents: ["@ + short_list(parents) + "]"@]
    } else {
        Seq::<Seq<char>>::empty()
    }) + seq![Seq::<char>::empty()] + ancestry_section("Role"@, role_id, "  (role not found)"@, role_nodes) + seq![
        Seq::<char>::empty(),
    ] + ancestry_section("Objective"@, objective_id, "  (objective not found)"@, objective_nodes)
}

fn push_short(out: &mut String, id: &str)
    requires
        shortenable(id@),
    ensures
        final(out)@ == old(out)@ + short_hash_text(id@),
{
    let h = short_hash(id);
    out.append(h);
}

fn push_short_list(out: &mut String, ids: &Vec<String>)
    requires
        all_shortenable(strs(*ids)),
    ensures
        final(out)@ == old(out)@ + short_list(strs(*ids)),
{
    let ghost base = out@;
    let ghost v = strs(*ids);
    let mut k: usize = 0;
    while k < ids.len()
        invariant
            k <= ids@.len(),
            v == strs(*ids),
            all_shortenable(v),
            out@ == base + short_list(v.take(k as int)),
        decreases ids.len() - k,
    {
        assert(v[k as int] == ids@[k as int]@);
        assert(shortenable(v[k as int]));
        assert(v.take(k + 1).drop_last() =~= v.take(k as int));
        if k > 0 {
            out.append(", ");
        }
        push_short(out, ids[k].as_str());
        proof {
            if k == 0 {
                assert(v.take(0) =~= Seq::<Seq<char>>::empty());
                assert(out@ =~= base + short_list(v.take(1)));
            } else {
                assert(out@ =~= base + short_list(v.take(k + 1)));
            }
        }
        k = k + 1;
    }
    assert(v.take(v.len() as int) =~= v);
}

fn push_indentation(out: &mut String, n: u64)
    ensures
        final(out)@ == old(out)@ + indentation(n as nat),
{
    let ghost base = out@;
    let mut k: u64 = 0;
    while k < n
        invariant
            k <= n,
            out@ == base + indentation(k as nat),
        decreases n - k,
    {
        out.append("  ");
        assert(indentation((k + 1) as nat) == indentation(k as nat) + "  "@);
        k = k + 1;
    }
}

fn ancestry_text(n: &AncestryNode) -> (r: String)
    requires
        shortenable(n.id@),
        all_shortenable(strs(n.parent_ids)),
    ensures
        r@ == ancestry_line(n@),
{
    let mut l = String::new();
    proof {
        reveal_strlit("");
    }
    assert(l@ =~= Seq::<char>::empty());
    push_indentation(&mut l, n.generation as u64 + 1);
    push_short(&mut l, n.id.as_str());
    l.append(" (");
    l.append(n.name.as_str());
    l.append(") [");
    if n.generation == 0 {
        l.append("gen 0 (root)");
    } else {
        l.append("gen ");
        push_u64(&mut l, n.generation as u64);
    }
    l.append("] created by: ");
    l.append(n.created_by.as_str());
    if n.parent_ids.len() > 0 {
        l.append(" <- [");
        push_short_list(&mut l, &n.parent_ids);
        l.append("]");
    }
    assert(l@ =~= ancestry_line(n@));
    l
}

fn push_line(lines: &mut Vec<String>, line: String)
    ensures
        strs(*final(lines)) == strs(*old(lines)).push(line@),
{
    let ghost before = strs(*lines);
    lines.push(line);
    assert(strs(*lines) =~= before.push(line@));
}

fn push_ancestry_section(lines: &mut Vec<String>, title: &str, id: &str, missing: &str, nodes: &Vec<AncestryNode>)
    requires
        shortenable(id@),
        nodes_shortenable(views(nodes@)),
    ensures
        strs(*final(lines)) == strs(*old(lines)) + ancestry_section(title@, id@, missing@, views(nodes@)),
{
    let ghost base = strs(*lines);
    let ghost nv = views(nodes@);
    let mut head = title.to_string();
    head.append(" ancestry (");
    push_short(&mut head, id);
    head.append(")");
    push_line(lines, head);
    let ghost b1 = strs(*lines);
    if nodes.len() == 0 {
        push_line(lines, missing.to_string());
    } else {
        let mut k: usize = 0;
        while k < nodes.len()
            invariant
                k <= nodes@.len(),
                nv == views(nodes@),
                nodes_shortenable(nv),
                strs(*lines) == b1 + nv.take(k as int).map_values(|n: AncestryNodeView| ancestry_line(n)),
            decreases nodes.len() - k,
        {
            assert(nv[k as int] == nodes@[k as int]@);
            assert(shortenable(nv[k as int].id) && all_shortenable(nv[k as int].parent_ids));
            let t = ancestry_text(&nodes[k]);
            push_line(lines, t);
            assert(nv.take(k + 1).map_values(|n: AncestryNodeView| ancestry_line(n)) =~= nv.take(k as int).map_values(
                |n: AncestryNodeView| ancestry_line(n),
            ).push(ancestry_line(nv[k as int])));
            k = k + 1;
        }
        assert(nv.take(nv.len() as int) =~= nv);
    }
    assert(strs(*lines) =~= base + ancestry_section(title@, id@, missing@, nv));
}

/// The lines of `wg agent lineage`: the agent, then its role's and its
/// objective's ancestry, as given (each empty when the item was not found).
pub fn agent_lineage_lines(
    agent: &Agent,
    role_ancestry: &Vec<AncestryNode>,
    objective_ancestry: &Vec<AncestryNode>,
) -> (r: Vec<String>)
    requires
        shortenable(agent.id@),
        all_shortenable(agent.lineage@.parent_ids),
        shortenable(agent.role_id@),
        shortenable(agent.motivation_id@),
        nodes_shortenable(views(role_ancestry@)),
        nodes_shortenable(views(objective_ancestry@)),
    ensures
        strs(r) == lineage_lines(
            agent.id@,
            agent.name@,
            agent.lineage.generation,
            agent.lineage.created_by@,
            agent.lineage@.parent_ids,
            agent.role_id@,
            agent.motivation_id@,
            views(role_ancestry@),
            views(objective_ancestry@),
        ),
{
    proof {
        reveal_strlit("");
    }
    let mut lines: Vec<String> = Vec::new();
    let mut l = "Lineage for agent: ".to_string();
    l.append(agent.name.as_str());
    l.append(" (");
    push_short(&mut l, agent.id.as_str());
    l.append(")");
    push_line(&mut lines, l);
    let mut l = "  Generation: ".to_string();
    push_u64(&mut l, agent.lineage.generation as u64);
    push_line(&mut lines, l);
    let mut l = "  Created by: ".to_string();
    l.append(agent.lineage.created_by.as_str());
    push_line(&mut lines, l);
    if agent.lineage.parent_ids.len() > 0 {
        let mut l = "  Parents: [".to_string();
        push_short_list(&mut l, &agent.lineage.parent_ids);
        l.append("]");
        push_line(&mut lines, l);
    }
    push_line(&mut lines, String::new());
    let ghost s1 = strs(lines);
    push_ancestry_section(&mut lines, "Role", agent.role_id.as_str(), "  (role not found)", role_ancestry);
    push_line(&mut lines, String::new());
    push_ancestry_section(
        &mut lines,
        "Objective",
        agent.motivation_id.as_str(),
        "  (objective not found)",
        objective_ancestry,
    );
    assert(""@ =~= Seq::<char>::empty());
    assert(strs(lines) =~= lineage_lines(
        agent.id@,
        agent.name@,
        agent.lineage.generation,
        agent.lineage.created_by@,
        agent.lineage@.parent_ids,
        agent.role_id@,
        agent.motivation_id@,
        views(role_ancestry@),
        views(objective_ancestry@),
    ));
    lines
}

} // verus!
