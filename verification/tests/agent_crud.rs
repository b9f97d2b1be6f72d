use workgraph::agency::{content_hash, Agent, Lineage};
use workgraph::agent_crud::{agent_create_error_message, agent_lineage_lines, is_shortenable, new_agent_id, AgentCreateError};
use workgraph::lineage::AncestryNode;

#[test]
fn ai_agent_needs_a_role() {
    let r = new_agent_id("bot", "runner", false, None, Some("m1"), None);
    assert_eq!(r, Err(AgentCreateError::RoleRequired));
    assert_eq!(
        agent_create_error_message(AgentCreateError::RoleRequired, "runner"),
        "--role is required for AI agents (executor=runner)"
    );
}

#[test]
fn ai_agent_needs_an_objective() {
    let r = new_agent_id("bot", "runner", false, Some("r1"), None, None);
    assert_eq!(r, Err(AgentCreateError::ObjectiveRequired));
    assert_eq!(
        agent_create_error_message(AgentCreateError::ObjectiveRequired, "shell"),
        "--objective is required for AI agents (executor=shell)"
    );
}

#[test]
fn agent_with_role_and_objective_takes_the_pair_id() {
    let r = new_agent_id("bot", "runner", false, Some("r1"), Some("m1"), Some("pairhash"));
    assert_eq!(r, Ok("pairhash".to_string()));
}

#[test]
fn human_agent_without_role_hashes_name_and_executor() {
    let r = new_agent_id("alice", "matrix", true, None, None, None);
    assert_eq!(r, Ok(content_hash("human-agent:alice:matrix")));
    assert_eq!(r.unwrap().len(), 64);
}

#[test]
fn lineage_lines_show_agent_and_both_ancestries() {
    let agent = Agent {
        id: "abcdef0123456789".to_string(),
        role_id: "role00001111".to_string(),
        motivation_id: "mot000002222".to_string(),
        name: "smith".to_string(),
        lineage: Lineage {
            parent_ids: vec!["parent0011112222".to_string()],
            generation: 1,
            created_by: "evolver-r1".to_string(),
            created_at: "2024-01-01T00:00:00Z".to_string(),
        },
    };
    let role_nodes = vec![
        AncestryNode {
            id: "role00001111".to_string(),
            name: "Child".to_string(),
            generation: 1,
            created_by: "evolver-r1".to_string(),
            created_at: "2024-01-02T00:00:00Z".to_string(),
            parent_ids: vec!["rootrole9999".to_string()],
        },
        AncestryNode {
            id: "rootrole9999".to_string(),
            name: "Root".to_string(),
            generation: 0,
            created_by: "human".to_string(),
            created_at: "2024-01-01T00:00:00Z".to_string(),
            parent_ids: vec![],
        },
    ];
    let lines = agent_lineage_lines(&agent, &role_nodes, &vec![]);
    assert_eq!(
        lines,
        vec![
            "Lineage for agent: smith (abcdef01)",
            "  Generation: 1",
            "  Created by: evolver-r1",
            "  Parents: [parent00]",
            "",
            "Role ancestry (role0000)",
            "    role0000 (Child) [gen 1] created by: evolver-r1 <- [rootrole]",
            "  rootrole (Root) [gen 0 (root)] created by: human",
            "",
            "Objective ancestry (mot00000)",
            "  (objective not found)",
        ]
    );
}

#[test]
fn short_forms_need_a_character_boundary() {
    assert!(is_shortenable("abcdef0123456789"));
    assert!(is_shortenable("short"));
    assert!(!is_shortenable("abcdefg\u{e9}xyz"));
}
