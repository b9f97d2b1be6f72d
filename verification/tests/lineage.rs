use workgraph::agency::{Lineage, Role};
use workgraph::lineage::{ancestry, role_ancestry, AncestryNode};

fn node(id: &str, parents: &[&str]) -> AncestryNode {
    AncestryNode {
        id: id.to_string(),
        name: id.to_uppercase(),
        generation: parents.len() as u32,
        created_by: "human".to_string(),
        created_at: "2024-01-01T00:00:00Z".to_string(),
        parent_ids: parents.iter().map(|p| p.to_string()).collect(),
    }
}

fn ids(v: &[AncestryNode]) -> Vec<String> {
    v.iter().map(|n| n.id.clone()).collect()
}

#[test]
fn ancestry_walks_parents_once() {
    let items = vec![node("a", &[]), node("b", &["a"]), node("c", &["a", "b"]), node("d", &["c"])];
    let r = ancestry(&items, "d");
    assert_eq!(ids(&r), vec!["d", "c", "b", "a"]);
}

#[test]
fn ancestry_of_unknown_is_empty() {
    let items = vec![node("a", &[])];
    assert!(ancestry(&items, "zzz").is_empty());
}

#[test]
fn ancestry_skips_unknown_parents() {
    let items = vec![node("x", &["gone", "y"]), node("y", &[])];
    let r = ancestry(&items, "x");
    assert_eq!(ids(&r), vec!["x", "y"]);
}

#[test]
fn role_ancestry_follows_mutation() {
    let parent = Role {
        id: "p1".to_string(),
        name: "Parent".to_string(),
        description: "d".to_string(),
        skills: vec![],
        desired_outcome: "o".to_string(),
        lineage: Lineage::manual("2024-01-01T00:00:00Z".to_string()),
    };
    let child = Role {
        id: "c1".to_string(),
        name: "Child".to_string(),
        description: "d".to_string(),
        skills: vec![],
        desired_outcome: "o".to_string(),
        lineage: Lineage::mutation("p1", 0, "run1", "2024-01-02T00:00:00Z".to_string()),
    };
    let r = role_ancestry("c1", &vec![parent, child]);
    assert_eq!(r.len(), 2);
    assert_eq!(r[0].id, "c1");
    assert_eq!(r[0].generation, 1);
    assert_eq!(r[0].created_by, "evolver-run1");
    assert_eq!(r[1].id, "p1");
    assert_eq!(r[1].generation, 0);
}
