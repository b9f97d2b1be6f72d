use workgraph::agency::{AgentIdentity, Lineage, Motivation, Role};
use workgraph::stats::{find_underexplored, str_lt};

fn role(id: &str, name: &str) -> Role {
    Role {
        id: id.to_string(),
        name: name.to_string(),
        description: String::new(),
        skills: vec![],
        desired_outcome: String::new(),
        lineage: Lineage::manual("2024-01-01T00:00:00Z".to_string()),
    }
}

fn motivation(id: &str, name: &str) -> Motivation {
    Motivation {
        id: id.to_string(),
        name: name.to_string(),
        description: String::new(),
        acceptable_tradeoffs: vec![],
        unacceptable_tradeoffs: vec![],
        lineage: Lineage::manual("2024-01-01T00:00:00Z".to_string()),
    }
}

fn eval(role_id: &str, motivation_id: &str) -> AgentIdentity {
    AgentIdentity { role_id: role_id.to_string(), motivation_id: motivation_id.to_string() }
}

#[test]
fn test_find_underexplored() {
    let roles = vec![role("r1", "Role 1")];
    let motivations = vec![motivation("m1", "Mot 1")];
    let under = find_underexplored(&roles, &motivations, &vec![], 3);
    assert_eq!(under.len(), 1);
    assert_eq!(under[0], ("r1".to_string(), "m1".to_string(), 0));
}

#[test]
fn underexplored_orders_by_count_then_ids() {
    let roles = vec![role("rb", "B"), role("ra", "A")];
    let motivations = vec![motivation("m2", "Two"), motivation("m1", "One")];
    let evals = vec![eval("rb", "m2"), eval("ra", "m1"), eval("ra", "m1"), eval("rb", "m1")];
    let under = find_underexplored(&roles, &motivations, &evals, 2);
    assert_eq!(
        under,
        vec![
            ("ra".to_string(), "m2".to_string(), 0),
            ("rb".to_string(), "m1".to_string(), 1),
            ("rb".to_string(), "m2".to_string(), 1),
        ]
    );
}

#[test]
fn underexplored_with_zero_minimum_is_empty() {
    let roles = vec![role("r1", "Role 1")];
    let motivations = vec![motivation("m1", "Mot 1")];
    assert!(find_underexplored(&roles, &motivations, &vec![], 0).is_empty());
}

#[test]
fn text_order_is_lexicographic() {
    assert!(str_lt("abc", "abd"));
    assert!(str_lt("ab", "abc"));
    assert!(!str_lt("abc", "ab"));
    assert!(!str_lt("same", "same"));
    assert!(str_lt("", "a"));
}
