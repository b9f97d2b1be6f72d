use workgraph::agency::{
    content_hash, find_by_prefix, render_evaluator_prompt, render_identity_prompt, resolve_skill, short_hash,
    AgencyError, EvaluatorInput, Lineage, Motivation, ResolvedSkill, Role, SkillLookup, SkillRef,
};
use workgraph::graph::LogEntry;
use workgraph::lineage::role_ancestry;

const CREATED: &str = "2025-01-01T00:00:00Z";

fn build_role(name: &str, description: &str, skills: Vec<SkillRef>, desired_outcome: &str) -> Role {
    let id = content_hash(&format!("description: {}\ndesired_outcome: {}\nname: {}\n", description, desired_outcome, name));
    Role {
        id,
        name: name.to_string(),
        description: description.to_string(),
        skills,
        desired_outcome: desired_outcome.to_string(),
        lineage: Lineage::manual(CREATED.to_string()),
    }
}

fn build_motivation(name: &str, description: &str, acceptable: Vec<String>, unacceptable: Vec<String>) -> Motivation {
    let id = content_hash(&format!("description: {}\nname: {}\n", description, name));
    Motivation {
        id,
        name: name.to_string(),
        description: description.to_string(),
        acceptable_tradeoffs: acceptable,
        unacceptable_tradeoffs: unacceptable,
        lineage: Lineage::manual(CREATED.to_string()),
    }
}

fn sample_role() -> Role {
    build_role(
        "Implementer",
        "Writes code to fulfil task requirements.",
        vec![SkillRef::Name("rust".into()), SkillRef::Inline("fn main() {}".into())],
        "Working, tested code merged to main.",
    )
}

fn sample_motivation() -> Motivation {
    build_motivation(
        "Quality First",
        "Prioritise correctness and maintainability.",
        vec!["Slower delivery for higher quality".into()],
        vec!["Skipping tests".into()],
    )
}

fn sample_log_entries() -> Vec<LogEntry> {
    vec![
        LogEntry {
            timestamp: "2025-05-01T10:00:00Z".into(),
            actor: Some("agent-1".into()),
            message: "Starting implementation".into(),
        },
        LogEntry { timestamp: "2025-05-01T10:30:00Z".into(), actor: None, message: "Completed core logic".into() },
    ]
}

#[test]
fn resolve_name_returns_name_as_content() {
    let skill = SkillRef::Name("my-skill".to_string());
    match resolve_skill(&skill) {
        SkillLookup::Resolved(Ok(resolved)) => {
            assert_eq!(resolved.name, "my-skill");
            assert_eq!(resolved.content, "my-skill");
        },
        other => panic!("unexpected {:?}", other),
    }
}

#[test]
fn resolve_inline_returns_content_directly() {
    let skill = SkillRef::Inline("do the thing well".to_string());
    match resolve_skill(&skill) {
        SkillLookup::Resolved(Ok(resolved)) => {
            assert_eq!(resolved.name, "inline");
            assert_eq!(resolved.content, "do the thing well");
        },
        other => panic!("unexpected {:?}", other),
    }
}

#[test]
fn resolve_file_and_url_need_outside_work() {
    match resolve_skill(&SkillRef::File("/no/such/file.md".to_string())) {
        SkillLookup::ReadFile(p) => assert_eq!(p, "/no/such/file.md"),
        other => panic!("unexpected {:?}", other),
    }
    match resolve_skill(&SkillRef::Url("https://example.com/s.md".to_string())) {
        SkillLookup::Resolved(Err(m)) => assert!(m.starts_with("Cannot fetch skill URL https://example.com/s.md")),
        other => panic!("unexpected {:?}", other),
    }
}

#[test]
fn test_lineage_default() {
    let lineage = Lineage::manual(CREATED.to_string());
    assert!(lineage.parent_ids.is_empty());
    assert_eq!(lineage.generation, 0);
    assert_eq!(lineage.created_by, "human");
}

#[test]
fn test_lineage_mutation() {
    let lineage = Lineage::mutation("parent-role", 2, "run-42", CREATED.to_string());
    assert_eq!(lineage.parent_ids, vec!["parent-role"]);
    assert_eq!(lineage.generation, 3);
    assert_eq!(lineage.created_by, "evolver-run-42");
}

#[test]
fn test_lineage_crossover() {
    let lineage = Lineage::crossover(&vec!["parent-a".to_string(), "parent-b".to_string()], 5, "run-99", CREATED.to_string());
    assert_eq!(lineage.parent_ids, vec!["parent-a", "parent-b"]);
    assert_eq!(lineage.generation, 6);
    assert_eq!(lineage.created_by, "evolver-run-99");
}

#[test]
fn test_role_ancestry_tree() {
    let grandparent = build_role("Grandparent", "Gen 0", vec![], "Outcome GP");
    let gp_id = grandparent.id.clone();
    let mut parent = build_role("Parent", "Gen 1", vec![], "Outcome P");
    parent.lineage = Lineage::mutation(&gp_id, 0, "run-1", CREATED.to_string());
    let p_id = parent.id.clone();
    let mut child = build_role("Child", "Gen 2", vec![], "Outcome C");
    child.lineage = Lineage::mutation(&p_id, 1, "run-2", CREATED.to_string());
    let c_id = child.id.clone();

    let ancestry = role_ancestry(&c_id, &vec![grandparent, parent, child]);
    assert_eq!(ancestry.len(), 3);
    assert_eq!(ancestry[0].id, c_id);
    assert_eq!(ancestry[0].generation, 2);
    assert_eq!(ancestry[1].id, p_id);
    assert_eq!(ancestry[1].generation, 1);
    assert_eq!(ancestry[2].id, gp_id);
    assert_eq!(ancestry[2].generation, 0);
}

#[test]
fn test_crossover_ancestry() {
    let p1 = build_role("Parent 1", "First parent", vec![], "Outcome P1");
    let p1_id = p1.id.clone();
    let p2 = build_role("Parent 2", "Second parent", vec![], "Outcome P2");
    let p2_id = p2.id.clone();
    let mut child = build_role("Crossover Child", "Child from crossover", vec![], "Outcome XC");
    child.lineage = Lineage::crossover(&vec![p1_id.clone(), p2_id.clone()], 0, "run-x", CREATED.to_string());
    let child_id = child.id.clone();

    let ancestry = role_ancestry(&child_id, &vec![p1, p2, child]);
    assert_eq!(ancestry.len(), 3);
    assert_eq!(ancestry[0].id, child_id);
    let parent_ids: Vec<&str> = ancestry[1..].iter().map(|n| n.id.as_str()).collect();
    assert!(parent_ids.contains(&p1_id.as_str()));
    assert!(parent_ids.contains(&p2_id.as_str()));
}

#[test]
fn test_render_identity_prompt_full() {
    let role = build_role("Implementer", "Writes code to fulfil task requirements.", vec![], "Working, tested code merged to main.");
    let motivation = build_motivation(
        "Quality First",
        "Prioritise correctness and maintainability.",
        vec!["Slower delivery for higher quality".into(), "More verbose code for clarity".into()],
        vec!["Skipping tests".into(), "Ignoring error handling".into()],
    );
    let skills = vec![
        ResolvedSkill { name: "Rust".into(), content: "Write idiomatic Rust code.".into() },
        ResolvedSkill { name: "Testing".into(), content: "Write comprehensive tests.".into() },
    ];

    let output = render_identity_prompt(&role, &motivation, &skills);

    assert!(output.starts_with("## Agent Identity\n"));
    assert!(output.contains("### Role: Implementer\n"));
    assert!(output.contains("Writes code to fulfil task requirements.\n"));
    assert!(output.contains("#### Skills\n"));
    assert!(output.contains("### Rust\nWrite idiomatic Rust code.\n"));
    assert!(output.contains("### Testing\nWrite comprehensive tests.\n"));
    assert!(output.contains("#### Desired Outcome\n"));
    assert!(output.contains("Working, tested code merged to main.\n"));
    assert!(output.contains("### Operational Parameters\n"));
    assert!(output.contains("#### Acceptable Trade-offs\n"));
    assert!(output.contains("- Slower delivery for higher quality\n"));
    assert!(output.contains("- More verbose code for clarity\n"));
    assert!(output.contains("#### Non-negotiable Constraints\n"));
    assert!(output.contains("- Skipping tests\n"));
    assert!(output.contains("- Ignoring error handling\n"));
    assert!(output.ends_with("---"));
}

#[test]
fn test_render_identity_prompt_no_skills() {
    let role = build_role("Auditor", "Audits code for quality.", vec![], "All code audited.");
    let motivation = build_motivation("Fast", "Be fast.", vec!["Less thorough reviews".into()], vec!["Missing security issues".into()]);

    let output = render_identity_prompt(&role, &motivation, &vec![]);

    assert!(!output.contains("#### Skills\n"));
    assert!(output.contains("### Role: Auditor\n"));
    assert!(output.contains("#### Desired Outcome\n"));
    assert!(output.contains("#### Acceptable Trade-offs\n"));
    assert!(output.contains("- Less thorough reviews\n"));
    assert!(output.contains("#### Non-negotiable Constraints\n"));
    assert!(output.contains("- Missing security issues\n"));
}

#[test]
fn test_render_identity_prompt_empty_tradeoffs() {
    let role = build_role("Minimal", "A minimal role.", vec![], "Done.");
    let motivation = build_motivation("Minimal Motivation", "Minimal.", vec![], vec![]);

    let output = render_identity_prompt(&role, &motivation, &vec![]);

    assert!(output.contains("#### Acceptable Trade-offs\n"));
    assert!(output.contains("#### Non-negotiable Constraints\n"));
    assert!(output.ends_with("---"));
}

#[test]
fn test_render_identity_prompt_section_order() {
    let role = sample_role();
    let motivation = sample_motivation();
    let skills = vec![ResolvedSkill { name: "Coding".into(), content: "Write code.".into() }];

    let output = render_identity_prompt(&role, &motivation, &skills);

    let agent_identity_pos = output.find("## Agent Identity").unwrap();
    let role_pos = output.find("### Role:").unwrap();
    let skills_pos = output.find("#### Skills").unwrap();
    let desired_outcome_pos = output.find("#### Desired Outcome").unwrap();
    let operational_pos = output.find("### Operational Parameters").unwrap();
    let acceptable_pos = output.find("#### Acceptable Trade-offs").unwrap();
    let constraints_pos = output.find("#### Non-negotiable Constraints").unwrap();
    let separator_pos = output.find("---").unwrap();

    assert!(agent_identity_pos < role_pos);
    assert!(role_pos < skills_pos);
    assert!(skills_pos < desired_outcome_pos);
    assert!(desired_outcome_pos < operational_pos);
    assert!(operational_pos < acceptable_pos);
    assert!(acceptable_pos < constraints_pos);
    assert!(constraints_pos < separator_pos);
}

#[test]
fn test_render_evaluator_prompt_full() {
    let role = sample_role();
    let motivation = sample_motivation();
    let artifacts = vec!["src/main.rs".to_string(), "tests/test_main.rs".to_string()];
    let log = sample_log_entries();
    let skills = vec!["rust".to_string(), "testing".to_string()];

    let input = EvaluatorInput {
        task_title: "Implement feature X",
        task_description: Some("Build feature X with full test coverage."),
        task_skills: &skills,
        verify: Some("All tests pass and code compiles without warnings."),
        agent: None,
        role: Some(&role),
        motivation: Some(&motivation),
        artifacts: &artifacts,
        log_entries: &log,
        started_at: Some("2025-05-01T10:00:00Z"),
        completed_at: Some("2025-05-01T11:00:00Z"),
    };

    let output = render_evaluator_prompt(&input);

    assert!(output.starts_with("# Evaluator Instructions\n"));
    assert!(output.contains("You are an evaluator"));
    assert!(output.contains("## Task Definition"));
    assert!(output.contains("**Title:** Implement feature X"));
    assert!(output.contains("Build feature X with full test coverage."));
    assert!(output.contains("- rust\n"));
    assert!(output.contains("- testing\n"));
    assert!(output.contains("**Verification Criteria:**"));
    assert!(output.contains("All tests pass and code compiles without warnings."));
    assert!(output.contains("## Agent Identity"));
    assert!(output.contains(&format!("**Role:** Implementer ({})", role.id)));
    assert!(output.contains("**Desired Outcome:** Working, tested code merged to main."));
    assert!(output.contains(&format!("**Motivation:** Quality First ({})", motivation.id)));
    assert!(output.contains("**Acceptable Trade-offs:**"));
    assert!(output.contains("- Slower delivery for higher quality"));
    assert!(output.contains("**Non-negotiable Constraints:**"));
    assert!(output.contains("- Skipping tests"));
    assert!(output.contains("## Task Artifacts"));
    assert!(output.contains("- `src/main.rs`"));
    assert!(output.contains("- `tests/test_main.rs`"));
    assert!(output.contains("## Task Log"));
    assert!(output.contains("(agent-1): Starting implementation"));
    assert!(output.contains("(system): Completed core logic"));
    assert!(output.contains("## Timing"));
    assert!(output.contains("- Started: 2025-05-01T10:00:00Z"));
    assert!(output.contains("- Completed: 2025-05-01T11:00:00Z"));
    assert!(output.contains("## Evaluation Criteria"));
    assert!(output.contains("**correctness**"));
    assert!(output.contains("**completeness**"));
    assert!(output.contains("**efficiency**"));
    assert!(output.contains("**style_adherence**"));
    assert!(output.contains("correctness: 40%"));
    assert!(output.contains("completeness: 30%"));
    assert!(output.contains("efficiency: 15%"));
    assert!(output.contains("## Required Output"));
    assert!(output.contains("\"score\""));
    assert!(output.contains("\"dimensions\""));
    assert!(output.contains("\"notes\""));
}

#[test]
fn test_render_evaluator_prompt_minimal() {
    let input = EvaluatorInput {
        task_title: "Simple task",
        task_description: None,
        task_skills: &[],
        verify: None,
        agent: None,
        role: None,
        motivation: None,
        artifacts: &[],
        log_entries: &[],
        started_at: None,
        completed_at: None,
    };

    let output = render_evaluator_prompt(&input);

    assert!(output.contains("**Title:** Simple task"));
    assert!(!output.contains("**Description:**"));
    assert!(!output.contains("**Required Skills:**"));
    assert!(!output.contains("**Verification Criteria:**"));
    assert!(output.contains("*No role was assigned.*"));
    assert!(output.contains("*No motivation was assigned.*"));
    assert!(output.contains("*No artifacts were recorded.*"));
    assert!(output.contains("*No log entries.*"));
    assert!(!output.contains("## Timing"));
    assert!(output.contains("## Evaluation Criteria"));
    assert!(output.contains("## Required Output"));
}

#[test]
fn test_render_evaluator_prompt_section_order() {
    let role = sample_role();
    let motivation = sample_motivation();
    let log = sample_log_entries();
    let skills = vec!["rust".to_string()];
    let artifacts = vec!["file.rs".to_string()];

    let input = EvaluatorInput {
        task_title: "Test order",
        task_description: Some("desc"),
        task_skills: &skills,
        verify: Some("verify"),
        agent: None,
        role: Some(&role),
        motivation: Some(&motivation),
        artifacts: &artifacts,
        log_entries: &log,
        started_at: Some("2025-01-01T00:00:00Z"),
        completed_at: Some("2025-01-01T01:00:00Z"),
    };

    let output = render_evaluator_prompt(&input);

    let instructions_pos = output.find("# Evaluator Instructions").unwrap();
    let task_def_pos = output.find("## Task Definition").unwrap();
    let identity_pos = output.find("## Agent Identity").unwrap();
    let artifacts_pos = output.find("## Task Artifacts").unwrap();
    let log_pos = output.find("## Task Log").unwrap();
    let timing_pos = output.find("## Timing").unwrap();
    let criteria_pos = output.find("## Evaluation Criteria").unwrap();
    let required_pos = output.find("## Required Output").unwrap();

    assert!(instructions_pos < task_def_pos);
    assert!(task_def_pos < identity_pos);
    assert!(identity_pos < artifacts_pos);
    assert!(artifacts_pos < log_pos);
    assert!(log_pos < timing_pos);
    assert!(timing_pos < criteria_pos);
    assert!(criteria_pos < required_pos);
}

#[test]
fn content_hash_is_hex_sha256() {
    assert_eq!(content_hash(""), "e3b0c44298fc1c149afbf4c8996fb92427ae41e4649b934ca495991b7852b855");
    assert_eq!(content_hash("abc"), "ba7816bf8f01cfea414140de5dae2223b00361a396177a9cb410ff61f20015ad");
    assert_eq!(short_hash("ba7816bf8f01cfea"), "ba7816bf");
    assert_eq!(short_hash("abc"), "abc");
}

#[test]
fn prefix_lookup_outcomes() {
    let ids = vec!["abc123".to_string(), "abd456".to_string(), "xyz".to_string()];
    assert_eq!(find_by_prefix(&ids, "abc", "role").ok(), Some(0));
    assert_eq!(find_by_prefix(&ids, "xyz", "role").ok(), Some(2));
    match find_by_prefix(&ids, "ab", "role") {
        Err(AgencyError::Ambiguous(m)) => assert_eq!(m, "Prefix 'ab' matches 2 roles: abc123, abd456"),
        other => panic!("unexpected {:?}", other),
    }
    match find_by_prefix(&ids, "q", "motivation") {
        Err(AgencyError::NotFound(m)) => assert_eq!(m, "No motivation matching 'q'"),
        other => panic!("unexpected {:?}", other),
    }
}

#[test]
fn seed_starters_writes_only_missing() {
    let (roles, motivations) = workgraph::agency::seed_starters(&vec![true, false, false, true], &vec![false, true]);
    assert_eq!(roles, vec![1, 2]);
    assert_eq!(motivations, vec![0]);
    let (roles, motivations) = workgraph::agency::seed_starters(&vec![true, true], &vec![]);
    assert!(roles.is_empty());
    assert!(motivations.is_empty());
}
