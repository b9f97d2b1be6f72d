use workgraph::config::{mask_token, update, AgentSettings, Config, ConfigUpdate, CoordinatorSettings, IdentitySettings};

#[test]
fn test_mask_token_short() {
    assert_eq!(mask_token("abc"), "********");
    assert_eq!(mask_token("123456789012"), "********");
}

#[test]
fn test_mask_token_long() {
    assert_eq!(mask_token("abcdefghijklm"), "abcd...jklm");
}

#[test]
fn test_mask_token_unicode_no_panic() {
    // Multi-byte chars should not panic
    assert_eq!(
        mask_token("🎯🎯🎯🎯🎯🎯🎯🎯🎯🎯🎯🎯🎯"),
        "🎯🎯🎯🎯...🎯🎯🎯🎯"
    );
}

fn base_config() -> Config {
    Config {
        agent: AgentSettings { executor: "default".to_string(), model: "m0".to_string(), interval: 10 },
        coordinator: CoordinatorSettings { max_agents: 4, interval: 30, poll_interval: 60, executor: "e0".to_string() },
        identity: IdentitySettings {
            auto_reward: false,
            auto_assign: false,
            assigner_model: None,
            evaluator_model: None,
            evolver_model: None,
            assigner_agent: None,
            evaluator_agent: None,
            evolver_agent: None,
            retention_heuristics: None,
            auto_triage: false,
            triage_model: None,
            triage_timeout: None,
            triage_max_log_bytes: None,
        },
    }
}

fn no_update() -> ConfigUpdate {
    ConfigUpdate {
        executor: None,
        model: None,
        interval: None,
        max_agents: None,
        coordinator_interval: None,
        poll_interval: None,
        coordinator_executor: None,
        auto_reward: None,
        auto_assign: None,
        assigner_model: None,
        evaluator_model: None,
        evolver_model: None,
        assigner_agent: None,
        evaluator_agent: None,
        evolver_agent: None,
        retention_heuristics: None,
        auto_triage: None,
        triage_model: None,
        triage_timeout: None,
        triage_max_log_bytes: None,
    }
}

#[test]
fn test_update() {
    let mut config = base_config();
    let u = ConfigUpdate {
        executor: Some("opencode".to_string()),
        model: Some("gpt-4".to_string()),
        interval: Some(30),
        ..no_update()
    };
    let lines = update(&mut config, &u);
    assert_eq!(config.agent.executor, "opencode");
    assert_eq!(config.agent.model, "gpt-4");
    assert_eq!(config.agent.interval, 30);
    assert_eq!(
        lines,
        vec![
            "Set agent.executor = \"opencode\"",
            "Set agent.model = \"gpt-4\"",
            "Set agent.interval = 30",
            "Configuration saved.",
        ]
    );
}

#[test]
fn test_update_coordinator() {
    let mut config = base_config();
    let u = ConfigUpdate {
        max_agents: Some(8),
        coordinator_interval: Some(60),
        coordinator_executor: Some("shell".to_string()),
        ..no_update()
    };
    update(&mut config, &u);
    assert_eq!(config.coordinator.max_agents, 8);
    assert_eq!(config.coordinator.interval, 60);
    assert_eq!(config.coordinator.executor, "shell");
}

#[test]
fn test_update_poll_interval() {
    let mut config = base_config();
    let u = ConfigUpdate { poll_interval: Some(120), ..no_update() };
    update(&mut config, &u);
    assert_eq!(config.coordinator.poll_interval, 120);
}

#[test]
fn test_update_identity() {
    let mut config = base_config();
    let u = ConfigUpdate {
        auto_reward: Some(true),
        auto_assign: Some(true),
        assigner_model: Some("sonnet".to_string()),
        evaluator_model: Some("haiku".to_string()),
        evolver_model: Some("opus-4-5".to_string()),
        assigner_agent: Some("assigner-hash".to_string()),
        evaluator_agent: Some("evaluator-hash".to_string()),
        evolver_agent: Some("evolver-hash".to_string()),
        retention_heuristics: Some("Retire below 0.3 after 10 evals".to_string()),
        ..no_update()
    };
    update(&mut config, &u);
    assert!(config.identity.auto_reward);
    assert!(config.identity.auto_assign);
    assert_eq!(config.identity.assigner_model, Some("sonnet".to_string()));
    assert_eq!(config.identity.evaluator_model, Some("haiku".to_string()));
    assert_eq!(config.identity.evolver_model, Some("opus-4-5".to_string()));
    assert_eq!(config.identity.assigner_agent, Some("assigner-hash".to_string()));
    assert_eq!(config.identity.evaluator_agent, Some("evaluator-hash".to_string()));
    assert_eq!(config.identity.evolver_agent, Some("evolver-hash".to_string()));
    assert_eq!(config.identity.retention_heuristics, Some("Retire below 0.3 after 10 evals".to_string()));
}

#[test]
fn update_with_nothing_set_changes_nothing() {
    let mut config = base_config();
    let lines = update(&mut config, &no_update());
    assert_eq!(lines, vec!["No changes specified. Use --show to view current config."]);
    assert_eq!(config.agent.executor, "default");
    assert_eq!(config.identity.triage_timeout, None);
}
