use workgraph::agents::{
    effective_status, filter_agents, is_effectively_alive, is_effectively_dead, summarize, AgentFilter,
    AgentLiveness, AgentStatus,
};

fn agent(status: AgentStatus, process_alive: bool) -> AgentLiveness {
    let registry_alive = matches!(status, AgentStatus::Starting | AgentStatus::Working | AgentStatus::Idle);
    AgentLiveness { status, registry_alive, process_alive }
}

fn setup_with_agents() -> Vec<AgentLiveness> {
    vec![
        agent(AgentStatus::Working, true),
        agent(AgentStatus::Idle, true),
        agent(AgentStatus::Dead, false),
    ]
}

#[test]
fn test_list_alive_only() {
    let agents = setup_with_agents();
    assert_eq!(filter_agents(&agents, Some(AgentFilter::Alive)), vec![0, 1]);
}

#[test]
fn test_list_dead_only() {
    let agents = setup_with_agents();
    assert_eq!(filter_agents(&agents, Some(AgentFilter::Dead)), vec![2]);
}

#[test]
fn test_list_working_only() {
    let agents = setup_with_agents();
    assert_eq!(filter_agents(&agents, Some(AgentFilter::Working)), vec![0]);
}

#[test]
fn test_empty_registry() {
    let agents: Vec<AgentLiveness> = vec![];
    assert!(filter_agents(&agents, None).is_empty());
    assert_eq!(summarize(&agents).total, 0);
}

#[test]
fn test_get_summary() {
    let agents = setup_with_agents();
    let summary = summarize(&agents);
    assert_eq!(summary.total, 3);
    assert!(summary.alive + summary.dead <= summary.total);
    assert_eq!(summary.alive, 2);
    assert_eq!(summary.working, 1);
    assert_eq!(summary.idle, 1);
    assert_eq!(summary.dead, 1);
}

#[test]
fn test_effective_status_dead_process() {
    let a = agent(AgentStatus::Working, false);
    assert_eq!(effective_status(&a), "dead (process exited)");
    assert!(!is_effectively_alive(&a));
    assert!(is_effectively_dead(&a));
}

#[test]
fn test_effective_status_registry_dead() {
    let a = agent(AgentStatus::Dead, true);
    assert_eq!(effective_status(&a), "dead");
    assert!(is_effectively_dead(&a));
}

#[test]
fn test_effective_status_alive_process() {
    let a = agent(AgentStatus::Working, true);
    assert_eq!(effective_status(&a), "working");
    assert!(is_effectively_alive(&a));
    assert!(!is_effectively_dead(&a));
}
