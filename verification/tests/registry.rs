use debate_sim::{DebateOutcome, Registry, Topology};

#[test]
fn test_registry_creation() {
    let registry = Registry::default();
    assert_eq!(registry.agent_count(), 0);
    assert_eq!(registry.infected_count(), 0);
}

#[test]
fn test_create_agent() {
    let mut registry = Registry::default();
    let agent = registry.create_agent("model".to_string());

    assert_eq!(registry.agent_count(), 1);
    assert!(registry.get_agent(agent).is_some());

    let agent2 = registry.create_agent("model".to_string());

    assert_eq!(registry.agent_count(), 2);
    assert!(registry.get_agent(agent2).is_some());
}

#[test]
fn test_patient_init() {
    let mut registry = Registry::default();
    let agent = registry.create_agent("model".to_string());

    registry.infect_patient_init(agent).unwrap();

    assert_eq!(registry.infected_count(), 1);
    assert_eq!(registry.healthy_count(), 0);
}

#[test]
fn test_apply_debate_outcome_infection() {
    let mut registry = Registry::default();
    let agent_a = registry.create_agent("model".to_string());
    let agent_b = registry.create_agent("model".to_string());

    // add topology
    let mut topology = Topology::new();
    topology.add_connection(agent_a, agent_b);
    registry.topology = Some(topology);

    registry.infect_patient_init(agent_a).unwrap();

    registry
        .apply_debate_outcome(agent_a, agent_b, DebateOutcome::ProposerWon)
        .unwrap();

    assert!(registry.get_agent(agent_b).unwrap().is_infected());
    assert_eq!(
        registry.get_agent(agent_b).unwrap().infected_by,
        Some(agent_a)
    );
}

#[test]
fn test_apply_debate_outcome_immunity() {
    let mut registry = Registry::default();
    let agent_a = registry.create_agent("model".to_string());
    let agent_b = registry.create_agent("model".to_string());

    // add topology
    let mut topology = Topology::new();
    topology.add_connection(agent_a, agent_b);
    registry.topology = Some(topology);

    registry.infect_patient_init(agent_a).unwrap();

    registry
        .apply_debate_outcome(agent_a, agent_b, DebateOutcome::OpposerWon)
        .unwrap();

    assert!(registry.get_agent(agent_b).unwrap().is_immune());
}

#[test]
fn test_can_debate_validation() {
    let mut registry = Registry::default();
    let agent_a = registry.create_agent("model".to_string());
    let agent_b = registry.create_agent("model".to_string());

    // add topology
    let mut topology = Topology::new();
    topology.add_connection(agent_a, agent_b);
    registry.topology = Some(topology);

    // Should fail - proposer not infected
    assert!(registry.can_debate(agent_a, agent_b).is_err());

    registry.infect_patient_init(agent_a).unwrap();

    // Should succeed
    assert!(registry.can_debate(agent_a, agent_b).is_ok());
}

#[test]
fn test_can_debate_not_connected() {
    let mut registry = Registry::default();
    let agent_a = registry.create_agent("model".to_string());
    let agent_b = registry.create_agent("model".to_string());

    registry.infect_patient_init(agent_a).unwrap();

    // Should fail - not connected
    assert!(registry.can_debate(agent_a, agent_b).is_err());
}

#[test]
fn test_get_potential_targets() {
    let mut registry = Registry::default();
    let agent_a = registry.create_agent("model".to_string());
    let agent_b = registry.create_agent("model".to_string());
    let agent_c = registry.create_agent("model".to_string());

    // add topology
    let mut topology = Topology::new();
    topology.add_connection(agent_a, agent_b);
    topology.add_connection(agent_a, agent_c);
    registry.topology = Some(topology);

    registry.infect_patient_init(agent_a).unwrap();

    let targets = registry.get_potential_targets(agent_a);
    assert_eq!(targets.len(), 2);
    assert!(targets.contains(&agent_b));
    assert!(targets.contains(&agent_c));
}

#[test]
fn test_statistics() {
    let mut registry = Registry::default();
    let agent_a = registry.create_agent("model".to_string());
    let _agent_b = registry.create_agent("model".to_string());
    let _agent_c = registry.create_agent("model".to_string());

    registry.infect_patient_init(agent_a).unwrap();

    let stats = registry.get_statistics();
    assert_eq!(stats.total_agents, 3);
    assert_eq!(stats.infected_agents, 1);
    assert_eq!(stats.healthy_agents, 2);
    assert_eq!(stats.immune_agents, 0);
}
