use debate_sim::engine::prune_frontier;
use debate_sim::{
    AttemptLog, Debate, DebateError, DebateOutcome, Registry, Simulation, SimulationResult,
    Topology,
};

/// Drives a whole run, resolving every debate with the same fixed outcome,
/// exactly as the scheduler loop prescribes: build a batch, resolve it,
/// reconcile, and prune when a batch comes back empty.  Returns the final
/// result and how many loop iterations the run took.
fn run_with_fixed_outcome(
    registry: &mut Registry,
    sim: &Simulation,
    outcome: DebateOutcome,
) -> (SimulationResult, usize) {
    let mut attempted = AttemptLog::new();
    let mut frontier = registry.get_infected_agent_ids();
    let mut all_debates: Vec<Debate> = Vec::new();
    let mut iterations: usize = 0;
    while !frontier.is_empty() {
        iterations += 1;
        let batch = sim.build_debate_batch(registry, &frontier, &mut attempted);
        if batch.is_empty() {
            prune_frontier(registry, &mut frontier);
            continue;
        }
        let mut debates = Vec::new();
        for (proposer_id, opposer_id) in batch {
            let mut debate = Debate::new(proposer_id, opposer_id, sim.max_turns);
            debate.set_outcome(outcome);
            debates.push(debate);
        }
        sim.apply_batch_results(registry, debates, &mut frontier, &mut all_debates)
            .unwrap();

        // conservation: the three states partition the agents at every step
        let stats = registry.get_statistics();
        assert_eq!(
            stats.healthy_agents + stats.infected_agents + stats.immune_agents,
            stats.total_agents
        );
    }
    (sim.finalize(registry, all_debates), iterations)
}

fn three_node_fan() -> Registry {
    let mut registry = Registry::new();
    let a0 = registry.create_agent("m".to_string());
    let a1 = registry.create_agent("m".to_string());
    let a2 = registry.create_agent("m".to_string());
    let mut topology = Topology::new();
    topology.add_connection(a0, a1);
    topology.add_connection(a0, a2);
    registry.topology = Some(topology);
    registry.infect_patient_init(a0).unwrap();
    registry
}

#[test]
fn scenario_proposer_always_wins() {
    let mut registry = three_node_fan();
    let sim = Simulation::new("t".to_string(), 2, "judge".to_string()).with_parallelism(4);

    let (result, _) = run_with_fixed_outcome(&mut registry, &sim, DebateOutcome::ProposerWon);

    assert_eq!(result.total_agents, 3);
    assert_eq!(result.infected, 3);
    assert_eq!(result.immune, 0);
    assert_eq!(result.healthy, 0);
    assert_eq!(result.rounds, 2);
    assert_eq!(registry.get_agent(1).unwrap().infected_by, Some(0));
    assert_eq!(registry.get_agent(2).unwrap().infected_by, Some(0));
}

#[test]
fn scenario_opposer_always_wins() {
    let mut registry = three_node_fan();
    let sim = Simulation::new("t".to_string(), 2, "judge".to_string()).with_parallelism(4);

    let (result, _) = run_with_fixed_outcome(&mut registry, &sim, DebateOutcome::OpposerWon);

    assert_eq!(result.infected, 1);
    assert_eq!(result.immune, 2);
    assert_eq!(result.healthy, 0);
    assert_eq!(result.rounds, 2);
    assert!(registry.get_agent(0).unwrap().is_infected());
    assert!(registry.get_agent(1).unwrap().is_immune());
    assert!(registry.get_agent(2).unwrap().is_immune());
}

#[test]
fn scenario_isolated_seed_is_pruned() {
    let mut registry = Registry::new();
    for _ in 0..4 {
        registry.create_agent("m".to_string());
    }
    let mut topology = Topology::new();
    topology.add_connection(0, 1);
    topology.add_connection(0, 2);
    registry.topology = Some(topology);
    // agent 3 has no edges at all
    registry.infect_patient_init(3).unwrap();

    let sim = Simulation::new("t".to_string(), 2, "judge".to_string());
    let (result, iterations) =
        run_with_fixed_outcome(&mut registry, &sim, DebateOutcome::ProposerWon);

    assert_eq!(result.rounds, 0);
    assert_eq!(iterations, 1);
    assert!(registry.get_agent(3).unwrap().is_infected());
    assert_eq!(result.infected, 1);
    assert_eq!(result.healthy, 3);
}

#[test]
fn termination_within_agent_count() {
    // a ring of six agents, seeded at one point, must finish in at most
    // one batch iteration per agent plus the final pruning pass
    let mut registry = Registry::new();
    for _ in 0..6 {
        registry.create_agent("m".to_string());
    }
    let ids: Vec<u32> = (0..6).collect();
    registry.topology = Some(debate_sim::TopologyBuilder::ring(&ids));
    registry.infect_patient_init(0).unwrap();

    let sim = Simulation::new("t".to_string(), 1, "judge".to_string()).with_parallelism(2);
    let (result, iterations) =
        run_with_fixed_outcome(&mut registry, &sim, DebateOutcome::ProposerWon);

    assert_eq!(result.infected, 6);
    assert!(iterations <= 7);
}

#[test]
fn batch_claims_each_opposer_once() {
    let mut registry = Registry::new();
    for _ in 0..4 {
        registry.create_agent("m".to_string());
    }
    let mut topology = Topology::new();
    topology.add_connection(0, 2);
    topology.add_connection(0, 3);
    topology.add_connection(1, 2);
    registry.topology = Some(topology);
    registry.infect_patient_init(0).unwrap();
    registry.infect_patient_init(1).unwrap();

    let sim = Simulation::new("t".to_string(), 2, "judge".to_string()).with_parallelism(10);
    let frontier = registry.get_infected_agent_ids();
    let mut attempted = AttemptLog::new();
    let batch = sim.build_debate_batch(&registry, &frontier, &mut attempted);

    // agent 0 claims both its targets; agent 1 finds 2 already claimed
    assert_eq!(batch, vec![(0, 2), (0, 3)]);
    let mut responders: Vec<u32> = batch.iter().map(|pair| pair.1).collect();
    responders.sort();
    responders.dedup();
    assert_eq!(responders.len(), batch.len());
}

#[test]
fn batch_respects_parallelism_cap() {
    let mut registry = Registry::new();
    for _ in 0..5 {
        registry.create_agent("m".to_string());
    }
    registry.topology = Some(debate_sim::TopologyBuilder::star(0, &[1, 2, 3, 4]));
    registry.infect_patient_init(0).unwrap();

    let sim = Simulation::new("t".to_string(), 2, "judge".to_string()).with_parallelism(2);
    let frontier = registry.get_infected_agent_ids();
    let mut attempted = AttemptLog::new();
    let batch = sim.build_debate_batch(&registry, &frontier, &mut attempted);

    assert_eq!(batch.len(), 2);
}

#[test]
fn attempted_pair_is_never_rebuilt() {
    let mut registry = three_node_fan();
    let sim = Simulation::new("t".to_string(), 2, "judge".to_string());
    let frontier = registry.get_infected_agent_ids();
    let mut attempted = AttemptLog::new();

    let first = sim.build_debate_batch(&registry, &frontier, &mut attempted);
    assert_eq!(first, vec![(0, 1), (0, 2)]);
    assert!(attempted.has_pair(0, 1));
    assert!(attempted.has_pair(0, 2));

    // nothing was reconciled, yet no pair is handed out twice
    let second = sim.build_debate_batch(&registry, &frontier, &mut attempted);
    assert!(second.is_empty());
}

#[test]
fn seeding_twice_is_an_error() {
    let mut registry = Registry::new();
    let a0 = registry.create_agent("m".to_string());

    assert_eq!(registry.infect_patient_init(a0), Ok(()));
    // a second seeding is a no-op error, never a silent overwrite
    assert_eq!(
        registry.infect_patient_init(a0),
        Err(DebateError::NotHealthy(a0))
    );
    assert_eq!(registry.get_agent(a0).unwrap().infected_by, None);
    assert_eq!(registry.infected_count(), 1);

    assert_eq!(
        registry.infect_patient_init(17),
        Err(DebateError::NotFound(17))
    );
}

#[test]
fn immune_agents_never_change_again() {
    let mut registry = Registry::new();
    let a0 = registry.create_agent("m".to_string());
    let a1 = registry.create_agent("m".to_string());
    let mut topology = Topology::new();
    topology.add_connection(a0, a1);
    registry.topology = Some(topology);
    registry.infect_patient_init(a0).unwrap();

    registry
        .apply_debate_outcome(a0, a1, DebateOutcome::OpposerWon)
        .unwrap();
    assert!(registry.get_agent(a1).unwrap().is_immune());

    // a later decisive outcome against the now-immune agent is rejected
    assert_eq!(
        registry.apply_debate_outcome(a0, a1, DebateOutcome::ProposerWon),
        Err(DebateError::NotHealthy(a1))
    );
    assert!(registry.get_agent(a1).unwrap().is_immune());

    // an ongoing outcome is never applied and changes nothing
    assert_eq!(
        registry.apply_debate_outcome(a0, a1, DebateOutcome::Ongoing),
        Ok(())
    );
    assert!(registry.get_agent(a1).unwrap().is_immune());
}

#[test]
fn can_debate_names_the_violated_clause() {
    let mut registry = Registry::new();
    let a0 = registry.create_agent("m".to_string());
    let a1 = registry.create_agent("m".to_string());
    let a2 = registry.create_agent("m".to_string());

    assert_eq!(
        registry.can_debate(9, a1),
        Err(DebateError::NotFound(9))
    );
    assert_eq!(
        registry.can_debate(a0, 9),
        Err(DebateError::NotFound(9))
    );
    assert_eq!(
        registry.can_debate(a0, a1),
        Err(DebateError::NotInfected(a0))
    );

    registry.infect_patient_init(a0).unwrap();
    registry.infect_patient_init(a2).unwrap();
    assert_eq!(
        registry.can_debate(a0, a2),
        Err(DebateError::NotHealthy(a2))
    );
    assert_eq!(registry.can_debate(a0, a1), Err(DebateError::NoTopology));

    registry.topology = Some(Topology::new());
    assert_eq!(
        registry.can_debate(a0, a1),
        Err(DebateError::NotConnected(a0, a1))
    );

    let mut topology = Topology::new();
    topology.add_connection(a0, a1);
    registry.topology = Some(topology);
    assert_eq!(registry.can_debate(a0, a1), Ok(()));
}

#[test]
fn reconciliation_extends_frontier_in_order() {
    let mut registry = Registry::new();
    for _ in 0..4 {
        registry.create_agent("m".to_string());
    }
    let mut topology = Topology::new();
    topology.add_connection(0, 1);
    topology.add_connection(0, 2);
    topology.add_connection(0, 3);
    registry.topology = Some(topology);
    registry.infect_patient_init(0).unwrap();

    let sim = Simulation::new("t".to_string(), 2, "judge".to_string());
    let mut frontier = registry.get_infected_agent_ids();
    let mut all_debates: Vec<Debate> = Vec::new();

    let mut won = Debate::new(0, 1, 2);
    won.set_outcome(DebateOutcome::ProposerWon);
    let mut lost = Debate::new(0, 2, 2);
    lost.set_outcome(DebateOutcome::OpposerWon);

    sim.apply_batch_results(
        &mut registry,
        vec![won, lost],
        &mut frontier,
        &mut all_debates,
    )
    .unwrap();

    // only the newly infected opposer joins the frontier, behind the seeds
    assert_eq!(frontier, vec![0, 1]);
    assert_eq!(all_debates.len(), 2);

    let result = sim.finalize(&registry, all_debates);
    assert_eq!(result.rounds, 2);
    assert_eq!(result.infected, 2);
    assert_eq!(result.immune, 1);
    assert_eq!(result.healthy, 1);
}

#[test]
fn pruning_drops_only_inert_agents() {
    let mut registry = Registry::new();
    for _ in 0..4 {
        registry.create_agent("m".to_string());
    }
    let mut topology = Topology::new();
    topology.add_connection(0, 2);
    registry.topology = Some(topology);
    registry.infect_patient_init(0).unwrap();
    registry.infect_patient_init(1).unwrap();

    let mut frontier = registry.get_infected_agent_ids();
    assert_eq!(frontier, vec![0, 1]);

    // agent 1 has no targets, agent 0 still has one
    prune_frontier(&registry, &mut frontier);
    assert_eq!(frontier, vec![0]);
}
