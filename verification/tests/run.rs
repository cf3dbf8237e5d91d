use debate_sim::{
    ContestResolver, Debate, DebateError, DebateOutcome, Registry, Simulation, Topology,
    TopologyBuilder,
};

/// A deterministic stand-in for the external resolver: every contest ends
/// with the same fixed outcome, and every dispatched pair is recorded.
struct FixedResolver {
    outcome: DebateOutcome,
    calls: Vec<(u32, u32)>,
}

impl FixedResolver {
    fn new(outcome: DebateOutcome) -> Self {
        Self {
            outcome,
            calls: Vec::new(),
        }
    }
}

impl ContestResolver for FixedResolver {
    fn run_contest(
        &mut self,
        proposer_id: u32,
        opposer_id: u32,
        _proposer_model: &str,
        _opposer_model: &str,
        _topic: &str,
        max_turns: usize,
        _judge_model: &str,
    ) -> Debate {
        self.calls.push((proposer_id, opposer_id));
        let mut debate = Debate::new(proposer_id, opposer_id, max_turns);
        debate.set_outcome(self.outcome);
        debate
    }
}

/// A resolver that alternates who wins, call by call.
struct AlternatingResolver {
    flip: bool,
    calls: Vec<(u32, u32)>,
}

impl ContestResolver for AlternatingResolver {
    fn run_contest(
        &mut self,
        proposer_id: u32,
        opposer_id: u32,
        _proposer_model: &str,
        _opposer_model: &str,
        _topic: &str,
        max_turns: usize,
        _judge_model: &str,
    ) -> Debate {
        self.calls.push((proposer_id, opposer_id));
        self.flip = !self.flip;
        let mut debate = Debate::new(proposer_id, opposer_id, max_turns);
        debate.set_outcome(if self.flip {
            DebateOutcome::ProposerWon
        } else {
            DebateOutcome::OpposerWon
        });
        debate
    }
}

/// A resolver that never concludes.
struct IndecisiveResolver;

impl ContestResolver for IndecisiveResolver {
    fn run_contest(
        &mut self,
        proposer_id: u32,
        opposer_id: u32,
        _proposer_model: &str,
        _opposer_model: &str,
        _topic: &str,
        max_turns: usize,
        _judge_model: &str,
    ) -> Debate {
        Debate::new(proposer_id, opposer_id, max_turns)
    }
}

/// A resolver that reports a contest for the wrong pair.
struct ConfusedResolver;

impl ContestResolver for ConfusedResolver {
    fn run_contest(
        &mut self,
        _proposer_id: u32,
        _opposer_id: u32,
        _proposer_model: &str,
        _opposer_model: &str,
        _topic: &str,
        max_turns: usize,
        _judge_model: &str,
    ) -> Debate {
        let mut debate = Debate::new(98, 99, max_turns);
        debate.set_outcome(DebateOutcome::ProposerWon);
        debate
    }
}

fn fan_registry() -> Registry {
    let mut registry = Registry::new();
    for _ in 0..3 {
        registry.create_agent("m".to_string());
    }
    let mut topology = Topology::new();
    topology.add_connection(0, 1);
    topology.add_connection(0, 2);
    registry.topology = Some(topology);
    registry.infect_patient_init(0).unwrap();
    registry
}

fn sim() -> Simulation {
    Simulation::new("t".to_string(), 2, "judge".to_string()).with_parallelism(4)
}

#[test]
fn run_spreads_to_the_whole_fan() {
    let mut registry = fan_registry();
    let mut resolver = FixedResolver::new(DebateOutcome::ProposerWon);

    let result = sim().run(&mut registry, &mut resolver).unwrap();

    assert_eq!(result.total_agents, 3);
    assert_eq!(result.infected, 3);
    assert_eq!(result.immune, 0);
    assert_eq!(result.healthy, 0);
    assert_eq!(result.rounds, 2);
    assert_eq!(resolver.calls, vec![(0, 1), (0, 2)]);
    assert_eq!(registry.get_agent(1).unwrap().infected_by, Some(0));
    assert_eq!(registry.get_agent(2).unwrap().infected_by, Some(0));
}

#[test]
fn run_immunizes_resisting_neighbors() {
    let mut registry = fan_registry();
    let mut resolver = FixedResolver::new(DebateOutcome::OpposerWon);

    let result = sim().run(&mut registry, &mut resolver).unwrap();

    assert_eq!(result.infected, 1);
    assert_eq!(result.immune, 2);
    assert_eq!(result.rounds, 2);
    assert_eq!(registry.get_agent(1).unwrap().infected_by, None);
}

#[test]
fn run_prunes_isolated_seed() {
    let mut registry = Registry::new();
    for _ in 0..4 {
        registry.create_agent("m".to_string());
    }
    let mut topology = Topology::new();
    topology.add_connection(0, 1);
    registry.topology = Some(topology);
    registry.infect_patient_init(3).unwrap();

    let mut resolver = FixedResolver::new(DebateOutcome::ProposerWon);
    let result = sim().run(&mut registry, &mut resolver).unwrap();

    assert_eq!(result.rounds, 0);
    assert!(resolver.calls.is_empty());
    assert!(registry.get_agent(3).unwrap().is_infected());
}

#[test]
fn run_contests_each_pair_at_most_once() {
    let mut registry = Registry::new();
    for _ in 0..5 {
        registry.create_agent("m".to_string());
    }
    let ids: Vec<u32> = (0..5).collect();
    registry.topology = Some(TopologyBuilder::fully_connected(&ids));
    registry.infect_patient_init(0).unwrap();

    let mut resolver = AlternatingResolver {
        flip: false,
        calls: Vec::new(),
    };
    let result = sim().run(&mut registry, &mut resolver).unwrap();

    // every ordered pair was dispatched at most once over the whole run
    let mut seen = resolver.calls.clone();
    seen.sort();
    let before = seen.len();
    seen.dedup();
    assert_eq!(seen.len(), before);

    // and the counts still partition the network
    assert_eq!(
        result.healthy + result.infected + result.immune,
        result.total_agents
    );
}

#[test]
fn run_fails_on_indecisive_resolver() {
    let mut registry = fan_registry();
    let mut resolver = IndecisiveResolver;

    let err = sim().run(&mut registry, &mut resolver).unwrap_err();
    assert_eq!(err, DebateError::UnparseableVerdict);

    // no partial verdict was applied: the seed is still the only non-healthy
    assert_eq!(registry.infected_count(), 1);
    assert_eq!(registry.healthy_count(), 2);
}

#[test]
fn run_fails_on_mismatched_contest() {
    let mut registry = fan_registry();
    let mut resolver = ConfusedResolver;

    let err = sim().run(&mut registry, &mut resolver).unwrap_err();
    assert_eq!(err, DebateError::ResolverFailure);
}
