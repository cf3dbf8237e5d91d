//! The propagation scheduler.
//!
//! A run repeats four steps: build a conflict-free batch of debates from the
//! frontier of infected agents (claiming each opposer at most once and never
//! repeating an attempted ordered pair), dispatch the batch to the external
//! resolver, reconcile the concluded debates into the registry, and prune
//! the frontier when no batch could be built.  `Simulation::run` performs
//! the whole loop against any `ContestResolver`; a driver that dispatches
//! batches concurrently sits outside the verified core, but every decision
//! it takes comes from the same functions.
//!
//! Termination: every applied batch moves each of its (distinct, healthy)
//! opposers out of the healthy state, so the healthy count strictly drops;
//! and once a batch comes back empty, `lemma_empty_batch_inert_frontier`
//! shows the following `prune_frontier` pass empties the frontier.  A run
//! therefore performs at most one non-empty batch per agent.

use vstd::prelude::*;

use crate::agent::{Agent, InfectionStatus};
use crate::debate::{Debate, DebateOutcome};
use crate::errors::DebateError;
use crate::registry::{Registry, RegistryStatistics};
use crate::vecs::{contains_pair, contains_u32};

verus! {

broadcast use vstd::seq_lib::group_seq_properties;

/// How many of `debates` concluded with `outcome`.
pub closed spec fn count_outcome(debates: Seq<Debate>, outcome: DebateOutcome) -> nat
    decreases debates.len(),
{
    if debates.len() == 0 {
        0
    } else {
        count_outcome(debates.drop_last(), outcome) + (if debates.last().outcome == outcome {
            1nat
        } else {
            0nat
        })
    }
}

/// The de-duplication log of one run: every ordered (proposer, opposer) pair
/// that was ever put into a batch, each at most once.  It is owned by the
/// coordinating flow and written only during batch construction.
pub struct AttemptLog {
    pairs: Vec<(u32, u32)>,
}

impl AttemptLog {
    /// The logged pairs, in the order they were claimed.
    pub closed spec fn pairs_seq(self) -> Seq<(u32, u32)> {
        self.pairs@
    }

    /// Whether the ordered pair was already attempted this run.
    pub open spec fn spec_contains(self, pair: (u32, u32)) -> bool {
        self.pairs_seq().contains(pair)
    }

    /// No pair is logged twice.
    pub open spec fn wf(self) -> bool {
        forall|j: int, k: int|
            0 <= j < k < self.pairs_seq().len() ==> self.pairs_seq()[j] != self.pairs_seq()[k]
    }

    /// An empty log: no pair attempted yet.
    pub fn new() -> (r: Self)
        ensures
            r.wf(),
            r.pairs_seq() == Seq::<(u32, u32)>::empty(),
    {
        Self { pairs: Vec::new() }
    }

    /// Whether the ordered pair was already attempted this run.
    pub fn has_pair(&self, proposer_id: u32, opposer_id: u32) -> (r: bool)
        ensures
            r == self.spec_contains((proposer_id, opposer_id)),
    {
        contains_pair(&self.pairs, proposer_id, opposer_id)
    }

    /// Logs a fresh pair.
    fn push_pair(&mut self, proposer_id: u32, opposer_id: u32)
        requires
            old(self).wf(),
            !old(self).spec_contains((proposer_id, opposer_id)),
        ensures
            final(self).wf(),
            final(self).pairs_seq() == old(self).pairs_seq().push((proposer_id, opposer_id)),
    {
        let ghost p0 = self.pairs@;
        self.pairs.push((proposer_id, opposer_id));
        proof {
            assert forall|j: int, k: int|
                0 <= j < k < self.pairs@.len() implies self.pairs@[j] != self.pairs@[k] by {
                if k == self.pairs@.len() - 1 {
                    if self.pairs@[j] == (proposer_id, opposer_id) {
                        assert(p0[j] == (proposer_id, opposer_id));
                        assert(p0.contains((proposer_id, opposer_id)));
                    }
                }
            }
        }
    }
}

/// Whether `id` is the opposer of one of the first `upto` debates.
pub open spec fn is_opposer_in(debates: Seq<Debate>, upto: int, id: u32) -> bool {
    exists|k: int| 0 <= k < upto && (#[trigger] debates[k]).opposer_id == id
}

/// The frontier after reconciling the first `n` debates: each newly infected
/// opposer is appended in reconciliation order, unless already present, so
/// seeds keep their place and activation order decides the rest.
pub open spec fn spec_reconciled_frontier(frontier: Seq<u32>, debates: Seq<Debate>, n: int)
    -> Seq<u32>
    decreases n,
{
    if n <= 0 {
        frontier
    } else {
        let prev = spec_reconciled_frontier(frontier, debates, n - 1);
        if debates[n - 1].outcome == DebateOutcome::ProposerWon && !prev.contains(
            debates[n - 1].opposer_id,
        ) {
            prev.push(debates[n - 1].opposer_id)
        } else {
            prev
        }
    }
}

/// What reconciliation relies on: every debate in the batch has a registered,
/// still-healthy opposer, no opposer appears twice, and every outcome is
/// decisive.  Batch construction and responder-disjointness guarantee this.
pub open spec fn batch_applicable(registry: Registry, debates: Seq<Debate>) -> bool {
    &&& forall|k: int|
        0 <= k < debates.len() ==> registry.has_agent((#[trigger] debates[k]).opposer_id)
            && registry.spec_status(debates[k].opposer_id) == InfectionStatus::Healthy
            && debates[k].outcome != DebateOutcome::Ongoing
    &&& forall|j: int, k: int|
        0 <= j < k < debates.len() ==> debates[j].opposer_id != debates[k].opposer_id
}

/// The run invariant of the de-duplication log: the opposer of every
/// attempted pair has left the healthy state (reconciliation put it there),
/// so an attempted pair can never become eligible again.
pub open spec fn attempted_opposers_settled(registry: Registry, attempted: AttemptLog) -> bool {
    forall|k: int|
        0 <= k < attempted.pairs_seq().len() ==> !(registry.has_agent(
            (#[trigger] attempted.pairs_seq()[k]).1,
        ) && registry.spec_status(attempted.pairs_seq()[k].1) == InfectionStatus::Healthy)
}

/// The external contest-resolver capability: runs one full debate between
/// the two named agents and hands the finished record back.
///
/// Implementations are external collaborators — an LLM pipeline, or a
/// deterministic fake in tests — so nothing is promised about the record
/// they return.  The engine checks it instead of trusting it: the ids must
/// name the dispatched pair and the outcome must be decisive, otherwise the
/// run aborts.
pub trait ContestResolver {
    fn run_contest(
        &mut self,
        proposer_id: u32,
        opposer_id: u32,
        proposer_model: &str,
        opposer_model: &str,
        topic: &str,
        max_turns: usize,
        judge_model: &str,
    ) -> Debate;
}

/// Final tallies of a run, plus the ordered log of every resolved debate.
#[derive(Debug)]
pub struct SimulationResult {
    /// How many debates were resolved over the whole run.
    pub rounds: usize,
    pub total_agents: usize,
    pub infected: usize,
    pub healthy: usize,
    pub immune: usize,
    pub debates: Vec<Debate>,
}

/// Configuration of one run: the debate topic, the rounds per debate, the
/// judge's model tag, and the concurrency cap on each batch.
pub struct Simulation {
    pub topic: String,
    pub max_turns: usize,
    pub judge_model: String,
    pub max_parallel_debates: usize,
}

impl Simulation {
    /// A run configuration with the default concurrency cap of four.
    pub fn new(topic: String, max_turns: usize, judge_model: String) -> (s: Self)
        ensures
            s.topic == topic,
            s.max_turns == max_turns,
            s.judge_model == judge_model,
            s.max_parallel_debates == 4,
    {
        Self { topic, max_turns, judge_model, max_parallel_debates: 4 }
    }

    /// The same configuration with the concurrency cap replaced.
    pub fn with_parallelism(self, max_parallel: usize) -> (s: Self)
        ensures
            s.topic == self.topic,
            s.max_turns == self.max_turns,
            s.judge_model == self.judge_model,
            s.max_parallel_debates == max_parallel,
    {
        Self { max_parallel_debates: max_parallel, ..self }
    }

    /// Runs the whole propagation to completion against `resolver`: build a
    /// batch, resolve every pair in it, reconcile, and prune the frontier
    /// whenever no batch can be built; the run ends when the frontier is
    /// empty.  (The asynchronous driver dispatches each batch concurrently
    /// instead; every decision it takes comes from the same functions this
    /// loop calls.)
    ///
    /// Termination is machine-checked: every applied batch strictly shrinks
    /// the healthy count, and an empty batch empties the frontier, so the
    /// loop measure (healthy count, frontier length) strictly decreases.
    ///
    /// The run fails only when the resolver misbehaves: a record naming the
    /// wrong pair aborts with `ResolverFailure`, a record without a decisive
    /// outcome with `UnparseableVerdict`.  Progress reconciled before such a
    /// failure is preserved in the registry.  When no infected agent has a
    /// potential target to begin with, no contest is ever dispatched and the
    /// run must succeed.  Every reconciled debate consumed one healthy
    /// agent, so a successful run resolves at most as many debates as there
    /// were healthy agents — the at-most-one-contest-per-agent bound.
    pub fn run<R: ContestResolver>(&self, registry: &mut Registry, resolver: &mut R) -> (r:
        Result<SimulationResult, DebateError>)
        requires
            old(registry).wf(),
        ensures
            final(registry).wf(),
            final(registry).agents_seq().len() == old(registry).agents_seq().len(),
            final(registry).spec_topology() == old(registry).spec_topology(),
            forall|id: u32|
                #![trigger final(registry).spec_status(id)]
                old(registry).has_agent(id) && old(registry).spec_status(id)
                    == InfectionStatus::Infected ==> final(registry).spec_status(id)
                    == InfectionStatus::Infected,
            forall|id: u32|
                #![trigger final(registry).spec_status(id)]
                old(registry).has_agent(id) && old(registry).spec_status(id)
                    == InfectionStatus::Immune ==> final(registry).spec_status(id)
                    == InfectionStatus::Immune,
            r matches Ok(res) ==> res.total_agents == final(registry).agents_seq().len()
                && res.healthy == final(registry).spec_count(InfectionStatus::Healthy)
                && res.infected == final(registry).spec_count(InfectionStatus::Infected)
                && res.immune == final(registry).spec_count(InfectionStatus::Immune)
                && res.total_agents == res.healthy + res.infected + res.immune && res.rounds
                == res.debates@.len(),
            r matches Ok(res) ==> forall|k: int|
                0 <= k < res.debates@.len() ==> (#[trigger] res.debates@[k]).outcome
                    != DebateOutcome::Ongoing,
            r matches Ok(res) ==> res.rounds + final(registry).spec_count(
                InfectionStatus::Healthy,
            ) == old(registry).spec_count(InfectionStatus::Healthy),
            r matches Ok(res) ==> res.debates@.len() <= old(registry).spec_count(
                InfectionStatus::Healthy,
            ),
            (forall|id: u32|
                #![trigger old(registry).spec_status(id)]
                old(registry).has_agent(id) && old(registry).spec_status(id)
                    == InfectionStatus::Infected ==> !old(registry).spec_has_target(id)) ==> r
                is Ok,
            r matches Err(e) ==> (e == DebateError::ResolverFailure || e
                == DebateError::UnparseableVerdict),
    {
        let ghost inert_seeds: bool = forall|id: u32|
            #![trigger old(registry).spec_status(id)]
            old(registry).has_agent(id) && old(registry).spec_status(id)
                == InfectionStatus::Infected ==> !old(registry).spec_has_target(id);
        let mut attempted = AttemptLog::new();
        let mut frontier = registry.get_infected_agent_ids();
        let mut all_debates: Vec<Debate> = Vec::new();

        #[verifier::loop_isolation(false)]
        while frontier.len() > 0
            invariant
                registry.wf(),
                registry.agents_seq().len() == old(registry).agents_seq().len(),
                registry.spec_topology() == old(registry).spec_topology(),
                attempted.wf(),
                attempted_opposers_settled(*registry, attempted),
                inert_seeds ==> registry.agents_seq() == old(registry).agents_seq(),
                all_debates@.len() + registry.spec_count(InfectionStatus::Healthy) == old(
                    registry,
                ).spec_count(InfectionStatus::Healthy),
                forall|k: int|
                    0 <= k < all_debates@.len() ==> (#[trigger] all_debates@[k]).outcome
                        != DebateOutcome::Ongoing,
                forall|j: int, k: int|
                    0 <= j < k < frontier@.len() ==> frontier@[j] != frontier@[k],
                forall|x: u32| #![trigger frontier@.contains(x)]
                    frontier@.contains(x) ==> registry.has_agent(x) && registry.spec_status(x)
                        == InfectionStatus::Infected,
                forall|id: u32|
                    #![trigger registry.spec_status(id)]
                    old(registry).has_agent(id) && old(registry).spec_status(id)
                        == InfectionStatus::Infected ==> registry.spec_status(id)
                        == InfectionStatus::Infected,
                forall|id: u32|
                    #![trigger registry.spec_status(id)]
                    old(registry).has_agent(id) && old(registry).spec_status(id)
                        == InfectionStatus::Immune ==> registry.spec_status(id)
                        == InfectionStatus::Immune,
            decreases registry.spec_count(InfectionStatus::Healthy), frontier@.len(),
        {
            let ghost att0 = attempted;
            proof {
                assert forall|j: int|
                    0 <= j < frontier@.len() implies registry.has_agent(#[trigger] frontier@[j])
                    && registry.spec_status(frontier@[j]) == InfectionStatus::Infected by {
                    assert(frontier@.contains(frontier@[j]));
                }
            }
            let batch = self.build_debate_batch(registry, &frontier, &mut attempted);

            if batch.len() == 0 {
                proof {
                    assert(attempted.pairs_seq() =~= att0.pairs_seq());
                    lemma_empty_batch_inert_frontier(*registry, frontier@, attempted);
                }
                prune_frontier(registry, &mut frontier);
                assert(frontier@.len() == 0);
            } else {
                proof {
                    // no contest can be dispatched when no infected agent had
                    // a target at entry: a non-empty batch refutes that
                    if inert_seeds {
                        assert(frontier@.contains(batch@[0].0));
                        assert(registry.spec_status(batch@[0].0) == InfectionStatus::Infected);
                        assert(registry.spec_potential_target(batch@[0].0, batch@[0].1));
                        assert(old(registry).spec_status(batch@[0].0)
                            == InfectionStatus::Infected);
                        assert(old(registry).spec_potential_target(batch@[0].0, batch@[0].1));
                        assert(old(registry).spec_has_target(batch@[0].0));
                        assert(false);
                    }
                }
                let mut debates: Vec<Debate> = Vec::new();
                let mut k: usize = 0;
                #[verifier::loop_isolation(false)]
                while k < batch.len()
                    invariant
                        k <= batch@.len(),
                        debates@.len() == k,
                        forall|m: int|
                            #![trigger debates@[m]]
                            0 <= m < k ==> debates@[m].proposer_id == batch@[m].0
                                && debates@[m].opposer_id == batch@[m].1 && debates@[m].outcome
                                != DebateOutcome::Ongoing,
                    decreases batch@.len() - k,
                {
                    let pair = batch[k];
                    proof {
                        assert(frontier@.contains(batch@[k as int].0));
                        assert(registry.spec_potential_target(
                            batch@[k as int].0,
                            batch@[k as int].1,
                        ));
                    }
                    let proposer = match registry.get_agent(pair.0) {
                        Some(a) => a,
                        None => {
                            proof {
                                assert(false);
                            }
                            return Err(DebateError::ResolverFailure);
                        },
                    };
                    let opposer = match registry.get_agent(pair.1) {
                        Some(a) => a,
                        None => {
                            proof {
                                assert(false);
                            }
                            return Err(DebateError::ResolverFailure);
                        },
                    };
                    let debate = resolver.run_contest(
                        pair.0,
                        pair.1,
                        proposer.model.as_str(),
                        opposer.model.as_str(),
                        self.topic.as_str(),
                        self.max_turns,
                        self.judge_model.as_str(),
                    );
                    if debate.proposer_id != pair.0 || debate.opposer_id != pair.1 {
                        return Err(DebateError::ResolverFailure);
                    }
                    if debate.outcome == DebateOutcome::Ongoing {
                        return Err(DebateError::UnparseableVerdict);
                    }
                    debates.push(debate);
                    k = k + 1;
                }

                proof {
                    assert(batch_applicable(*registry, debates@)) by {
                        assert forall|m: int|
                            0 <= m < debates@.len() implies registry.has_agent(
                            (#[trigger] debates@[m]).opposer_id,
                        ) && registry.spec_status(debates@[m].opposer_id)
                            == InfectionStatus::Healthy && debates@[m].outcome
                            != DebateOutcome::Ongoing by {
                            assert(registry.spec_potential_target(batch@[m].0, batch@[m].1));
                        }
                        assert forall|j: int, m: int|
                            0 <= j < m < debates@.len() implies debates@[j].opposer_id
                            != debates@[m].opposer_id by {
                            assert(batch@[j].1 != batch@[m].1);
                        }
                    }
                }
                let ghost debates_view = debates@;
                let ghost reg_before_apply = *registry;
                let ghost frontier_pre = frontier@;
                let ghost all0 = all_debates@;
                let res = self.apply_batch_results(registry, debates, &mut frontier,
                    &mut all_debates);
                match res {
                    Ok(_) => {},
                    Err(e) => {
                        proof {
                            assert(false);
                        }
                        return Err(e);
                    },
                }
                proof {
                    assert forall|m: int|
                        #![trigger debates_view[m]]
                        0 <= m < debates_view.len() implies registry.has_agent(
                        debates_view[m].opposer_id,
                    ) && registry.spec_status(debates_view[m].opposer_id)
                        != InfectionStatus::Healthy by {
                        assert(registry.spec_agent(debates_view[m].opposer_id) == (
                        if debates_view[m].outcome == DebateOutcome::ProposerWon {
                            (Agent {
                                infection_status: InfectionStatus::Infected,
                                infected_by: Some(debates_view[m].proposer_id),
                                ..reg_before_apply.spec_agent(debates_view[m].opposer_id)
                            })
                        } else {
                            (Agent {
                                infection_status: InfectionStatus::Immune,
                                ..reg_before_apply.spec_agent(debates_view[m].opposer_id)
                            })
                        }));
                    }
                    lemma_settled_preserved(
                        reg_before_apply,
                        *registry,
                        att0,
                        attempted,
                        batch@,
                        debates_view,
                    );
                    assert forall|x: u32| #![trigger frontier@.contains(x)]
                        frontier@.contains(x) implies registry.has_agent(x)
                        && registry.spec_status(x) == InfectionStatus::Infected by {
                        if frontier_pre.contains(x) {
                            assert(reg_before_apply.spec_status(x) == InfectionStatus::Infected);
                            assert(registry.spec_status(x) == InfectionStatus::Infected);
                        } else {
                            let m = choose|m: int|
                                0 <= m < debates_view.len() && (#[trigger] debates_view[m]).outcome
                                    == DebateOutcome::ProposerWon && debates_view[m].opposer_id
                                    == x;
                            assert(registry.spec_agent(debates_view[m].opposer_id)
                                == (Agent {
                                infection_status: InfectionStatus::Infected,
                                infected_by: Some(debates_view[m].proposer_id),
                                ..reg_before_apply.spec_agent(debates_view[m].opposer_id)
                            }));
                        }
                    }
                    assert forall|kk: int|
                        0 <= kk < all_debates@.len() implies (#[trigger] all_debates@[kk]).outcome
                        != DebateOutcome::Ongoing by {
                        if kk < all0.len() {
                            assert(all_debates@[kk] == all0[kk]);
                        } else {
                            assert(all_debates@[kk] == debates_view[kk - all0.len()]);
                        }
                    }
                }
            }
        }
        let result = self.finalize(registry, all_debates);
        Ok(result)
    }

    /// Builds the next batch of debates: walks the frontier in order, claims
    /// each potential target at most once per batch, skips every pair already
    /// attempted this run, logs each claimed pair, and stops at the
    /// concurrency cap.  The frontier must hold infected agents, so every
    /// batched pair passes the full eligibility check.
    ///
    /// Batch safety: no opposer id appears twice, so the debates can run
    /// concurrently and their verdicts touch disjoint registry entries.
    /// At-most-once: no returned pair was attempted before, and all returned
    /// pairs are logged, so no later batch repeats them.
    /// Maximality: a batch stops short of the cap only when every remaining
    /// eligible fresh pair's opposer is already claimed by the batch.
    pub fn build_debate_batch(
        &self,
        registry: &Registry,
        frontier: &Vec<u32>,
        attempted: &mut AttemptLog,
    ) -> (batch: Vec<(u32, u32)>)
        requires
            registry.wf(),
            old(attempted).wf(),
            forall|j: int|
                0 <= j < frontier@.len() ==> registry.has_agent(#[trigger] frontier@[j])
                    && registry.spec_status(frontier@[j]) == InfectionStatus::Infected,
        ensures
            final(attempted).wf(),
            final(attempted).pairs_seq() == old(attempted).pairs_seq() + batch@,
            forall|k: int|
                #![trigger batch@[k]]
                0 <= k < batch@.len() ==> frontier@.contains(batch@[k].0)
                    && registry.spec_potential_target(batch@[k].0, batch@[k].1)
                    && registry.spec_can_debate(batch@[k].0, batch@[k].1) == Ok::<
                    (),
                    DebateError,
                >(()) && !old(attempted).spec_contains(batch@[k]),
            forall|j: int, k: int| 0 <= j < k < batch@.len() ==> batch@[j].1 != batch@[k].1,
            forall|j: int, k: int| 0 <= j < k < batch@.len() ==> batch@[j] != batch@[k],
            self.max_parallel_debates >= 1 ==> batch@.len() <= self.max_parallel_debates,
            self.max_parallel_debates == 0 ==> batch@.len() <= 1,
            batch@.len() == 0 ==> forall|j: int, o: u32|
                0 <= j < frontier@.len() ==> !(#[trigger] registry.spec_potential_target(
                    frontier@[j],
                    o,
                ) && !old(attempted).spec_contains((frontier@[j], o))),
            self.max_parallel_debates >= 1 && batch@.len() < self.max_parallel_debates
                ==> forall|j: int, o: u32|
                0 <= j < frontier@.len() && #[trigger] registry.spec_potential_target(
                    frontier@[j],
                    o,
                ) && !old(attempted).spec_contains((frontier@[j], o)) ==> exists|k: int|
                    0 <= k < batch@.len() && (#[trigger] batch@[k]).1 == o,
    {
        let mut batch: Vec<(u32, u32)> = Vec::new();
        let mut used_opposers: Vec<u32> = Vec::new();
        let mut fi: usize = 0;
        while fi < frontier.len()
            invariant
                registry.wf(),
                attempted.wf(),
                fi <= frontier@.len(),
                forall|j: int|
                    0 <= j < frontier@.len() ==> registry.has_agent(#[trigger] frontier@[j])
                        && registry.spec_status(frontier@[j]) == InfectionStatus::Infected,
                attempted.pairs_seq() == old(attempted).pairs_seq() + batch@,
                forall|k: int|
                    #![trigger batch@[k]]
                    0 <= k < batch@.len() ==> frontier@.contains(batch@[k].0)
                        && registry.spec_potential_target(batch@[k].0, batch@[k].1)
                        && registry.spec_can_debate(batch@[k].0, batch@[k].1) == Ok::<
                        (),
                        DebateError,
                    >(()) && !old(attempted).spec_contains(batch@[k]),
                forall|x: u32| #![trigger used_opposers@.contains(x)]
                    used_opposers@.contains(x) <==> exists|k: int|
                        0 <= k < batch@.len() && (#[trigger] batch@[k]).1 == x,
                forall|j: int, k: int| 0 <= j < k < batch@.len() ==> batch@[j].1 != batch@[k].1,
                self.max_parallel_debates >= 1 ==> batch@.len() < self.max_parallel_debates,
                self.max_parallel_debates == 0 ==> batch@.len() == 0,
                batch@.len() == 0 ==> forall|j: int, o: u32|
                    0 <= j < fi ==> !(#[trigger] registry.spec_potential_target(frontier@[j], o)
                        && !old(attempted).spec_contains((frontier@[j], o))),
                self.max_parallel_debates >= 1 ==> forall|j: int, o: u32|
                    0 <= j < fi && #[trigger] registry.spec_potential_target(frontier@[j], o)
                        && !old(attempted).spec_contains((frontier@[j], o))
                        ==> used_opposers@.contains(o),
            decreases frontier@.len() - fi,
        {
            let proposer = frontier[fi];
            let targets = registry.get_potential_targets(proposer);
            let mut ti: usize = 0;
            while ti < targets.len()
                invariant
                    registry.wf(),
                    attempted.wf(),
                    fi < frontier@.len(),
                    proposer == frontier@[fi as int],
                    ti <= targets@.len(),
                    forall|j: int|
                        0 <= j < frontier@.len() ==> registry.has_agent(#[trigger] frontier@[j])
                            && registry.spec_status(frontier@[j]) == InfectionStatus::Infected,
                    forall|x: u32|
                        targets@.contains(x) <==> registry.spec_potential_target(proposer, x),
                    attempted.pairs_seq() == old(attempted).pairs_seq() + batch@,
                    forall|k: int|
                        #![trigger batch@[k]]
                        0 <= k < batch@.len() ==> frontier@.contains(batch@[k].0)
                            && registry.spec_potential_target(batch@[k].0, batch@[k].1)
                            && registry.spec_can_debate(batch@[k].0, batch@[k].1) == Ok::<
                            (),
                            DebateError,
                        >(()) && !old(attempted).spec_contains(batch@[k]),
                    forall|x: u32| #![trigger used_opposers@.contains(x)]
                        used_opposers@.contains(x) <==> exists|k: int|
                            0 <= k < batch@.len() && (#[trigger] batch@[k]).1 == x,
                    forall|j: int, k: int| 0 <= j < k < batch@.len() ==> batch@[j].1 != batch@[k].1,
                    self.max_parallel_debates >= 1 ==> batch@.len() < self.max_parallel_debates,
                    self.max_parallel_debates == 0 ==> batch@.len() == 0,
                    batch@.len() == 0 ==> forall|j: int, o: u32|
                        0 <= j < fi ==> !(#[trigger] registry.spec_potential_target(
                            frontier@[j],
                            o,
                        ) && !old(attempted).spec_contains((frontier@[j], o))),
                    self.max_parallel_debates >= 1 ==> forall|j: int, o: u32|
                        0 <= j < fi && #[trigger] registry.spec_potential_target(frontier@[j], o)
                            && !old(attempted).spec_contains((frontier@[j], o))
                            ==> used_opposers@.contains(o),
                    batch@.len() == 0 ==> forall|k: int|
                        0 <= k < ti ==> old(attempted).spec_contains(
                            (proposer, #[trigger] targets@[k]),
                        ),
                    self.max_parallel_debates >= 1 ==> forall|k: int|
                        0 <= k < ti ==> (old(attempted).spec_contains(
                            (proposer, #[trigger] targets@[k]),
                        ) || used_opposers@.contains(targets@[k])),
                decreases targets@.len() - ti,
            {
                let opposer = targets[ti];
                proof {
                    assert(targets@[ti as int] == opposer);
                    assert(targets@.contains(opposer));
                }
                let used_has = contains_u32(&used_opposers, opposer);
                let attempted_has = attempted.has_pair(proposer, opposer);
                if !used_has && !attempted_has {
                    proof {
                        assert(!old(attempted).spec_contains((proposer, opposer)));
                        assert(frontier@.contains(proposer));
                        assert(registry.spec_status(proposer) == InfectionStatus::Infected);
                        assert(registry.spec_can_debate(proposer, opposer) == Ok::<
                            (),
                            DebateError,
                        >(()));
                    }
                    let ghost batch0 = batch@;
                    let ghost used0 = used_opposers@;
                    batch.push((proposer, opposer));
                    used_opposers.push(opposer);
                    attempted.push_pair(proposer, opposer);
                    proof {
                        assert(attempted.pairs_seq() =~= old(attempted).pairs_seq() + batch@);
                        assert forall|x: u32| #![trigger used_opposers@.contains(x)]
                            used_opposers@.contains(x) <==> exists|k: int|
                                0 <= k < batch@.len() && (#[trigger] batch@[k]).1 == x by {
                            if used_opposers@.contains(x) {
                                if used0.contains(x) {
                                    let k = choose|k: int|
                                        0 <= k < batch0.len() && (#[trigger] batch0[k]).1 == x;
                                    assert((batch@[k]).1 == x);
                                } else {
                                    assert(x == opposer);
                                    assert((batch@[batch@.len() - 1]).1 == x);
                                }
                            }
                            if exists|k: int| 0 <= k < batch@.len() && (#[trigger] batch@[k]).1
                                == x {
                                let k = choose|k: int|
                                    0 <= k < batch@.len() && (#[trigger] batch@[k]).1 == x;
                                if k < batch@.len() - 1 {
                                    assert(batch0[k].1 == x);
                                    assert(used0.contains(x));
                                    let m = choose|m: int| 0 <= m < used0.len() && used0[m] == x;
                                    assert(used_opposers@[m] == x);
                                } else {
                                    assert(used_opposers@[used_opposers@.len() - 1] == x);
                                }
                            }
                        }
                        assert forall|j: int, k: int|
                            0 <= j < k < batch@.len() implies batch@[j].1 != batch@[k].1 by {
                            if k == batch@.len() - 1 {
                                if batch@[j].1 == opposer {
                                    assert(batch0[j].1 == opposer);
                                    assert(used0.contains(opposer));
                                }
                            }
                        }
                        assert(used_opposers@[used_opposers@.len() - 1] == opposer);
                        assert(used_opposers@.contains(opposer));
                    }
                    if batch.len() >= self.max_parallel_debates {
                        return batch;
                    }
                } else {
                    proof {
                        if !used_has {
                            assert(attempted.spec_contains((proposer, opposer)));
                            if !old(attempted).spec_contains((proposer, opposer)) {
                                assert(batch@.contains((proposer, opposer)));
                                let k = choose|k: int|
                                    0 <= k < batch@.len() && batch@[k] == (proposer, opposer);
                                assert((batch@[k]).1 == opposer);
                                assert(used_opposers@.contains(opposer));
                            }
                        }
                    }
                }
                ti = ti + 1;
            }
            proof {
                if batch@.len() == 0 {
                    assert forall|o: u32|
                        !(#[trigger] registry.spec_potential_target(proposer, o) && !old(
                            attempted,
                        ).spec_contains((proposer, o))) by {
                        if registry.spec_potential_target(proposer, o) {
                            assert(targets@.contains(o));
                            let k = choose|k: int| 0 <= k < targets@.len() && targets@[k] == o;
                            assert(old(attempted).spec_contains((proposer, #[trigger] targets@[k])));
                        }
                    }
                }
                if self.max_parallel_debates >= 1 {
                    assert forall|o: u32|
                        #[trigger] registry.spec_potential_target(proposer, o) && !old(
                            attempted,
                        ).spec_contains((proposer, o)) implies used_opposers@.contains(o) by {
                        assert(targets@.contains(o));
                        let k = choose|k: int| 0 <= k < targets@.len() && targets@[k] == o;
                        assert(old(attempted).spec_contains((proposer, #[trigger] targets@[k]))
                            || used_opposers@.contains(targets@[k]));
                    }
                }
            }
            fi = fi + 1;
        }
        batch
    }

    /// Reconciles a completed batch into the registry, strictly sequentially:
    /// a `ProposerWon` debate infects its opposer (recording the proposer as
    /// infector) and adds it to the frontier unless already present; an
    /// `OpposerWon` debate makes its opposer immune.  Nothing else changes:
    /// infected agents stay infected and immune agents stay immune
    /// (monotonicity), and the healthy count drops by exactly the batch size.
    pub fn apply_batch_results(
        &self,
        registry: &mut Registry,
        debates: Vec<Debate>,
        frontier: &mut Vec<u32>,
        all_debates: &mut Vec<Debate>,
    ) -> (r: Result<(), DebateError>)
        requires
            old(registry).wf(),
            batch_applicable(*old(registry), debates@),
            forall|j: int, k: int|
                0 <= j < k < old(frontier)@.len() ==> old(frontier)@[j] != old(frontier)@[k],
        ensures
            r == Ok::<(), DebateError>(()),
            final(registry).wf(),
            final(registry).spec_topology() == old(registry).spec_topology(),
            final(registry).agents_seq().len() == old(registry).agents_seq().len(),
            forall|k: int|
                #![trigger debates@[k]]
                0 <= k < debates@.len() ==> final(registry).spec_agent(debates@[k].opposer_id)
                    == (if debates@[k].outcome == DebateOutcome::ProposerWon {
                    (Agent {
                        infection_status: InfectionStatus::Infected,
                        infected_by: Some(debates@[k].proposer_id),
                        ..old(registry).spec_agent(debates@[k].opposer_id)
                    })
                } else {
                    (Agent {
                        infection_status: InfectionStatus::Immune,
                        ..old(registry).spec_agent(debates@[k].opposer_id)
                    })
                }),
            forall|id: u32|
                #![trigger final(registry).spec_agent(id)]
                old(registry).has_agent(id) && !is_opposer_in(debates@, debates@.len() as int, id)
                    ==> final(registry).spec_agent(id) == old(registry).spec_agent(id),
            forall|id: u32|
                #![trigger final(registry).spec_status(id)]
                old(registry).has_agent(id) && old(registry).spec_status(id)
                    == InfectionStatus::Infected ==> final(registry).spec_status(id)
                    == InfectionStatus::Infected,
            forall|id: u32|
                #![trigger final(registry).spec_status(id)]
                old(registry).has_agent(id) && old(registry).spec_status(id)
                    == InfectionStatus::Immune ==> final(registry).spec_status(id)
                    == InfectionStatus::Immune,
            final(registry).spec_count(InfectionStatus::Healthy) + debates@.len() == old(
                registry,
            ).spec_count(InfectionStatus::Healthy),
            final(registry).spec_count(InfectionStatus::Infected) == old(registry).spec_count(
                InfectionStatus::Infected,
            ) + count_outcome(debates@, DebateOutcome::ProposerWon),
            final(registry).spec_count(InfectionStatus::Immune) == old(registry).spec_count(
                InfectionStatus::Immune,
            ) + count_outcome(debates@, DebateOutcome::OpposerWon),
            final(frontier)@ == spec_reconciled_frontier(
                old(frontier)@,
                debates@,
                debates@.len() as int,
            ),
            forall|x: u32|
                #![trigger final(frontier)@.contains(x)]
                final(frontier)@.contains(x) <==> (old(frontier)@.contains(x) || exists|k: int|
                    0 <= k < debates@.len() && (#[trigger] debates@[k]).outcome
                        == DebateOutcome::ProposerWon && debates@[k].opposer_id == x),
            old(frontier)@.is_prefix_of(final(frontier)@),
            forall|j: int, k: int|
                0 <= j < k < final(frontier)@.len() ==> final(frontier)@[j] != final(frontier)@[k],
            final(all_debates)@ == old(all_debates)@ + debates@,
    {
        let mut debates = debates;
        let n = debates.len();
        let mut k: usize = 0;
        while k < n
            invariant
                k <= n,
                n == debates@.len(),
                registry.wf(),
                batch_applicable(*old(registry), debates@),
                registry.spec_topology() == old(registry).spec_topology(),
                registry.agents_seq().len() == old(registry).agents_seq().len(),
                forall|m: int|
                    #![trigger debates@[m]]
                    0 <= m < k ==> registry.spec_agent(debates@[m].opposer_id) == (
                    if debates@[m].outcome == DebateOutcome::ProposerWon {
                        (Agent {
                            infection_status: InfectionStatus::Infected,
                            infected_by: Some(debates@[m].proposer_id),
                            ..old(registry).spec_agent(debates@[m].opposer_id)
                        })
                    } else {
                        (Agent {
                            infection_status: InfectionStatus::Immune,
                            ..old(registry).spec_agent(debates@[m].opposer_id)
                        })
                    }),
                forall|id: u32|
                    #![trigger registry.spec_agent(id)]
                    old(registry).has_agent(id) && !is_opposer_in(debates@, k as int, id) ==>
                        registry.spec_agent(id) == old(registry).spec_agent(id),
                registry.spec_count(InfectionStatus::Healthy) + k == old(registry).spec_count(
                    InfectionStatus::Healthy,
                ),
                registry.spec_count(InfectionStatus::Infected) == old(registry).spec_count(
                    InfectionStatus::Infected,
                ) + count_outcome(debates@.take(k as int), DebateOutcome::ProposerWon),
                registry.spec_count(InfectionStatus::Immune) == old(registry).spec_count(
                    InfectionStatus::Immune,
                ) + count_outcome(debates@.take(k as int), DebateOutcome::OpposerWon),
                frontier@ == spec_reconciled_frontier(old(frontier)@, debates@, k as int),
                forall|x: u32|
                    #![trigger frontier@.contains(x)]
                    frontier@.contains(x) <==> (old(frontier)@.contains(x) || exists|m: int|
                        0 <= m < k && (#[trigger] debates@[m]).outcome
                            == DebateOutcome::ProposerWon && debates@[m].opposer_id == x),
                old(frontier)@.is_prefix_of(frontier@),
                forall|j: int, m: int|
                    0 <= j < m < frontier@.len() ==> frontier@[j] != frontier@[m],
            decreases n - k,
        {
            let proposer_id = debates[k].proposer_id;
            let opposer_id = debates[k].opposer_id;
            let outcome = debates[k].outcome;
            proof {
                assert(!is_opposer_in(debates@, k as int, opposer_id));
                assert(registry.spec_agent(opposer_id) == old(registry).spec_agent(opposer_id));
                assert(count_outcome(debates@.take(k + 1), DebateOutcome::ProposerWon)
                    == count_outcome(debates@.take(k as int), DebateOutcome::ProposerWon) + (
                if outcome == DebateOutcome::ProposerWon {
                    1nat
                } else {
                    0nat
                })) by {
                    assert(debates@.take(k + 1).drop_last() =~= debates@.take(k as int));
                    assert(debates@.take(k + 1).last() == debates@[k as int]);
                }
                assert(count_outcome(debates@.take(k + 1), DebateOutcome::OpposerWon)
                    == count_outcome(debates@.take(k as int), DebateOutcome::OpposerWon) + (
                if outcome == DebateOutcome::OpposerWon {
                    1nat
                } else {
                    0nat
                })) by {
                    assert(debates@.take(k + 1).drop_last() =~= debates@.take(k as int));
                    assert(debates@.take(k + 1).last() == debates@[k as int]);
                }
            }
            let ghost reg0 = *registry;
            let res = registry.apply_debate_outcome(proposer_id, opposer_id, outcome);
            if res.is_err() {
                proof {
                    assert(false);
                }
                return res;
            }
            proof {
                assert forall|id: u32|
                    #![trigger registry.spec_agent(id)]
                    old(registry).has_agent(id) && !is_opposer_in(debates@, k + 1, id)
                        implies registry.spec_agent(id) == old(registry).spec_agent(id) by {
                    if !is_opposer_in(debates@, k as int, id) && id != opposer_id {
                        assert(reg0.spec_agent(id) == old(registry).spec_agent(id));
                    }
                    if is_opposer_in(debates@, k as int, id) {
                        let m = choose|m: int|
                            0 <= m < k && (#[trigger] debates@[m]).opposer_id == id;
                        assert(0 <= m < k + 1 && (debates@[m]).opposer_id == id);
                    }
                    if id == opposer_id {
                        assert((debates@[k as int]).opposer_id == id);
                    }
                }
            }
            let ghost f_before = frontier@;
            if outcome == DebateOutcome::ProposerWon && !contains_u32(frontier, opposer_id) {
                let ghost f0 = frontier@;
                frontier.push(opposer_id);
                proof {
                    assert(f0.is_prefix_of(frontier@)) by {
                        assert(frontier@.take(f0.len() as int) =~= f0);
                    }
                    assert forall|j: int, m: int|
                        0 <= j < m < frontier@.len() implies frontier@[j] != frontier@[m] by {
                        if m == frontier@.len() - 1 {
                            if frontier@[j] == opposer_id {
                                assert(f0[j] == opposer_id);
                                assert(f0.contains(opposer_id));
                            }
                        }
                    }
                }
            }
            proof {
                assert forall|x: u32|
                    #![trigger frontier@.contains(x)]
                    frontier@.contains(x) <==> (old(frontier)@.contains(x) || exists|m: int|
                        0 <= m < k + 1 && (#[trigger] debates@[m]).outcome
                            == DebateOutcome::ProposerWon && debates@[m].opposer_id == x) by {
                    if frontier@.contains(x) && !old(frontier)@.contains(x) {
                        if exists|m: int|
                            0 <= m < k && (#[trigger] debates@[m]).outcome
                                == DebateOutcome::ProposerWon && debates@[m].opposer_id == x {
                            let m = choose|m: int|
                                0 <= m < k && (#[trigger] debates@[m]).outcome
                                    == DebateOutcome::ProposerWon && debates@[m].opposer_id == x;
                            assert(0 <= m < k + 1 && (debates@[m]).outcome
                                == DebateOutcome::ProposerWon && debates@[m].opposer_id == x);
                        } else {
                            assert(x == opposer_id && outcome == DebateOutcome::ProposerWon);
                            assert(0 <= k < k + 1 && (debates@[k as int]).outcome
                                == DebateOutcome::ProposerWon && debates@[k as int].opposer_id
                                == x);
                        }
                    }
                    if exists|m: int|
                        0 <= m < k + 1 && (#[trigger] debates@[m]).outcome
                            == DebateOutcome::ProposerWon && debates@[m].opposer_id == x {
                        let m = choose|m: int|
                            0 <= m < k + 1 && (#[trigger] debates@[m]).outcome
                                == DebateOutcome::ProposerWon && debates@[m].opposer_id == x;
                        if m < k {
                            assert(0 <= m < k && (debates@[m]).outcome
                                == DebateOutcome::ProposerWon && debates@[m].opposer_id == x);
                        }
                    }
                }
                assert(frontier@ == spec_reconciled_frontier(old(frontier)@, debates@, k + 1)) by {
                    assert(f_before == spec_reconciled_frontier(old(frontier)@, debates@, k as int));
                }
            }
            k = k + 1;
        }
        proof {
            assert(debates@.take(n as int) =~= debates@);
        }
        all_debates.append(&mut debates);
        Ok(())
    }

    /// Final tallies: the total, infected, healthy and immune counts straight
    /// from the registry, the number of resolved debates, and the debate log.
    pub fn finalize(&self, registry: &Registry, debates: Vec<Debate>) -> (r: SimulationResult)
        requires
            registry.wf(),
        ensures
            r.rounds == debates@.len(),
            r.total_agents == registry.agents_seq().len(),
            r.infected == registry.spec_count(InfectionStatus::Infected),
            r.healthy == registry.spec_count(InfectionStatus::Healthy),
            r.immune == registry.spec_count(InfectionStatus::Immune),
            r.total_agents == r.healthy + r.infected + r.immune,
            r.debates@ == debates@,
    {
        let stats: RegistryStatistics = registry.get_statistics();
        SimulationResult {
            rounds: debates.len(),
            total_agents: stats.total_agents,
            infected: stats.infected_agents,
            healthy: stats.healthy_agents,
            immune: stats.immune_agents,
            debates,
        }
    }
}

/// The frontier after a pruning pass: the members that still have a
/// potential target, kept in their original order.
pub open spec fn spec_pruned(registry: Registry, frontier: Seq<u32>) -> Seq<u32>
    decreases frontier.len(),
{
    if frontier.len() == 0 {
        Seq::empty()
    } else if registry.spec_has_target(frontier.last()) {
        spec_pruned(registry, frontier.drop_last()).push(frontier.last())
    } else {
        spec_pruned(registry, frontier.drop_last())
    }
}

/// Drops from the frontier every agent with no potential target left,
/// preserving the frontier's iteration order.  When no frontier agent has a
/// target, the frontier comes back empty and the run terminates.
pub fn prune_frontier(registry: &Registry, frontier: &mut Vec<u32>)
    requires
        registry.wf(),
        forall|j: int, k: int|
            0 <= j < k < old(frontier)@.len() ==> old(frontier)@[j] != old(frontier)@[k],
    ensures
        final(frontier)@ == spec_pruned(*registry, old(frontier)@),
        forall|x: u32|
            #![trigger final(frontier)@.contains(x)]
            final(frontier)@.contains(x) <==> (old(frontier)@.contains(x)
                && registry.spec_has_target(x)),
        forall|j: int, k: int|
            0 <= j < k < final(frontier)@.len() ==> final(frontier)@[j] != final(frontier)@[k],
        (forall|j: int|
            0 <= j < old(frontier)@.len() ==> !registry.spec_has_target(
                #[trigger] old(frontier)@[j],
            )) ==> final(frontier)@.len() == 0,
{
    let ghost f0 = frontier@;
    let mut kept: Vec<u32> = Vec::new();
    let mut i: usize = 0;
    while i < frontier.len()
        invariant
            registry.wf(),
            i <= f0.len(),
            frontier@ == f0,
            forall|j: int, k: int| 0 <= j < k < f0.len() ==> f0[j] != f0[k],
            kept@ == spec_pruned(*registry, f0.take(i as int)),
            forall|x: u32| #![trigger kept@.contains(x)]
                kept@.contains(x) <==> ((exists|j: int| 0 <= j < i && #[trigger] f0[j] == x)
                    && registry.spec_has_target(x)),
            forall|j: int, k: int| 0 <= j < k < kept@.len() ==> kept@[j] != kept@[k],
        decreases f0.len() - i,
    {
        let id = frontier[i];
        proof {
            assert(f0.take(i + 1).drop_last() =~= f0.take(i as int));
            assert(f0.take(i + 1).last() == f0[i as int]);
        }
        let targets = registry.get_potential_targets(id);
        if targets.len() > 0 {
            proof {
                assert(targets@.contains(targets@[0]));
                assert(registry.spec_potential_target(id, targets@[0]));
                assert(registry.spec_has_target(id));
                assert(!kept@.contains(id)) by {
                    if kept@.contains(id) {
                        let j = choose|j: int| 0 <= j < i && #[trigger] f0[j] == id;
                        assert(f0[j] == f0[i as int]);
                    }
                }
            }
            let ghost k0 = kept@;
            kept.push(id);
            proof {
                assert forall|x: u32| #![trigger kept@.contains(x)]
                    kept@.contains(x) <==> ((exists|j: int| 0 <= j < i + 1 && #[trigger] f0[j]
                        == x) && registry.spec_has_target(x)) by {
                    if kept@.contains(x) {
                        if k0.contains(x) {
                            let j = choose|j: int| 0 <= j < i && #[trigger] f0[j] == x;
                            assert(0 <= j < i + 1 && f0[j] == x);
                        } else {
                            assert(x == id);
                            assert(f0[i as int] == x);
                        }
                    }
                    if (exists|j: int| 0 <= j < i + 1 && #[trigger] f0[j] == x)
                        && registry.spec_has_target(x) {
                        let j = choose|j: int| 0 <= j < i + 1 && #[trigger] f0[j] == x;
                        if j < i {
                            assert(k0.contains(x));
                            let m = choose|m: int| 0 <= m < k0.len() && k0[m] == x;
                            assert(kept@[m] == x);
                        } else {
                            assert(kept@[kept@.len() - 1] == x);
                        }
                    }
                }
            }
        } else {
            proof {
                assert(!registry.spec_has_target(id)) by {
                    if registry.spec_has_target(id) {
                        let o = choose|o: u32| registry.spec_potential_target(id, o);
                        assert(targets@.contains(o));
                    }
                }
                assert forall|x: u32| #![trigger kept@.contains(x)]
                    kept@.contains(x) <==> ((exists|j: int| 0 <= j < i + 1 && #[trigger] f0[j]
                        == x) && registry.spec_has_target(x)) by {
                    if (exists|j: int| 0 <= j < i + 1 && #[trigger] f0[j] == x)
                        && registry.spec_has_target(x) {
                        let j = choose|j: int| 0 <= j < i + 1 && #[trigger] f0[j] == x;
                        assert(j != i);
                    }
                }
            }
        }
        i = i + 1;
    }
    *frontier = kept;
    proof {
        assert(f0.take(f0.len() as int) =~= f0);
        assert forall|x: u32|
            #![trigger frontier@.contains(x)]
            frontier@.contains(x) <==> (f0.contains(x) && registry.spec_has_target(x)) by {
            if frontier@.contains(x) {
                let j = choose|j: int| 0 <= j < f0.len() && #[trigger] f0[j] == x;
                assert(f0.contains(x));
            }
            if f0.contains(x) && registry.spec_has_target(x) {
                let j = choose|j: int| 0 <= j < f0.len() && f0[j] == x;
                assert(0 <= j < f0.len() && #[trigger] f0[j] == x);
            }
        }
        if forall|j: int| 0 <= j < f0.len() ==> !registry.spec_has_target(#[trigger] f0[j]) {
            assert forall|x: u32| !frontier@.contains(x) by {
                if frontier@.contains(x) {
                    let j = choose|j: int| 0 <= j < f0.len() && f0[j] == x;
                    assert(!registry.spec_has_target(f0[j]));
                }
            }
            if frontier@.len() > 0 {
                assert(frontier@.contains(frontier@[0]));
            }
        }
    }
}

/// Law (at-most-once): a pair drawn in an earlier batch is in the attempt
/// log before any later batch is drawn, and every drawn pair is fresh, so no
/// ordered pair is ever contested twice across a run.
pub proof fn lemma_at_most_once(
    first_batch: Seq<(u32, u32)>,
    attempted_before_second: AttemptLog,
    second_batch: Seq<(u32, u32)>,
)
    requires
        forall|k: int|
            0 <= k < first_batch.len() ==> attempted_before_second.spec_contains(
                #[trigger] first_batch[k],
            ),
        forall|k: int|
            0 <= k < second_batch.len() ==> !attempted_before_second.spec_contains(
                #[trigger] second_batch[k],
            ),
    ensures
        forall|j: int, k: int|
            0 <= j < first_batch.len() && 0 <= k < second_batch.len() ==> first_batch[j]
                != second_batch[k],
{
    assert forall|j: int, k: int|
        0 <= j < first_batch.len() && 0 <= k < second_batch.len() implies first_batch[j]
        != second_batch[k] by {
        assert(attempted_before_second.spec_contains(first_batch[j]));
        assert(!attempted_before_second.spec_contains(second_batch[k]));
    }
}

/// Law (termination, empty-batch case): under the run invariant that every
/// attempted pair's opposer has left the healthy state, an empty batch means
/// no frontier agent has any potential target at all, so the pruning pass
/// that follows empties the frontier and the run stops.
pub proof fn lemma_empty_batch_inert_frontier(
    registry: Registry,
    frontier: Seq<u32>,
    attempted: AttemptLog,
)
    requires
        registry.wf(),
        attempted_opposers_settled(registry, attempted),
        forall|j: int, o: u32|
            0 <= j < frontier.len() ==> !(#[trigger] registry.spec_potential_target(frontier[j], o)
                && !attempted.spec_contains((frontier[j], o))),
    ensures
        forall|j: int|
            0 <= j < frontier.len() ==> !registry.spec_has_target(#[trigger] frontier[j]),
{
    assert forall|j: int|
        0 <= j < frontier.len() implies !registry.spec_has_target(frontier[j]) by {
        if registry.spec_has_target(frontier[j]) {
            let o = choose|o: u32| registry.spec_potential_target(frontier[j], o);
            assert(!attempted.spec_contains((frontier[j], o))) by {
                if attempted.spec_contains((frontier[j], o)) {
                    let k = choose|k: int|
                        0 <= k < attempted.pairs_seq().len() && attempted.pairs_seq()[k] == (
                        frontier[j],
                        o,
                    );
                    assert(!(registry.has_agent((attempted.pairs_seq()[k]).1)
                        && registry.spec_status((attempted.pairs_seq()[k]).1)
                        == InfectionStatus::Healthy));
                }
            }
            assert(registry.spec_potential_target(frontier[j], o) && !attempted.spec_contains(
                (frontier[j], o),
            ));
        }
    }
}

/// Law (run invariant preservation): reconciling a batch settles exactly the
/// pairs that batch construction logged, so the attempt log's opposers all
/// stay out of the healthy state.
pub proof fn lemma_settled_preserved(
    registry_before: Registry,
    registry_after: Registry,
    attempted_before: AttemptLog,
    attempted_after: AttemptLog,
    batch: Seq<(u32, u32)>,
    debates: Seq<Debate>,
)
    requires
        attempted_opposers_settled(registry_before, attempted_before),
        attempted_after.pairs_seq() == attempted_before.pairs_seq() + batch,
        // the debates carry the batch's pairs
        debates.len() == batch.len(),
        forall|k: int|
            0 <= k < debates.len() ==> (#[trigger] debates[k]).opposer_id == batch[k].1,
        // what reconciliation ensures
        registry_after.agents_seq().len() == registry_before.agents_seq().len(),
        forall|k: int|
            #![trigger debates[k]]
            0 <= k < debates.len() ==> registry_after.has_agent(debates[k].opposer_id)
                && registry_after.spec_status(debates[k].opposer_id) != InfectionStatus::Healthy,
        forall|id: u32|
            #![trigger registry_after.spec_status(id)]
            registry_before.has_agent(id) && registry_before.spec_status(id)
                == InfectionStatus::Infected ==> registry_after.spec_status(id)
                == InfectionStatus::Infected,
        forall|id: u32|
            #![trigger registry_after.spec_status(id)]
            registry_before.has_agent(id) && registry_before.spec_status(id)
                == InfectionStatus::Immune ==> registry_after.spec_status(id)
                == InfectionStatus::Immune,
    ensures
        attempted_opposers_settled(registry_after, attempted_after),
{
    assert forall|k: int|
        0 <= k < attempted_after.pairs_seq().len() implies !(registry_after.has_agent(
        (#[trigger] attempted_after.pairs_seq()[k]).1,
    ) && registry_after.spec_status(attempted_after.pairs_seq()[k].1)
        == InfectionStatus::Healthy) by {
        let o = (attempted_after.pairs_seq()[k]).1;
        if k < attempted_before.pairs_seq().len() {
            assert(attempted_before.pairs_seq()[k] == attempted_after.pairs_seq()[k]);
            assert(!(registry_before.has_agent(o) && registry_before.spec_status(o)
                == InfectionStatus::Healthy));
            if registry_before.has_agent(o) {
                assert(registry_after.spec_status(o) != InfectionStatus::Healthy);
            }
        } else {
            let m = k - attempted_before.pairs_seq().len();
            assert(batch[m].1 == o);
            assert((debates[m]).opposer_id == o);
            assert(registry_after.spec_status(o) != InfectionStatus::Healthy);
        }
    }
}

} // verus!
