//! The agent registry: owns every agent and its mutable state, plus the
//! topology the agents live on.
//!
//! Ids are handed out sequentially from zero, so the agent with id `i` sits
//! at index `i`.  The registry invariant: the three states partition the
//! agents, and an infected agent's `infected_by` back-reference is set by the
//! debate that infected it (`None` for seeded agents).

use vstd::prelude::*;

use crate::agent::{Agent, InfectionStatus};
use crate::debate::DebateOutcome;
use crate::errors::DebateError;
use crate::topology::Topology;

verus! {

broadcast use vstd::seq_lib::group_seq_properties;

/// How many of `agents` are in state `status`.
pub closed spec fn count_status(agents: Seq<Agent>, status: InfectionStatus) -> nat
    decreases agents.len(),
{
    if agents.len() == 0 {
        0
    } else {
        count_status(agents.drop_last(), status) + (if agents.last().infection_status == status {
            1nat
        } else {
            0nat
        })
    }
}

/// Law (conservation): the three states partition the agents, so the healthy,
/// infected and immune counts always sum to the total agent count.
pub proof fn lemma_status_partition(agents: Seq<Agent>)
    ensures
        count_status(agents, InfectionStatus::Healthy) + count_status(
            agents,
            InfectionStatus::Infected,
        ) + count_status(agents, InfectionStatus::Immune) == agents.len(),
    decreases agents.len(),
{
    if agents.len() > 0 {
        lemma_status_partition(agents.drop_last());
    }
}

/// Law (termination bound): no state's count exceeds the agent count; in
/// particular at most `total` healthy agents can ever be contested, so a run
/// reconciles at most one non-empty batch per agent.
pub proof fn lemma_count_bounded(agents: Seq<Agent>, status: InfectionStatus)
    ensures
        count_status(agents, status) <= agents.len(),
    decreases agents.len(),
{
    if agents.len() > 0 {
        lemma_count_bounded(agents.drop_last(), status);
    }
}

/// Appending an agent adds one to the count of its state and leaves the other
/// counts unchanged.
pub proof fn lemma_count_status_push(agents: Seq<Agent>, a: Agent, status: InfectionStatus)
    ensures
        count_status(agents.push(a), status) == count_status(agents, status) + (
        if a.infection_status == status {
            1nat
        } else {
            0nat
        }),
{
    assert(agents.push(a).drop_last() =~= agents);
}

/// Replacing the agent at `i` adjusts each state count by the states of the
/// outgoing and incoming agent.
pub proof fn lemma_count_status_update(agents: Seq<Agent>, i: int, a: Agent, status: InfectionStatus)
    requires
        0 <= i < agents.len(),
    ensures
        count_status(agents.update(i, a), status) as int == count_status(agents, status) as int + (
        if a.infection_status == status {
            1int
        } else {
            0int
        }) - (if agents[i].infection_status == status {
            1int
        } else {
            0int
        }),
    decreases agents.len(),
{
    let u = agents.update(i, a);
    if i == agents.len() - 1 {
        assert(u.drop_last() =~= agents.drop_last());
        assert(u.last() == a);
    } else {
        assert(u.drop_last() =~= agents.drop_last().update(i, a));
        assert(u.last() == agents.last());
        lemma_count_status_update(agents.drop_last(), i, a, status);
    }
}

/// Summary statistics over the final registry state.
#[derive(Debug, Clone)]
pub struct RegistryStatistics {
    pub total_agents: usize,
    pub infected_agents: usize,
    pub healthy_agents: usize,
    pub immune_agents: usize,
    pub total_connections: usize,
}

#[derive(Debug, Clone)]
pub struct Registry {
    /// The id the next created agent receives; equals the agent count.
    next_agent_id: u32,
    agents: Vec<Agent>,
    pub topology: Option<Topology>,
}

impl Registry {
    /// The agents, in id order.
    pub closed spec fn agents_seq(self) -> Seq<Agent> {
        self.agents@
    }

    /// The id counter equals the agent count, so the next id is free.
    pub closed spec fn counter_ok(self) -> bool {
        self.next_agent_id == self.agents@.len()
    }

    /// The topology the registry carries, if one was installed.
    pub closed spec fn spec_topology(self) -> Option<Topology> {
        self.topology
    }

    /// Well-formed: ids are the indices, the counter matches, and the
    /// topology (if any) is well-formed.
    pub open spec fn wf(self) -> bool {
        &&& self.counter_ok()
        &&& self.agents_seq().len() <= u32::MAX
        &&& forall|i: int|
            0 <= i < self.agents_seq().len() ==> (#[trigger] self.agents_seq()[i]).id == i
        &&& match self.spec_topology() {
            Some(t) => t.wf(),
            None => true,
        }
    }

    /// Whether an agent with the given id is registered.
    pub open spec fn has_agent(self, id: u32) -> bool {
        id < self.agents_seq().len()
    }

    /// The agent with the given id.
    pub open spec fn spec_agent(self, id: u32) -> Agent
        recommends
            self.has_agent(id),
    {
        self.agents_seq()[id as int]
    }

    /// The state of the agent with the given id.
    pub open spec fn spec_status(self, id: u32) -> InfectionStatus
        recommends
            self.has_agent(id),
    {
        self.spec_agent(id).infection_status
    }

    /// How many agents are in state `status`.
    pub open spec fn spec_count(self, status: InfectionStatus) -> nat {
        count_status(self.agents_seq(), status)
    }

    /// The eligibility check for a debate, and which clause a failing pair
    /// violates first: both agents exist, the proposer is infected, the
    /// opposer is healthy, and an edge connects them.
    pub open spec fn spec_can_debate(self, proposer_id: u32, opposer_id: u32) -> Result<
        (),
        DebateError,
    > {
        if !self.has_agent(proposer_id) {
            Err(DebateError::NotFound(proposer_id))
        } else if !self.has_agent(opposer_id) {
            Err(DebateError::NotFound(opposer_id))
        } else if self.spec_status(proposer_id) != InfectionStatus::Infected {
            Err(DebateError::NotInfected(proposer_id))
        } else if self.spec_status(opposer_id) != InfectionStatus::Healthy {
            Err(DebateError::NotHealthy(opposer_id))
        } else {
            match self.spec_topology() {
                None => Err(DebateError::NoTopology),
                Some(t) => if !t.spec_connected(proposer_id, opposer_id) {
                    Err(DebateError::NotConnected(proposer_id, opposer_id))
                } else {
                    Ok(())
                },
            }
        }
    }

    /// Whether `target_id` is a healthy agent connected to `infector_id`.
    pub open spec fn spec_potential_target(self, infector_id: u32, target_id: u32) -> bool {
        match self.spec_topology() {
            Some(t) => t.spec_connected(infector_id, target_id) && self.has_agent(target_id)
                && self.spec_status(target_id) == InfectionStatus::Healthy,
            None => false,
        }
    }

    /// Whether `infector_id` has any potential target left.
    pub open spec fn spec_has_target(self, infector_id: u32) -> bool {
        exists|t: u32| self.spec_potential_target(infector_id, t)
    }

    /// The result `apply_debate_outcome` returns: the opposer must exist, and
    /// a decisive outcome may only be applied to a healthy opposer.
    pub open spec fn spec_apply_outcome_result(self, opposer_id: u32, outcome: DebateOutcome)
        -> Result<(), DebateError> {
        if !self.has_agent(opposer_id) {
            Err(DebateError::NotFound(opposer_id))
        } else if outcome != DebateOutcome::Ongoing && self.spec_status(opposer_id)
            != InfectionStatus::Healthy {
            Err(DebateError::NotHealthy(opposer_id))
        } else {
            Ok(())
        }
    }

    /// An empty registry with no topology.
    pub fn new() -> (r: Self)
        ensures
            r.wf(),
            r.agents_seq() == Seq::<Agent>::empty(),
            r.spec_topology() == None::<Topology>,
            forall|status: InfectionStatus| r.spec_count(status) == 0,
    {
        Self { next_agent_id: 0, agents: Vec::new(), topology: None }
    }

    /// Installs the topology the agents live on.  The field itself is also
    /// public, so unverified setup code may assign it directly.
    pub fn set_topology(&mut self, topology: Topology)
        requires
            old(self).wf(),
            topology.wf(),
        ensures
            final(self).wf(),
            final(self).spec_topology() == Some(topology),
            final(self).agents_seq() == old(self).agents_seq(),
    {
        self.topology = Some(topology);
    }

    /// Registers a fresh healthy agent and returns its id, the next free one.
    pub fn create_agent(&mut self, model: String) -> (id: u32)
        requires
            old(self).wf(),
            old(self).agents_seq().len() < u32::MAX,
        ensures
            final(self).wf(),
            id == old(self).agents_seq().len(),
            final(self).spec_topology() == old(self).spec_topology(),
            final(self).agents_seq().len() == old(self).agents_seq().len() + 1,
            forall|x: u32| final(self).has_agent(x) <==> (old(self).has_agent(x) || x == id),
            forall|x: u32|
                old(self).has_agent(x) ==> final(self).spec_agent(x) == old(self).spec_agent(x),
            final(self).spec_agent(id).id == id,
            final(self).spec_agent(id).model == model,
            final(self).spec_agent(id).infection_status == InfectionStatus::Healthy,
            final(self).spec_agent(id).infected_by == None::<u32>,
            final(self).spec_agent(id).debate_history@ == Seq::<crate::debate::Debate>::empty(),
            final(self).spec_count(InfectionStatus::Healthy) == old(self).spec_count(
                InfectionStatus::Healthy,
            ) + 1,
            final(self).spec_count(InfectionStatus::Infected) == old(self).spec_count(
                InfectionStatus::Infected,
            ),
            final(self).spec_count(InfectionStatus::Immune) == old(self).spec_count(
                InfectionStatus::Immune,
            ),
    {
        let id = self.next_agent_id;
        self.next_agent_id = self.next_agent_id + 1;
        let a = Agent::new(id, model);
        proof {
            lemma_count_status_push(self.agents@, a, InfectionStatus::Healthy);
            lemma_count_status_push(self.agents@, a, InfectionStatus::Infected);
            lemma_count_status_push(self.agents@, a, InfectionStatus::Immune);
        }
        self.agents.push(a);
        id
    }

    /// The agent with the given id, if registered.
    pub fn get_agent(&self, id: u32) -> (r: Option<&Agent>)
        requires
            self.wf(),
        ensures
            match r {
                Some(a) => self.has_agent(id) && *a == self.spec_agent(id),
                None => !self.has_agent(id),
            },
    {
        if (id as usize) < self.agents.len() {
            Some(&self.agents[id as usize])
        } else {
            None
        }
    }

    /// Every registered id, ascending.
    pub fn get_all_agent_ids(&self) -> (r: Vec<u32>)
        requires
            self.wf(),
        ensures
            r@.len() == self.agents_seq().len(),
            forall|i: int| 0 <= i < r@.len() ==> r@[i] == i,
    {
        let mut r: Vec<u32> = Vec::new();
        let mut i: usize = 0;
        while i < self.agents.len()
            invariant
                self.wf(),
                i <= self.agents_seq().len(),
                r@.len() == i,
                forall|j: int| 0 <= j < r@.len() ==> r@[j] == j,
            decreases self.agents_seq().len() - i,
        {
            r.push(i as u32);
            i = i + 1;
        }
        r
    }

    /// References to every agent, in id order.
    pub fn get_all_agents(&self) -> (r: Vec<&Agent>)
        ensures
            r@.len() == self.agents_seq().len(),
            forall|i: int| 0 <= i < r@.len() ==> *r@[i] == self.agents_seq()[i],
    {
        let mut r: Vec<&Agent> = Vec::new();
        let mut i: usize = 0;
        while i < self.agents.len()
            invariant
                i <= self.agents_seq().len(),
                r@.len() == i,
                forall|j: int| 0 <= j < r@.len() ==> *r@[j] == self.agents_seq()[j],
            decreases self.agents_seq().len() - i,
        {
            r.push(&self.agents[i]);
            i = i + 1;
        }
        r
    }

    /// How many agents are registered.
    pub fn agent_count(&self) -> (r: usize)
        ensures
            r == self.agents_seq().len(),
    {
        self.agents.len()
    }

    /// How many agents are in state `status`.
    fn count_by(&self, status: InfectionStatus) -> (r: usize)
        ensures
            r == count_status(self.agents_seq(), status),
    {
        let mut r: usize = 0;
        let mut i: usize = 0;
        while i < self.agents.len()
            invariant
                i <= self.agents_seq().len(),
                r <= i,
                r == count_status(self.agents_seq().take(i as int), status),
            decreases self.agents_seq().len() - i,
        {
            proof {
                assert(self.agents_seq().take(i + 1).drop_last() =~= self.agents_seq().take(
                    i as int,
                ));
                assert(self.agents_seq().take(i + 1).last() == self.agents_seq()[i as int]);
            }
            if self.agents[i].infection_status == status {
                r = r + 1;
            }
            i = i + 1;
        }
        proof {
            assert(self.agents_seq().take(self.agents_seq().len() as int) =~= self.agents_seq());
        }
        r
    }

    /// How many agents are infected.
    pub fn infected_count(&self) -> (r: usize)
        ensures
            r == self.spec_count(InfectionStatus::Infected),
    {
        self.count_by(InfectionStatus::Infected)
    }

    /// How many agents are healthy.
    pub fn healthy_count(&self) -> (r: usize)
        ensures
            r == self.spec_count(InfectionStatus::Healthy),
    {
        self.count_by(InfectionStatus::Healthy)
    }

    /// How many agents are immune.
    pub fn immune_count(&self) -> (r: usize)
        ensures
            r == self.spec_count(InfectionStatus::Immune),
    {
        self.count_by(InfectionStatus::Immune)
    }

    /// The ids of the agents in state `status`, ascending.
    fn ids_by(&self, status: InfectionStatus) -> (r: Vec<u32>)
        requires
            self.wf(),
        ensures
            forall|x: u32|
                r@.contains(x) <==> (self.has_agent(x) && self.spec_status(x) == status),
            forall|j: int, k: int| 0 <= j < k < r@.len() ==> r@[j] < r@[k],
            r@.len() == self.spec_count(status),
    {
        let mut r: Vec<u32> = Vec::new();
        let mut i: usize = 0;
        while i < self.agents.len()
            invariant
                self.wf(),
                i <= self.agents_seq().len(),
                forall|x: u32|
                    r@.contains(x) <==> (x < i && self.has_agent(x) && self.spec_status(x)
                        == status),
                forall|j: int, k: int| 0 <= j < k < r@.len() ==> r@[j] < r@[k],
                forall|j: int| 0 <= j < r@.len() ==> r@[j] < i,
                r@.len() == count_status(self.agents_seq().take(i as int), status),
            decreases self.agents_seq().len() - i,
        {
            proof {
                assert(self.agents_seq().take(i + 1).drop_last() =~= self.agents_seq().take(
                    i as int,
                ));
                assert(self.agents_seq().take(i + 1).last() == self.agents_seq()[i as int]);
            }
            if self.agents[i].infection_status == status {
                r.push(i as u32);
            }
            i = i + 1;
        }
        proof {
            assert(self.agents_seq().take(self.agents_seq().len() as int) =~= self.agents_seq());
        }
        r
    }

    /// The ids of the infected agents, ascending.
    pub fn get_infected_agent_ids(&self) -> (r: Vec<u32>)
        requires
            self.wf(),
        ensures
            forall|x: u32|
                r@.contains(x) <==> (self.has_agent(x) && self.spec_status(x)
                    == InfectionStatus::Infected),
            forall|j: int, k: int| 0 <= j < k < r@.len() ==> r@[j] < r@[k],
            r@.len() == self.spec_count(InfectionStatus::Infected),
    {
        self.ids_by(InfectionStatus::Infected)
    }

    /// The ids of the healthy agents, ascending.
    pub fn get_healthy_agent_ids(&self) -> (r: Vec<u32>)
        requires
            self.wf(),
        ensures
            forall|x: u32|
                r@.contains(x) <==> (self.has_agent(x) && self.spec_status(x)
                    == InfectionStatus::Healthy),
            forall|j: int, k: int| 0 <= j < k < r@.len() ==> r@[j] < r@[k],
            r@.len() == self.spec_count(InfectionStatus::Healthy),
    {
        self.ids_by(InfectionStatus::Healthy)
    }

    /// The ids of the immune agents, ascending.
    pub fn get_immune_agent_ids(&self) -> (r: Vec<u32>)
        requires
            self.wf(),
        ensures
            forall|x: u32|
                r@.contains(x) <==> (self.has_agent(x) && self.spec_status(x)
                    == InfectionStatus::Immune),
            forall|j: int, k: int| 0 <= j < k < r@.len() ==> r@[j] < r@[k],
            r@.len() == self.spec_count(InfectionStatus::Immune),
    {
        self.ids_by(InfectionStatus::Immune)
    }

    /// Seeds `agent_id` as initially infected, with no infector recorded.
    /// Fails with `NotFound` for an unknown id and with `NotHealthy` if the
    /// agent was already infected or immune; a failed seeding changes
    /// nothing, so `infected_by` is never overwritten.
    pub fn infect_patient_init(&mut self, agent_id: u32) -> (r: Result<(), DebateError>)
        requires
            old(self).wf(),
        ensures
            final(self).wf(),
            final(self).spec_topology() == old(self).spec_topology(),
            r.is_ok() <==> (old(self).has_agent(agent_id) && old(self).spec_status(agent_id)
                == InfectionStatus::Healthy),
            !old(self).has_agent(agent_id) ==> r == Err::<(), DebateError>(
                DebateError::NotFound(agent_id),
            ) && *final(self) == *old(self),
            old(self).has_agent(agent_id) && old(self).spec_status(agent_id)
                != InfectionStatus::Healthy ==> r == Err::<(), DebateError>(
                DebateError::NotHealthy(agent_id),
            ) && *final(self) == *old(self),
            r.is_ok() ==> final(self).agents_seq() == old(self).agents_seq().update(
                agent_id as int,
                (Agent {
                    infection_status: InfectionStatus::Infected,
                    infected_by: None,
                    ..old(self).spec_agent(agent_id)
                }),
            ),
            r.is_ok() ==> final(self).spec_count(InfectionStatus::Healthy) + 1 == old(
                self,
            ).spec_count(InfectionStatus::Healthy) && final(self).spec_count(
                InfectionStatus::Infected,
            ) == old(self).spec_count(InfectionStatus::Infected) + 1 && final(self).spec_count(
                InfectionStatus::Immune,
            ) == old(self).spec_count(InfectionStatus::Immune),
    {
        if (agent_id as usize) >= self.agents.len() {
            return Err(DebateError::NotFound(agent_id));
        }
        if !(self.agents[agent_id as usize].infection_status == InfectionStatus::Healthy) {
            return Err(DebateError::NotHealthy(agent_id));
        }
        let a = &mut self.agents[agent_id as usize];
        a.infection_status = InfectionStatus::Infected;
        a.infected_by = None;
        proof {
            let updated = self.agents@[agent_id as int];
            lemma_count_status_update(
                old(self).agents@,
                agent_id as int,
                updated,
                InfectionStatus::Healthy,
            );
            lemma_count_status_update(
                old(self).agents@,
                agent_id as int,
                updated,
                InfectionStatus::Infected,
            );
            lemma_count_status_update(
                old(self).agents@,
                agent_id as int,
                updated,
                InfectionStatus::Immune,
            );
        }
        Ok(())
    }

    /// Applies a concluded debate's outcome to the opposer: `ProposerWon`
    /// infects it (recording the proposer), `OpposerWon` makes it immune, and
    /// `Ongoing` changes nothing.  A decisive outcome is only applied to a
    /// healthy opposer, so an infected or immune agent never changes state
    /// here.
    pub fn apply_debate_outcome(
        &mut self,
        proposer_id: u32,
        opposer_id: u32,
        outcome: DebateOutcome,
    ) -> (r: Result<(), DebateError>)
        requires
            old(self).wf(),
        ensures
            final(self).wf(),
            final(self).spec_topology() == old(self).spec_topology(),
            final(self).agents_seq().len() == old(self).agents_seq().len(),
            r == old(self).spec_apply_outcome_result(opposer_id, outcome),
            r.is_err() ==> *final(self) == *old(self),
            r.is_ok() && outcome == DebateOutcome::Ongoing ==> *final(self) == *old(self),
            r.is_ok() && outcome == DebateOutcome::ProposerWon ==> final(self).agents_seq() == old(
                self,
            ).agents_seq().update(
                opposer_id as int,
                (Agent {
                    infection_status: InfectionStatus::Infected,
                    infected_by: Some(proposer_id),
                    ..old(self).spec_agent(opposer_id)
                }),
            ),
            r.is_ok() && outcome == DebateOutcome::OpposerWon ==> final(self).agents_seq() == old(
                self,
            ).agents_seq().update(
                opposer_id as int,
                (Agent {
                    infection_status: InfectionStatus::Immune,
                    ..old(self).spec_agent(opposer_id)
                }),
            ),
            r.is_ok() && outcome != DebateOutcome::Ongoing ==> final(self).spec_count(
                InfectionStatus::Healthy,
            ) + 1 == old(self).spec_count(InfectionStatus::Healthy),
            r.is_ok() && outcome == DebateOutcome::ProposerWon ==> final(self).spec_count(
                InfectionStatus::Infected,
            ) == old(self).spec_count(InfectionStatus::Infected) + 1 && final(self).spec_count(
                InfectionStatus::Immune,
            ) == old(self).spec_count(InfectionStatus::Immune),
            r.is_ok() && outcome == DebateOutcome::OpposerWon ==> final(self).spec_count(
                InfectionStatus::Immune,
            ) == old(self).spec_count(InfectionStatus::Immune) + 1 && final(self).spec_count(
                InfectionStatus::Infected,
            ) == old(self).spec_count(InfectionStatus::Infected),
    {
        if (opposer_id as usize) >= self.agents.len() {
            return Err(DebateError::NotFound(opposer_id));
        }
        match outcome {
            DebateOutcome::Ongoing => Ok(()),
            DebateOutcome::ProposerWon => {
                if !(self.agents[opposer_id as usize].infection_status
                    == InfectionStatus::Healthy) {
                    return Err(DebateError::NotHealthy(opposer_id));
                }
                let a = &mut self.agents[opposer_id as usize];
                a.infection_status = InfectionStatus::Infected;
                a.infected_by = Some(proposer_id);
                proof {
                    let updated = self.agents@[opposer_id as int];
                    lemma_count_status_update(
                        old(self).agents@,
                        opposer_id as int,
                        updated,
                        InfectionStatus::Healthy,
                    );
                    lemma_count_status_update(
                        old(self).agents@,
                        opposer_id as int,
                        updated,
                        InfectionStatus::Infected,
                    );
                    lemma_count_status_update(
                        old(self).agents@,
                        opposer_id as int,
                        updated,
                        InfectionStatus::Immune,
                    );
                }
                Ok(())
            },
            DebateOutcome::OpposerWon => {
                if !(self.agents[opposer_id as usize].infection_status
                    == InfectionStatus::Healthy) {
                    return Err(DebateError::NotHealthy(opposer_id));
                }
                let a = &mut self.agents[opposer_id as usize];
                a.infection_status = InfectionStatus::Immune;
                proof {
                    let updated = self.agents@[opposer_id as int];
                    lemma_count_status_update(
                        old(self).agents@,
                        opposer_id as int,
                        updated,
                        InfectionStatus::Healthy,
                    );
                    lemma_count_status_update(
                        old(self).agents@,
                        opposer_id as int,
                        updated,
                        InfectionStatus::Infected,
                    );
                    lemma_count_status_update(
                        old(self).agents@,
                        opposer_id as int,
                        updated,
                        InfectionStatus::Immune,
                    );
                }
                Ok(())
            },
        }
    }

    /// Checks every eligibility clause for the pair, in order, and names the
    /// first violated one.
    pub fn can_debate(&self, proposer_id: u32, opposer_id: u32) -> (r: Result<(), DebateError>)
        requires
            self.wf(),
        ensures
            r == self.spec_can_debate(proposer_id, opposer_id),
    {
        if (proposer_id as usize) >= self.agents.len() {
            return Err(DebateError::NotFound(proposer_id));
        }
        if (opposer_id as usize) >= self.agents.len() {
            return Err(DebateError::NotFound(opposer_id));
        }
        if !(self.agents[proposer_id as usize].infection_status == InfectionStatus::Infected) {
            return Err(DebateError::NotInfected(proposer_id));
        }
        if !(self.agents[opposer_id as usize].infection_status == InfectionStatus::Healthy) {
            return Err(DebateError::NotHealthy(opposer_id));
        }
        match &self.topology {
            None => Err(DebateError::NoTopology),
            Some(t) => {
                if !t.are_connected(proposer_id, opposer_id) {
                    Err(DebateError::NotConnected(proposer_id, opposer_id))
                } else {
                    Ok(())
                }
            },
        }
    }

    /// The healthy agents connected to `infector_id`, each once.
    pub fn get_potential_targets(&self, infector_id: u32) -> (r: Vec<u32>)
        requires
            self.wf(),
        ensures
            forall|x: u32| r@.contains(x) <==> self.spec_potential_target(infector_id, x),
            forall|j: int, k: int| 0 <= j < k < r@.len() ==> r@[j] != r@[k],
    {
        match &self.topology {
            None => Vec::new(),
            Some(t) => {
                let neighbors = t.get_neighbors(infector_id);
                let mut r: Vec<u32> = Vec::new();
                let mut i: usize = 0;
                while i < neighbors.len()
                    invariant
                        self.wf(),
                        i <= neighbors@.len(),
                        self.spec_topology() == Some(*t),
                        forall|x: u32| neighbors@.contains(x) <==> t.spec_connected(infector_id, x),
                        forall|j: int, k: int|
                            0 <= j < k < neighbors@.len() ==> neighbors@[j] != neighbors@[k],
                        forall|x: u32| #![trigger r@.contains(x)]
                            r@.contains(x) <==> ((exists|j: int|
                                0 <= j < i && #[trigger] neighbors@[j] == x) && self.has_agent(x)
                                && self.spec_status(x) == InfectionStatus::Healthy),
                        forall|j: int, k: int| 0 <= j < k < r@.len() ==> r@[j] != r@[k],
                    decreases neighbors@.len() - i,
                {
                    let nb = neighbors[i];
                    let healthy_target: bool = (nb as usize) < self.agents.len()
                        && self.agents[nb as usize].infection_status == InfectionStatus::Healthy;
                    if healthy_target {
                        proof {
                            assert(!r@.contains(nb)) by {
                                if r@.contains(nb) {
                                    assert((exists|j: int|
                                        0 <= j < i && #[trigger] neighbors@[j] == nb));
                                    let j = choose|j: int|
                                        0 <= j < i && #[trigger] neighbors@[j] == nb;
                                    assert(neighbors@[j] == neighbors@[i as int]);
                                }
                            }
                        }
                        let ghost r0 = r@;
                        r.push(nb);
                        proof {
                            assert forall|x: u32|
                                r@.contains(x) <==> ((exists|j: int|
                                    0 <= j < i + 1 && #[trigger] neighbors@[j] == x)
                                    && self.has_agent(x) && self.spec_status(x)
                                    == InfectionStatus::Healthy) by {
                                if r@.contains(x) {
                                    let k = choose|k: int| 0 <= k < r@.len() && r@[k] == x;
                                    if k < r@.len() - 1 {
                                        assert(r0[k] == x);
                                        assert(r0.contains(x));
                                    } else {
                                        assert(x == nb);
                                        assert(neighbors@[i as int] == x);
                                    }
                                }
                                if (exists|j: int| 0 <= j < i + 1 && #[trigger] neighbors@[j] == x)
                                    && self.has_agent(x) && self.spec_status(x)
                                    == InfectionStatus::Healthy {
                                    let j = choose|j: int|
                                        0 <= j < i + 1 && #[trigger] neighbors@[j] == x;
                                    if j < i {
                                        assert(r0.contains(x));
                                        let k = choose|k: int| 0 <= k < r0.len() && r0[k] == x;
                                        assert(r@[k] == x);
                                    } else {
                                        assert(r@[r@.len() - 1] == x);
                                    }
                                }
                            }
                        }
                    } else {
                        proof {
                            assert forall|x: u32|
                                r@.contains(x) <==> ((exists|j: int|
                                    0 <= j < i + 1 && #[trigger] neighbors@[j] == x)
                                    && self.has_agent(x) && self.spec_status(x)
                                    == InfectionStatus::Healthy) by {
                                if (exists|j: int| 0 <= j < i + 1 && #[trigger] neighbors@[j] == x)
                                    && self.has_agent(x) && self.spec_status(x)
                                    == InfectionStatus::Healthy {
                                    let j = choose|j: int|
                                        0 <= j < i + 1 && #[trigger] neighbors@[j] == x;
                                    assert(j != i);
                                }
                            }
                        }
                    }
                    i = i + 1;
                }
                proof {
                    assert forall|x: u32|
                        r@.contains(x) <==> self.spec_potential_target(infector_id, x) by {
                        if r@.contains(x) {
                            let j = choose|j: int|
                                0 <= j < neighbors@.len() && #[trigger] neighbors@[j] == x;
                            assert(neighbors@.contains(x));
                        }
                        if self.spec_potential_target(infector_id, x) {
                            assert(neighbors@.contains(x));
                            let j = choose|j: int|
                                0 <= j < neighbors@.len() && neighbors@[j] == x;
                            assert(0 <= j < neighbors@.len() && #[trigger] neighbors@[j] == x);
                        }
                    }
                }
                r
            },
        }
    }

    /// Snapshot of the registry statistics.  Conservation holds: the three
    /// state counts sum to the total.
    pub fn get_statistics(&self) -> (s: RegistryStatistics)
        requires
            self.wf(),
        ensures
            s.total_agents == self.agents_seq().len(),
            s.infected_agents == self.spec_count(InfectionStatus::Infected),
            s.healthy_agents == self.spec_count(InfectionStatus::Healthy),
            s.immune_agents == self.spec_count(InfectionStatus::Immune),
            s.total_agents == s.healthy_agents + s.infected_agents + s.immune_agents,
            s.total_connections == match self.spec_topology() {
                Some(t) => t.edges().len(),
                None => 0nat,
            },
    {
        proof {
            lemma_status_partition(self.agents_seq());
        }
        RegistryStatistics {
            total_agents: self.agent_count(),
            infected_agents: self.infected_count(),
            healthy_agents: self.healthy_count(),
            immune_agents: self.immune_count(),
            total_connections: match &self.topology {
                Some(t) => t.connection_count(),
                None => 0,
            },
        }
    }
}

impl Default for Registry {
    fn default() -> (r: Self)
        ensures
            r.wf(),
            r.agents_seq() == Seq::<Agent>::empty(),
            r.spec_topology() == None::<Topology>,
    {
        Self::new()
    }
}

} // verus!
