//! Agents: the nodes of the network.
//!
//! An agent carries a stable id, the model tag naming which resolver profile
//! it debates with, a three-state infection status, its debate history, and
//! an optional back-reference to the agent that infected it.

use vstd::prelude::*;

use crate::debate::Debate;

verus! {

/// The three states of an agent. `Healthy` is the initial state, `Infected`
/// propagates, `Immune` is terminal.
#[derive(Debug, Clone, Copy, PartialEq, Eq, Structural)]
pub enum InfectionStatus {
    Healthy,
    Infected,
    Immune,
}

impl Default for InfectionStatus {
    fn default() -> (r: Self)
        ensures
            r == InfectionStatus::Healthy,
    {
        InfectionStatus::Healthy
    }
}

/// One participant in the network.
#[derive(Debug, Clone)]
pub struct Agent {
    pub id: u32,
    /// The model tag this agent debates with.
    pub model: String,
    pub infection_status: InfectionStatus,
    /// Debates this agent took part in, oldest first.
    pub debate_history: Vec<Debate>,
    /// The agent that infected this one; `None` for seed agents and for
    /// agents never infected.
    pub infected_by: Option<u32>,
}

impl Agent {
    /// A fresh, healthy agent with no history.
    pub fn new(id: u32, model: String) -> (a: Self)
        ensures
            a.id == id,
            a.model == model,
            a.infection_status == InfectionStatus::Healthy,
            a.debate_history@ == Seq::<Debate>::empty(),
            a.infected_by == None::<u32>,
    {
        Self {
            id,
            model,
            infection_status: InfectionStatus::Healthy,
            debate_history: Vec::new(),
            infected_by: None,
        }
    }

    pub fn is_infected(&self) -> (r: bool)
        ensures
            r == (self.infection_status == InfectionStatus::Infected),
    {
        self.infection_status == InfectionStatus::Infected
    }

    pub fn is_healthy(&self) -> (r: bool)
        ensures
            r == (self.infection_status == InfectionStatus::Healthy),
    {
        self.infection_status == InfectionStatus::Healthy
    }

    pub fn is_immune(&self) -> (r: bool)
        ensures
            r == (self.infection_status == InfectionStatus::Immune),
    {
        self.infection_status == InfectionStatus::Immune
    }

    /// Marks this agent infected by `infected_by`; called when it loses a
    /// debate.
    pub fn infect(&mut self, infected_by: u32)
        ensures
            final(self).infection_status == InfectionStatus::Infected,
            final(self).infected_by == Some(infected_by),
            final(self).id == old(self).id,
            final(self).model == old(self).model,
            final(self).debate_history@ == old(self).debate_history@,
    {
        self.infection_status = InfectionStatus::Infected;
        self.infected_by = Some(infected_by);
    }

    /// Marks this agent immune; called when it wins a debate.
    pub fn immune(&mut self)
        ensures
            final(self).infection_status == InfectionStatus::Immune,
            final(self).infected_by == old(self).infected_by,
            final(self).id == old(self).id,
            final(self).model == old(self).model,
            final(self).debate_history@ == old(self).debate_history@,
    {
        self.infection_status = InfectionStatus::Immune;
    }

    /// Logs a finished debate to this agent's history.
    pub fn add_debate(&mut self, debate: Debate)
        ensures
            final(self).debate_history@ == old(self).debate_history@.push(debate),
            final(self).id == old(self).id,
            final(self).model == old(self).model,
            final(self).infection_status == old(self).infection_status,
            final(self).infected_by == old(self).infected_by,
    {
        self.debate_history.push(debate);
    }
}

} // verus!
