//! A verified propagation engine: agents connected by an undirected topology
//! contest each other in pairwise debates, and an infection-style state
//! machine (healthy / infected / immune) spreads across the network under a
//! batched scheduler that guarantees conservation, monotonicity, at-most-once
//! contests and termination.

pub mod agent;
pub mod debate;
pub mod decimal;
pub mod engine;
pub mod errors;
pub mod registry;
pub mod topology;
mod vecs;
pub mod verdict;

pub use agent::{Agent, InfectionStatus};
pub use debate::{Debate, DebateOutcome, Exchange, Message};
pub use engine::{AttemptLog, ContestResolver, Simulation, SimulationResult};
pub use errors::DebateError;
pub use registry::{Registry, RegistryStatistics};
pub use topology::{Topology, TopologyBuilder};
