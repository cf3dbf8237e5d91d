//! Error taxonomy of the engine.
//!
//! `NotFound` reports an unknown agent id in a state-mutating call.  The
//! eligibility variants (`NotInfected`, `NotHealthy`, `NoTopology`,
//! `NotConnected`) name the precondition clause an ineligible contest
//! violated; the scheduler treats those as a skip, not a fatal error.
//! `UnparseableVerdict` reports a judge response naming neither concluding
//! outcome; it is fatal and never defaults to a winner.

use vstd::prelude::*;

verus! {

#[derive(Debug, Clone, Copy, PartialEq, Eq, Structural)]
pub enum DebateError {
    /// The named agent id is not registered.
    NotFound(u32),
    /// The named proposer is not infected, so it cannot challenge.
    NotInfected(u32),
    /// The named opposer is not healthy, so it cannot be challenged.
    NotHealthy(u32),
    /// The registry has no topology, so no two agents are connected.
    NoTopology,
    /// The two named agents share no connection.
    NotConnected(u32, u32),
    /// The resolver returned a contest record for the wrong pair.
    ResolverFailure,
    /// A judge response named neither concluding outcome.
    UnparseableVerdict,
}

} // verus!
