//! Pairwise contests: the exchange record of one debate between a proposer
//! (an infected challenger) and an opposer (a healthy responder), and the
//! verdict that concludes it.
//!
//! A `Debate` is owned by the task that runs it until it is handed back to
//! the scheduler; once a concluding outcome is set the record is never
//! mutated again.

use vstd::prelude::*;

use crate::decimal::{spec_dec, u64_to_string};

verus! {

/// One utterance, tagged with a per-debate message id.
#[derive(Debug, Clone, PartialEq)]
pub struct Message {
    pub id: u32,
    pub message: String,
}

/// One round of a debate: the proposer's message and the opposer's reply.
#[derive(Debug, Clone, PartialEq)]
pub struct Exchange {
    pub proposer: Message,
    pub opposer: Message,
}

/// The verdict of a debate. `Ongoing` is transient: it must never be applied
/// to the registry.
#[derive(Debug, Clone, Copy, PartialEq, Eq, Structural)]
pub enum DebateOutcome {
    Ongoing,
    ProposerWon,
    OpposerWon,
}

impl Default for DebateOutcome {
    fn default() -> (r: Self)
        ensures
            r == DebateOutcome::Ongoing,
    {
        DebateOutcome::Ongoing
    }
}

/// The verdict label used in transcripts.
pub open spec fn spec_outcome_label(o: DebateOutcome) -> Seq<char> {
    match o {
        DebateOutcome::Ongoing => "Ongoing"@,
        DebateOutcome::ProposerWon => "Proposer won"@,
        DebateOutcome::OpposerWon => "Opposer won"@,
    }
}

impl DebateOutcome {
    /// Human-readable verdict label.
    pub fn label(&self) -> (s: &'static str)
        ensures
            s@ == spec_outcome_label(*self),
    {
        match self {
            DebateOutcome::Ongoing => "Ongoing",
            DebateOutcome::ProposerWon => "Proposer won",
            DebateOutcome::OpposerWon => "Opposer won",
        }
    }
}

/// A full debate between two agents, referenced by their ids.
#[derive(Debug, Clone, PartialEq)]
pub struct Debate {
    pub proposer_id: u32,
    pub opposer_id: u32,
    /// Number of exchange rounds the debate is configured to run.
    pub max_turns: usize,
    pub exchanges: Vec<Exchange>,
    /// The judge's verdict; `Ongoing` until one is set.
    pub outcome: DebateOutcome,
}

/// The header of a transcript: participants, configuration and status.
pub open spec fn spec_transcript_header(d: Debate) -> Seq<char> {
    "Debate: Agent "@ + spec_dec(d.proposer_id as nat) + " (Proposer) vs Agent "@
        + spec_dec(d.opposer_id as nat) + " (Opposer)\nMax turns per agent: "@
        + spec_dec(d.max_turns as nat) + "\nStatus: "@ + spec_outcome_label(d.outcome) + "\n\n"@
}

/// The transcript block of round `i` (zero-based; printed one-based).
pub open spec fn spec_round_block(d: Debate, i: int) -> Seq<char>
    recommends
        0 <= i < d.exchanges@.len(),
{
    "Round "@ + spec_dec((i + 1) as nat) + "\nAgent "@ + spec_dec(d.proposer_id as nat)
        + " (Proposer) Message: "@ + d.exchanges@[i].proposer.message@ + "\nAgent "@
        + spec_dec(d.opposer_id as nat) + " (Opposer) Reply: "@ + d.exchanges@[i].opposer.message@
        + "\n\n"@
}

/// The concatenation of the first `n` round blocks.
pub open spec fn spec_rounds(d: Debate, n: int) -> Seq<char>
    decreases n,
{
    if n <= 0 {
        Seq::empty()
    } else {
        spec_rounds(d, n - 1) + spec_round_block(d, n - 1)
    }
}

/// The whole transcript of a debate.
pub open spec fn spec_transcript(d: Debate) -> Seq<char> {
    spec_transcript_header(d) + spec_rounds(d, d.exchanges@.len() as int) + "Outcome: "@
        + spec_outcome_label(d.outcome)
}

impl Debate {
    /// A fresh debate with no exchanges and no verdict yet.
    pub fn new(proposer_id: u32, opposer_id: u32, max_turns: usize) -> (d: Self)
        ensures
            d.proposer_id == proposer_id,
            d.opposer_id == opposer_id,
            d.max_turns == max_turns,
            d.exchanges@ == Seq::<Exchange>::empty(),
            d.outcome == DebateOutcome::Ongoing,
    {
        Self {
            proposer_id,
            opposer_id,
            max_turns,
            exchanges: Vec::new(),
            outcome: DebateOutcome::Ongoing,
        }
    }

    /// Records one more exchange round.
    pub fn add_exchange(&mut self, exchange: Exchange)
        ensures
            final(self).exchanges@ == old(self).exchanges@.push(exchange),
            final(self).proposer_id == old(self).proposer_id,
            final(self).opposer_id == old(self).opposer_id,
            final(self).max_turns == old(self).max_turns,
            final(self).outcome == old(self).outcome,
    {
        self.exchanges.push(exchange);
    }

    /// Whether the debate has recorded exactly `max_turns` exchange rounds,
    /// the full count a contest must produce before it is judged.
    pub fn is_complete(&self) -> (r: bool)
        ensures
            r == (self.exchanges@.len() == self.max_turns),
    {
        self.exchanges.len() == self.max_turns
    }

    /// Sets the judge's verdict.
    pub fn set_outcome(&mut self, outcome: DebateOutcome)
        ensures
            final(self).outcome == outcome,
            final(self).proposer_id == old(self).proposer_id,
            final(self).opposer_id == old(self).opposer_id,
            final(self).max_turns == old(self).max_turns,
            final(self).exchanges@ == old(self).exchanges@,
    {
        self.outcome = outcome;
    }

    /// Builds the transcript block of round `i`.
    fn round_block_string(&self, i: usize) -> (s: String)
        requires
            i < self.exchanges@.len(),
            self.exchanges@.len() <= usize::MAX,
        ensures
            s@ == spec_round_block(*self, i as int),
    {
        let mut s = String::new();
        s.append("Round ");
        let round = u64_to_string((i as u64) + 1);
        assert(round@ == spec_dec((i + 1) as nat));
        s.append(round.as_str());
        s.append("\nAgent ");
        let pid = u64_to_string(self.proposer_id as u64);
        assert(pid@ == spec_dec(self.proposer_id as nat));
        s.append(pid.as_str());
        s.append(" (Proposer) Message: ");
        s.append(self.exchanges[i].proposer.message.as_str());
        s.append("\nAgent ");
        let oid = u64_to_string(self.opposer_id as u64);
        assert(oid@ == spec_dec(self.opposer_id as nat));
        s.append(oid.as_str());
        s.append(" (Opposer) Reply: ");
        s.append(self.exchanges[i].opposer.message.as_str());
        s.append("\n\n");
        assert(s@ =~= spec_round_block(*self, i as int));
        s
    }

    /// Renders the debate as a transcript; the result is exactly
    /// `spec_transcript(*self)`.
    pub fn format_transcript(&self) -> (t: String)
        ensures
            t@ == spec_transcript(*self),
    {
        let mut t = String::new();
        t.append("Debate: Agent ");
        let pid = u64_to_string(self.proposer_id as u64);
        t.append(pid.as_str());
        t.append(" (Proposer) vs Agent ");
        let oid = u64_to_string(self.opposer_id as u64);
        t.append(oid.as_str());
        t.append(" (Opposer)\nMax turns per agent: ");
        let turns = u64_to_string(self.max_turns as u64);
        t.append(turns.as_str());
        t.append("\nStatus: ");
        t.append(self.outcome.label());
        t.append("\n\n");
        assert(t@ =~= spec_transcript_header(*self));

        let mut i: usize = 0;
        while i < self.exchanges.len()
            invariant
                i <= self.exchanges@.len(),
                t@ == spec_transcript_header(*self) + spec_rounds(*self, i as int),
            decreases self.exchanges@.len() - i,
        {
            let block = self.round_block_string(i);
            t.append(block.as_str());
            assert(t@ =~= spec_transcript_header(*self) + spec_rounds(*self, i + 1)) by {
                assert(spec_rounds(*self, i + 1) == spec_rounds(*self, i as int) + spec_round_block(
                    *self,
                    i as int,
                ));
            }
            i = i + 1;
        }
        t.append("Outcome: ");
        t.append(self.outcome.label());
        assert(t@ =~= spec_transcript(*self));
        t
    }
}

} // verus!
