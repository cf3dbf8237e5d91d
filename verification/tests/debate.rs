use debate_sim::{Debate, DebateOutcome, Exchange, Message};

fn exchange(id: u32, proposer_text: &str, opposer_text: &str) -> Exchange {
    Exchange {
        proposer: Message {
            id,
            message: proposer_text.to_string(),
        },
        opposer: Message {
            id: id + 1,
            message: opposer_text.to_string(),
        },
    }
}

#[test]
fn test_new_debate_is_empty() {
    let debate = Debate::new(4, 9, 3);
    assert_eq!(debate.proposer_id, 4);
    assert_eq!(debate.opposer_id, 9);
    assert_eq!(debate.max_turns, 3);
    assert_eq!(debate.exchanges.len(), 0);
    assert_eq!(debate.outcome, DebateOutcome::Ongoing);
}

#[test]
fn test_add_exchange_and_completion() {
    let mut debate = Debate::new(0, 1, 1);
    assert!(!debate.is_complete());

    debate.add_exchange(exchange(0, "a", "b"));
    assert!(debate.is_complete());

    // a debate configured for zero rounds is complete as created
    assert!(Debate::new(5, 6, 0).is_complete());
}

#[test]
fn test_set_outcome() {
    let mut debate = Debate::new(0, 1, 2);
    debate.set_outcome(DebateOutcome::OpposerWon);
    assert_eq!(debate.outcome, DebateOutcome::OpposerWon);
    assert_eq!(debate.outcome.label(), "Opposer won");
}

#[test]
fn test_outcome_default_is_ongoing() {
    assert_eq!(DebateOutcome::default(), DebateOutcome::Ongoing);
    assert_eq!(DebateOutcome::Ongoing.label(), "Ongoing");
    assert_eq!(DebateOutcome::ProposerWon.label(), "Proposer won");
}

#[test]
fn test_format_transcript_exact() {
    let mut debate = Debate::new(1, 2, 2);
    debate.add_exchange(exchange(0, "hi", "no"));
    debate.set_outcome(DebateOutcome::ProposerWon);

    let expected = "Debate: Agent 1 (Proposer) vs Agent 2 (Opposer)\n\
                    Max turns per agent: 2\n\
                    Status: Proposer won\n\n\
                    Round 1\n\
                    Agent 1 (Proposer) Message: hi\n\
                    Agent 2 (Opposer) Reply: no\n\n\
                    Outcome: Proposer won";
    assert_eq!(debate.format_transcript(), expected);
}

#[test]
fn test_format_transcript_no_rounds() {
    let debate = Debate::new(0, 3, 1);
    let expected = "Debate: Agent 0 (Proposer) vs Agent 3 (Opposer)\n\
                    Max turns per agent: 1\n\
                    Status: Ongoing\n\n\
                    Outcome: Ongoing";
    assert_eq!(debate.format_transcript(), expected);
}

#[test]
fn test_decimal_rendering() {
    assert_eq!(debate_sim::decimal::u64_to_string(0), "0");
    assert_eq!(debate_sim::decimal::u64_to_string(7), "7");
    assert_eq!(debate_sim::decimal::u64_to_string(40), "40");
    assert_eq!(debate_sim::decimal::u64_to_string(907), "907");
    assert_eq!(
        debate_sim::decimal::u64_to_string(18446744073709551615),
        "18446744073709551615"
    );
}
