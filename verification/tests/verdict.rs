use debate_sim::verdict::{judge_transcript, parse_verdict, str_contains};
use debate_sim::{DebateError, DebateOutcome, Exchange, Message};

#[test]
fn test_parse_verdict_proposition() {
    assert_eq!(
        parse_verdict("WINNER: PROPOSITION"),
        Ok(DebateOutcome::ProposerWon)
    );
}

#[test]
fn test_parse_verdict_opposition() {
    assert_eq!(
        parse_verdict("WINNER: OPPOSITION"),
        Ok(DebateOutcome::OpposerWon)
    );
}

#[test]
fn test_parse_verdict_prefers_proposition() {
    // both roles named: the proposition check runs first
    assert_eq!(
        parse_verdict("PROPOSITION beat OPPOSITION"),
        Ok(DebateOutcome::ProposerWon)
    );
}

#[test]
fn test_parse_verdict_unparseable() {
    // an ambiguous response never defaults to a winner
    assert_eq!(
        parse_verdict("the proposition won"),
        Err(DebateError::UnparseableVerdict)
    );
    assert_eq!(parse_verdict(""), Err(DebateError::UnparseableVerdict));
}

#[test]
fn test_str_contains() {
    assert!(str_contains("abcdef", "cde"));
    assert!(str_contains("abcdef", ""));
    assert!(str_contains("abc", "abc"));
    assert!(!str_contains("abc", "abcd"));
    assert!(!str_contains("abcdef", "ce"));
}

#[test]
fn test_judge_transcript_exact() {
    let exchanges = vec![Exchange {
        proposer: Message {
            id: 0,
            message: "a".to_string(),
        },
        opposer: Message {
            id: 1,
            message: "b".to_string(),
        },
    }];
    let expected = "Topic: pizza\n\nRound 1:\nPROPOSITION: a\nOPPOSITION: b\n\n";
    assert_eq!(judge_transcript("pizza", &exchanges), expected);
}

#[test]
fn test_judge_transcript_empty() {
    let exchanges: Vec<Exchange> = Vec::new();
    assert_eq!(judge_transcript("t", &exchanges), "Topic: t\n\n");
}
