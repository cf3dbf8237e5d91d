//! Judge-facing helpers: building the transcript a judge reads, and parsing
//! the judge's response into a verdict.
//!
//! A response naming neither role fails with `UnparseableVerdict`; it never
//! defaults to a winner, which would bias the propagation.

use vstd::prelude::*;

use crate::debate::{DebateOutcome, Exchange};
use crate::decimal::{spec_dec, u64_to_string};
use crate::errors::DebateError;

verus! {

/// Whether `needle` occurs in `hay` starting at position `i`.
pub open spec fn matches_at(hay: Seq<char>, needle: Seq<char>, i: int) -> bool {
    0 <= i && i + needle.len() <= hay.len() && hay.subrange(i, i + needle.len() as int) == needle
}

/// Whether `needle` occurs anywhere in `hay`.
pub open spec fn contains_seq(hay: Seq<char>, needle: Seq<char>) -> bool {
    exists|i: int| matches_at(hay, needle, i)
}

/// Whether `needle` starts at position `i` of `hay`.
fn match_at(hay: &str, needle: &str, i: usize) -> (r: bool)
    requires
        i + needle@.len() <= hay@.len(),
        hay@.len() <= usize::MAX,
    ensures
        r == matches_at(hay@, needle@, i as int),
{
    let nn = needle.unicode_len();
    let mut j: usize = 0;
    while j < nn
        invariant
            nn == needle@.len(),
            i + nn <= hay@.len(),
            hay@.len() <= usize::MAX,
            j <= nn,
            forall|k: int| 0 <= k < j ==> hay@[i + k] == needle@[k],
        decreases nn - j,
    {
        let hc = hay.get_char(i + j);
        let nc = needle.get_char(j);
        if hc != nc {
            proof {
                assert(!matches_at(hay@, needle@, i as int)) by {
                    if matches_at(hay@, needle@, i as int) {
                        assert(hay@.subrange(i as int, i + nn as int)[j as int] == needle@[j as int]);
                    }
                }
            }
            return false;
        }
        j = j + 1;
    }
    proof {
        assert(hay@.subrange(i as int, i + nn as int) =~= needle@);
    }
    true
}

/// Whether `hay` holds `needle` as a contiguous run of characters.
pub fn str_contains(hay: &str, needle: &str) -> (r: bool)
    ensures
        r == contains_seq(hay@, needle@),
{
    let hn = hay.unicode_len();
    let nn = needle.unicode_len();
    if nn > hn {
        proof {
            assert(!contains_seq(hay@, needle@)) by {
                if contains_seq(hay@, needle@) {
                    let k = choose|k: int| matches_at(hay@, needle@, k);
                }
            }
        }
        return false;
    }
    let mut i: usize = 0;
    while i <= hn - nn
        invariant
            hn == hay@.len(),
            nn == needle@.len(),
            nn <= hn,
            i <= hn - nn + 1,
            forall|k: int| 0 <= k < i ==> !matches_at(hay@, needle@, k),
        decreases hn - nn - i + 1,
    {
        if match_at(hay, needle, i) {
            assert(matches_at(hay@, needle@, i as int));
            return true;
        }
        proof {
            assert(nn > 0) by {
                if nn == 0 {
                    assert(hay@.subrange(i as int, i as int) =~= needle@);
                    assert(matches_at(hay@, needle@, i as int));
                }
            }
        }
        i = i + 1;
    }
    proof {
        assert(!contains_seq(hay@, needle@)) by {
            if contains_seq(hay@, needle@) {
                let k = choose|k: int| matches_at(hay@, needle@, k);
                assert(k <= hn - nn);
            }
        }
    }
    false
}

/// The verdict a judge response encodes: the proposer prevails if the
/// response names the proposition, else the opposer if it names the
/// opposition; anything else is unparseable.
pub open spec fn spec_parse_verdict(response: Seq<char>) -> Result<DebateOutcome, DebateError> {
    if contains_seq(response, "PROPOSITION"@) {
        Ok(DebateOutcome::ProposerWon)
    } else if contains_seq(response, "OPPOSITION"@) {
        Ok(DebateOutcome::OpposerWon)
    } else {
        Err(DebateError::UnparseableVerdict)
    }
}

/// Parses a judge response into a concluding outcome.  A response that names
/// neither role is a fatal `UnparseableVerdict`: no default winner is picked.
pub fn parse_verdict(response: &str) -> (r: Result<DebateOutcome, DebateError>)
    ensures
        r == spec_parse_verdict(response@),
{
    if str_contains(response, "PROPOSITION") {
        Ok(DebateOutcome::ProposerWon)
    } else if str_contains(response, "OPPOSITION") {
        Ok(DebateOutcome::OpposerWon)
    } else {
        Err(DebateError::UnparseableVerdict)
    }
}

/// The transcript block the judge reads for round `i` (zero-based).
pub open spec fn spec_judge_round(exchanges: Seq<Exchange>, i: int) -> Seq<char>
    recommends
        0 <= i < exchanges.len(),
{
    "Round "@ + spec_dec((i + 1) as nat) + ":\nPROPOSITION: "@ + exchanges[i].proposer.message@
        + "\nOPPOSITION: "@ + exchanges[i].opposer.message@ + "\n\n"@
}

/// The concatenation of the first `n` judge-facing round blocks.
pub open spec fn spec_judge_rounds(exchanges: Seq<Exchange>, n: int) -> Seq<char>
    decreases n,
{
    if n <= 0 {
        Seq::empty()
    } else {
        spec_judge_rounds(exchanges, n - 1) + spec_judge_round(exchanges, n - 1)
    }
}

/// The whole transcript handed to the judge: topic, then every round.
pub open spec fn spec_judge_transcript(topic: Seq<char>, exchanges: Seq<Exchange>) -> Seq<char> {
    "Topic: "@ + topic + "\n\n"@ + spec_judge_rounds(exchanges, exchanges.len() as int)
}

/// Builds the judge-facing block of round `i`.
fn judge_round_string(exchanges: &Vec<Exchange>, i: usize) -> (s: String)
    requires
        i < exchanges@.len(),
        exchanges@.len() <= usize::MAX,
    ensures
        s@ == spec_judge_round(exchanges@, i as int),
{
    let mut s = String::new();
    s.append("Round ");
    let round = u64_to_string((i as u64) + 1);
    assert(round@ == spec_dec((i + 1) as nat));
    s.append(round.as_str());
    s.append(":\nPROPOSITION: ");
    s.append(exchanges[i].proposer.message.as_str());
    s.append("\nOPPOSITION: ");
    s.append(exchanges[i].opposer.message.as_str());
    s.append("\n\n");
    assert(s@ =~= spec_judge_round(exchanges@, i as int));
    s
}

/// Renders the transcript the judge evaluates; the result is exactly
/// `spec_judge_transcript(topic@, exchanges@)`.
pub fn judge_transcript(topic: &str, exchanges: &Vec<Exchange>) -> (t: String)
    ensures
        t@ == spec_judge_transcript(topic@, exchanges@),
{
    let mut t = String::new();
    t.append("Topic: ");
    t.append(topic);
    t.append("\n\n");
    let mut i: usize = 0;
    while i < exchanges.len()
        invariant
            i <= exchanges@.len(),
            t@ == "Topic: "@ + topic@ + "\n\n"@ + spec_judge_rounds(exchanges@, i as int),
        decreases exchanges@.len() - i,
    {
        let block = judge_round_string(exchanges, i);
        t.append(block.as_str());
        assert(t@ =~= "Topic: "@ + topic@ + "\n\n"@ + spec_judge_rounds(exchanges@, i + 1)) by {
            assert(spec_judge_rounds(exchanges@, i + 1) == spec_judge_rounds(exchanges@, i as int)
                + spec_judge_round(exchanges@, i as int));
        }
        i = i + 1;
    }
    t
}

} // verus!
