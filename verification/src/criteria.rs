//! Ranking criteria and the tokens that name them.

use crate::text::{chars_of, lowercase_of, spells, to_lowercase};
use vstd::prelude::*;

verus! {

/// One component of the sort key of a match. The plain variants rank by the
/// value itself, the `Neg` variants by its negation.
#[derive(Clone, Copy, PartialEq, Eq, Debug, Structural)]
pub enum RankCriteria {
    Score,
    Index,
    Begin,
    End,
    NegScore,
    NegIndex,
    NegBegin,
    NegEnd,
}

/// The criterion that a lower-case token names, if it names one.
pub open spec fn criteria_of(token: Seq<char>) -> Option<RankCriteria> {
    if token == "score"@ {
        Some(RankCriteria::Score)
    } else if token == "index"@ {
        Some(RankCriteria::Index)
    } else if token == "begin"@ {
        Some(RankCriteria::Begin)
    } else if token == "end"@ {
        Some(RankCriteria::End)
    } else if token == "-score"@ {
        Some(RankCriteria::NegScore)
    } else if token == "-index"@ {
        Some(RankCriteria::NegIndex)
    } else if token == "-begin"@ {
        Some(RankCriteria::NegBegin)
    } else if token == "-end"@ {
        Some(RankCriteria::NegEnd)
    } else {
        None
    }
}

/// Reads a token that is already in lower case. Exactly the eight tokens
/// `score`, `index`, `begin`, `end` and their `-` forms are recognized.
pub fn criteria_from_token(token: &str) -> (r: Option<RankCriteria>)
    ensures
        r == criteria_of(token@),
{
    let chars = chars_of(token);
    let t = chars.as_slice();
    if spells(t, "score") {
        Some(RankCriteria::Score)
    } else if spells(t, "index") {
        Some(RankCriteria::Index)
    } else if spells(t, "begin") {
        Some(RankCriteria::Begin)
    } else if spells(t, "end") {
        Some(RankCriteria::End)
    } else if spells(t, "-score") {
        Some(RankCriteria::NegScore)
    } else if spells(t, "-index") {
        Some(RankCriteria::NegIndex)
    } else if spells(t, "-begin") {
        Some(RankCriteria::NegBegin)
    } else if spells(t, "-end") {
        Some(RankCriteria::NegEnd)
    } else {
        None
    }
}

/// Reads a criterion from text, ignoring case: the text is put into lower
/// case and then read as a token. Text that names no criterion gives `None`.
pub fn parse_criteria(text: &str) -> (r: Option<RankCriteria>)
    ensures
        r == criteria_of(lowercase_of(text@)),
{
    let lowered = to_lowercase(text);
    criteria_from_token(lowered.as_str())
}

} // verus!
