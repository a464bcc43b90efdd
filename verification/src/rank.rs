//! The sort key of a match.

use crate::criteria::RankCriteria;
use vstd::prelude::*;

verus! {

/// The value that one criterion picks from the four measures of a match.
pub open spec fn resolve(c: RankCriteria, score: int, index: int, begin: int, end: int) -> int {
    match c {
        RankCriteria::Score => score,
        RankCriteria::Index => index,
        RankCriteria::Begin => begin,
        RankCriteria::End => end,
        RankCriteria::NegScore => -score,
        RankCriteria::NegIndex => -index,
        RankCriteria::NegBegin => -begin,
        RankCriteria::NegEnd => -end,
    }
}

/// The rank of a match: four slots, slot `i` resolved by the `i`-th
/// criterion where there is one, and 0 where there is none. Criteria after
/// the fourth play no part.
pub open spec fn rank_of(
    criteria: Seq<RankCriteria>,
    score: int,
    index: int,
    begin: int,
    end: int,
) -> Seq<int> {
    Seq::new(
        4,
        |i: int|
            if i < criteria.len() {
                resolve(criteria[i], score, index, begin, end)
            } else {
                0
            },
    )
}

/// Whether every slot of a rank is a value of `i64`.
pub open spec fn fits(rank: Seq<int>) -> bool {
    forall|i: int| 0 <= i < rank.len() ==> i64::MIN <= #[trigger] rank[i] <= i64::MAX
}

/// The slots of a rank, as integers.
pub open spec fn rank_view(rank: [i64; 4]) -> Seq<int> {
    Seq::new(4, |i: int| rank[i] as int)
}

/// Every rank has exactly four slots, and the slots for which no criterion
/// is configured are 0.
pub proof fn lemma_rank_shape(
    criteria: Seq<RankCriteria>,
    score: int,
    index: int,
    begin: int,
    end: int,
)
    ensures
        rank_of(criteria, score, index, begin, end).len() == 4,
        forall|i: int|
            criteria.len() <= i < 4 ==> #[trigger] rank_of(criteria, score, index, begin, end)[i]
                == 0,
{
}

/// Picks the value of one criterion.
pub(crate) fn resolve_slot(c: RankCriteria, score: i64, index: i64, begin: i64, end: i64) -> (r: i64)
    requires
        i64::MIN <= resolve(c, score as int, index as int, begin as int, end as int) <= i64::MAX,
    ensures
        r == resolve(c, score as int, index as int, begin as int, end as int),
{
    match c {
        RankCriteria::Score => score,
        RankCriteria::Index => index,
        RankCriteria::Begin => begin,
        RankCriteria::End => end,
        RankCriteria::NegScore => -score,
        RankCriteria::NegIndex => -index,
        RankCriteria::NegBegin => -begin,
        RankCriteria::NegEnd => -end,
    }
}

} // verus!
