//! The matching configuration of one query.

use crate::criteria::RankCriteria;
use crate::item::{Item, ItemView, MatchedItem, MatchedItemView};
use crate::rank::{fits, rank_of, rank_view, resolve_slot};
use crate::text::{chars_of, lowercase_of, to_lowercase};
use vstd::prelude::*;
use vstd::slice::slice_subrange;

verus! {

/// What a matching configuration is: the query it was built for and the
/// ranking criteria, in the order in which they fill the slots of a rank.
pub struct EngineView {
    pub query: Seq<char>,
    pub criteria: Seq<RankCriteria>,
}

/// What the scoring oracle answers for one field: nothing where the field
/// does not match, else the similarity score and the positions of the matched
/// characters within the field.
pub type Answer = Option<(i64, Vec<usize>)>;

/// An answer of the oracle as a plain value.
pub open spec fn answer_view(answer: Answer) -> Option<(i64, Seq<usize>)> {
    match answer {
        Some((score, positions)) => Some((score, positions@)),
        None => None,
    }
}

/// Whether a score and the matched positions are such as the oracle may give
/// for a field of `field_len` characters: the score is not negative, and the
/// positions ascend and lie inside the field.
pub open spec fn valid_match(field_len: nat, score: i64, positions: Seq<usize>) -> bool {
    &&& score >= 0
    &&& forall|i: int| 0 <= i < positions.len() ==> positions[i] < field_len
    &&& forall|i: int, j: int| 0 <= i < j < positions.len() ==> positions[i] <= positions[j]
}

/// Whether an answer is one that the oracle may give for a field of
/// `field_len` characters: no match, or a valid one.
pub open spec fn valid_answer(field_len: nat, answer: Option<(i64, Seq<usize>)>) -> bool {
    match answer {
        Some((score, positions)) => valid_match(field_len, score, positions),
        None => true,
    }
}

/// The first matched position, 0 where nothing is matched.
pub open spec fn begin_of(positions: Seq<usize>) -> int {
    if positions.len() == 0 {
        0
    } else {
        positions[0] as int
    }
}

/// The last matched position, 0 where nothing is matched.
pub open spec fn end_of(positions: Seq<usize>) -> int {
    if positions.len() == 0 {
        0
    } else {
        positions[positions.len() - 1] as int
    }
}

/// The outcome of matching `item` when `retained` is the answer of the oracle
/// that counts. No answer filters the candidate out. Otherwise the candidate
/// is ranked by the negated score, its index, and the first and the last
/// matched position, so that under the criterion `Score` a better match has
/// the smaller rank.
pub open spec fn outcome_of(
    criteria: Seq<RankCriteria>,
    item: ItemView,
    retained: Option<(i64, Seq<usize>)>,
) -> Option<MatchedItemView> {
    match retained {
        None => None,
        Some((score, positions)) => Some(
            MatchedItemView {
                item,
                rank: rank_of(
                    criteria,
                    -(score as int),
                    item.index as int,
                    begin_of(positions),
                    end_of(positions),
                ),
                positions,
            },
        ),
    }
}

/// Whether `oracle` can be asked about every field and query, and gives only
/// valid answers.
pub open spec fn scoring_oracle<F: Fn(&[char], &[char], &[char]) -> Answer>(oracle: &F) -> bool {
    &&& forall|f: &[char], q: &[char], l: &[char]| #[trigger] oracle.requires((f, q, l))
    &&& forall|f: &[char], q: &[char], l: &[char], a: Answer| #[trigger]
        oracle.ensures((f, q, l), a) ==> valid_answer(f@.len(), answer_view(a))
}

/// Whether `oracle` is a function of the characters it is given: asked twice
/// about the same characters, it gives the same answer.
pub open spec fn pure_oracle<F: Fn(&[char], &[char], &[char]) -> Answer>(oracle: &F) -> bool {
    forall|f1: &[char], q1: &[char], l1: &[char], a1: Answer, f2: &[char], q2: &[char], l2: &[
        char
    ], a2: Answer|
        #![trigger oracle.ensures((f1, q1, l1), a1), oracle.ensures((f2, q2, l2), a2)]
        oracle.ensures((f1, q1, l1), a1) && oracle.ensures((f2, q2, l2), a2) && f1@ == f2@ && q1@
            == q2@ && l1@ == l2@ ==> answer_view(a1) == answer_view(a2)
}

/// Whether `answer` is what `oracle` may say of the characters `field` when
/// the query is `query`: the oracle is given the field, the characters of
/// the query, and the characters of the query in lower case.
pub open spec fn answers<F: Fn(&[char], &[char], &[char]) -> Answer>(
    oracle: &F,
    field: Seq<char>,
    query: Seq<char>,
    answer: Option<(i64, Seq<usize>)>,
) -> bool {
    exists|f: &[char], q: &[char], l: &[char], a: Answer|
        #![trigger oracle.ensures((f, q, l), a)]
        f@ == field && q@ == query && l@ == lowercase_of(query) && oracle.ensures((f, q, l), a)
            && answer_view(a) == answer
}

/// Whether `outcome` is a result of matching `item` under `engine` with
/// `oracle`. The last field wins: of the fields of the candidate the one
/// listed last decides, and what the oracle says of it is the answer that
/// counts, whatever it said of the fields before. So a later field that does
/// not match hides an earlier one that does.
pub open spec fn evaluates_to<F: Fn(&[char], &[char], &[char]) -> Answer>(
    oracle: &F,
    engine: EngineView,
    item: ItemView,
    outcome: Option<MatchedItemView>,
) -> bool {
    exists|answer: Option<(i64, Seq<usize>)>|
        #![trigger answers(oracle, item.last_field(), engine.query, answer)]
        answers(oracle, item.last_field(), engine.query, answer) && outcome == outcome_of(
            engine.criteria,
            item,
            answer,
        )
}

/// A matched candidate as a plain value.
pub open spec fn outcome_view(outcome: Option<MatchedItem>) -> Option<MatchedItemView> {
    match outcome {
        Some(m) => Some(m@),
        None => None,
    }
}

/// The matching configuration of one query. It is built once, when the query
/// changes, and never altered afterwards.
pub struct MatchingEngine<'a> {
    query: String,
    query_chars: Vec<char>,
    query_lower_chars: Vec<char>,
    rank_criterion: Option<&'a [RankCriteria]>,
}

impl<'a> View for MatchingEngine<'a> {
    type V = EngineView;

    closed spec fn view(&self) -> EngineView {
        EngineView {
            query: self.query@,
            criteria: match self.rank_criterion {
                Some(criterion) => criterion@,
                None => Seq::empty(),
            },
        }
    }
}

impl<'a> MatchingEngine<'a> {
    #[verifier::type_invariant]
    closed spec fn inv(self) -> bool {
        &&& self.query_chars@ == self.query@
        &&& self.query_lower_chars@ == lowercase_of(self.query@)
    }

    /// Starts a configuration for `query`, with no ranking criteria.
    pub fn builder(query: &str) -> (r: Self)
        ensures
            r@ == (EngineView { query: query@, criteria: Seq::empty() }),
    {
        let lowered = to_lowercase(query);
        MatchingEngine {
            query: query.to_owned(),
            query_chars: chars_of(query),
            query_lower_chars: chars_of(lowered.as_str()),
            rank_criterion: None,
        }
    }

    /// Sets the ranking criteria, replacing those set before.
    pub fn rank(self, rank: &'a [RankCriteria]) -> (r: Self)
        ensures
            r@ == (EngineView { query: self@.query, criteria: rank@ }),
    {
        proof {
            use_type_invariant(&self);
        }
        let mut engine = self;
        engine.rank_criterion = Some(rank);
        engine
    }

    /// Ends the construction: the configuration as it stands.
    pub fn build(self) -> (r: Self)
        ensures
            r@ == self@,
    {
        self
    }

    /// The rank of a match with the given measures under this configuration.
    pub fn build_rank(&self, score: i64, index: i64, begin: i64, end: i64) -> (rank: [i64; 4])
        requires
            fits(rank_of(self@.criteria, score as int, index as int, begin as int, end as int)),
        ensures
            rank_view(rank) == rank_of(
                self@.criteria,
                score as int,
                index as int,
                begin as int,
                end as int,
            ),
    {
        let mut rank = [0i64;4];
        let ghost want = rank_of(
            self@.criteria,
            score as int,
            index as int,
            begin as int,
            end as int,
        );
        match self.rank_criterion {
            None => {},
            Some(criterion) => {
                let mut idx: usize = 0;
                while idx < criterion.len() && idx < 4
                    invariant
                        idx <= 4,
                        criterion@ == self@.criteria,
                        fits(want),
                        want == rank_of(
                            self@.criteria,
                            score as int,
                            index as int,
                            begin as int,
                            end as int,
                        ),
                        forall|i: int| 0 <= i < idx ==> rank[i] == want[i],
                        forall|i: int| idx <= i < 4 ==> rank[i] == 0,
                    decreases 4 - idx,
                {
                    assert(want[idx as int] == crate::rank::resolve(
                        criterion@[idx as int],
                        score as int,
                        index as int,
                        begin as int,
                        end as int,
                    ));
                    rank[idx] = resolve_slot(criterion[idx], score, index, begin, end);
                    idx += 1;
                }
            },
        }
        assert(rank_view(rank) =~= want);
        rank
    }

    /// Matches `item` against the query of this configuration.
    pub fn match_item<F: Fn(&[char], &[char], &[char]) -> Answer>(
        &self,
        item: Item,
        oracle: &F,
    ) -> (r: Option<MatchedItem>)
        requires
            scoring_oracle(oracle),
        ensures
            evaluates_to(oracle, self@, item@, outcome_view(r)),
    {
        self.match_item_fuzzy(item, oracle)
    }

    /// Matches `item` against the query by fuzzy matching. The oracle is
    /// asked about every field of the candidate, in order, and the answer
    /// for the last field decides the outcome.
    pub fn match_item_fuzzy<F: Fn(&[char], &[char], &[char]) -> Answer>(
        &self,
        item: Item,
        oracle: &F,
    ) -> (r: Option<MatchedItem>)
        requires
            scoring_oracle(oracle),
        ensures
            evaluates_to(oracle, self@, item@, outcome_view(r)),
    {
        proof {
            use_type_invariant(self);
            use_type_invariant(&item);
        }
        let ranges = item.get_matching_ranges();
        let chars = item.get_lower_chars();
        let mut matched_result: Answer = None;
        let mut i: usize = 0;
        while i < ranges.len()
            invariant
                i <= ranges.len(),
                ranges@ == item@.ranges,
                chars@ == item@.chars,
                item@.wf(),
                scoring_oracle(oracle),
                self.query_chars@ == self@.query,
                self.query_lower_chars@ == lowercase_of(self@.query),
                i > 0 ==> answers(
                    oracle,
                    item@.field(i - 1),
                    self@.query,
                    answer_view(matched_result),
                ),
                i > 0 ==> valid_answer(item@.field(i - 1).len(), answer_view(matched_result)),
            decreases ranges.len() - i,
        {
            let (start, end) = ranges[i];
            let source = slice_subrange(chars, start, end);
            matched_result = oracle(
                source,
                self.query_chars.as_slice(),
                self.query_lower_chars.as_slice(),
            );
            i += 1;
        }
        self.outcome(item, matched_result)
    }

    /// The outcome for `item` once the oracle has answered: see `outcome_of`.
    pub fn outcome(&self, item: Item, retained: Answer) -> (r: Option<MatchedItem>)
        requires
            valid_answer(item@.last_field().len(), answer_view(retained)),
        ensures
            outcome_view(r) == outcome_of(self@.criteria, item@, answer_view(retained)),
    {
        match retained {
            None => None,
            Some((score, matched_range)) => {
                let index = item.get_index();
                let n = matched_range.len();
                let begin: i64 = if n == 0 {
                    0
                } else {
                    matched_range[0] as i64
                };
                let end: i64 = if n == 0 {
                    0
                } else {
                    matched_range[n - 1] as i64
                };
                proof {
                    use_type_invariant(&item);
                    lemma_measures_fit(self@.criteria, item@, score, matched_range@);
                }
                let rank = self.build_rank(-score, index as i64, begin, end);
                Some(MatchedItem { item, rank, matched_range })
            },
        }
    }
}

/// The measures of a valid answer for a candidate, and the rank made of them,
/// fit in `i64`.
pub proof fn lemma_measures_fit(
    criteria: Seq<RankCriteria>,
    item: ItemView,
    score: i64,
    positions: Seq<usize>,
)
    requires
        item.wf(),
        valid_answer(item.last_field().len(), Some((score, positions))),
    ensures
        0 <= begin_of(positions) <= end_of(positions) <= i64::MAX,
        fits(
            rank_of(
                criteria,
                -(score as int),
                item.index as int,
                begin_of(positions),
                end_of(positions),
            ),
        ),
{
    let last = item.ranges.len() - 1;
    assert(item.ranges[last].0 <= item.ranges[last].1 <= item.chars.len());
    assert(item.last_field().len() <= item.chars.len());
    if positions.len() > 0 {
        assert(positions[0] < item.last_field().len());
        assert(positions[positions.len() - 1] < item.last_field().len());
    }
}

/// Matching is deterministic: with an oracle that is a function of what it is
/// given, matching a candidate under a configuration has one outcome only.
pub proof fn lemma_evaluation_deterministic<F: Fn(&[char], &[char], &[char]) -> Answer>(
    oracle: &F,
    engine: EngineView,
    item: ItemView,
    first: Option<MatchedItemView>,
    second: Option<MatchedItemView>,
)
    requires
        pure_oracle(oracle),
        evaluates_to(oracle, engine, item, first),
        evaluates_to(oracle, engine, item, second),
    ensures
        first == second,
{
}

/// A candidate none of whose fields matches is filtered out.
pub proof fn lemma_no_match_filters<F: Fn(&[char], &[char], &[char]) -> Answer>(
    oracle: &F,
    engine: EngineView,
    item: ItemView,
    outcome: Option<MatchedItemView>,
)
    requires
        item.wf(),
        forall|i: int, answer: Option<(i64, Seq<usize>)>|
            0 <= i < item.ranges.len() && #[trigger] answers(
                oracle,
                item.field(i),
                engine.query,
                answer,
            ) ==> answer is None,
        evaluates_to(oracle, engine, item, outcome),
    ensures
        outcome is None,
{
}

/// The rank of every outcome has exactly four slots, and the slots for which
/// the configuration has no criterion are 0.
pub proof fn lemma_outcome_rank_shape(
    criteria: Seq<RankCriteria>,
    item: ItemView,
    retained: Option<(i64, Seq<usize>)>,
)
    ensures
        match outcome_of(criteria, item, retained) {
            Some(m) => m.rank.len() == 4 && forall|i: int|
                criteria.len() <= i < 4 ==> #[trigger] m.rank[i] == 0,
            None => true,
        },
{
}

} // verus!
