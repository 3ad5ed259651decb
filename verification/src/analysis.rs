//! The analysis, from the loaded blocks to the statistic.
//!
//! The pairs of the store are walked in their order. Each pair is matched,
//! evaluated and recorded before the next is looked at, so that no more than
//! one matched pair is held at a time. A pair that cannot be matched is left
//! out and counted; it does not end the analysis.

use crate::aggregate::{
    collected, finishes_to, fresh, lemma_finished, lemma_scored_count_is_bounded, records_to,
    summary_of, RiskAggregator, RiskSummary, Totals,
};
use crate::arithmetic::{answers_all, computes, Arithmetic, Request};
use crate::binary64::Binary64;
use crate::evaluation::{evaluate, evaluates_to};
use crate::exposure::{outcome_of, SetOutcome};
use crate::json_structure::{Data, VaultTransitionWithMetadata};
use crate::liquidation::LiquidationIndex;
use crate::matcher::{match_pair, matchable, pair_metadata, pair_transitions, MatchError};
use crate::pairs::{all_pairs, lemma_pairs_are_few, pairs_at, BlockPairs};
use crate::store::AllVaultsAtBlock;
use vstd::prelude::*;

verus! {

/// What the analysis found for one pair.
#[derive(Debug)]
pub enum PairResult<'a> {
    /// The pair was matched and evaluated.
    Matched { transitions: VaultTransitionWithMetadata<'a>, outcome: SetOutcome },
    /// The pair could not be matched and was left out.
    LeftOut { error: MatchError },
}

/// The result of an analysis: the statistic, the number of pairs that were
/// looked at, and how many of them were left out because they could not be
/// matched.
#[derive(Clone, Copy, Debug, PartialEq, Eq, Structural)]
pub struct Analysis {
    pub summary: RiskSummary,
    pub pairs: usize,
    pub left_out: usize,
}

/// The outcome of a pair that can be matched, in the arithmetic `ar`.
pub open spec fn pair_outcome(
    pair: Data,
    index: Map<Seq<char>, Seq<u64>>,
    ar: Arithmetic,
) -> SetOutcome {
    outcome_of(pair_metadata(pair), pair_transitions(pair, index), ar)
}

/// The outcomes of those of `pairs` that can be matched, in their order.
pub open spec fn outcomes_of_pairs(
    pairs: Seq<Data>,
    index: Map<Seq<char>, Seq<u64>>,
    ar: Arithmetic,
) -> Seq<SetOutcome>
    decreases pairs.len(),
{
    if pairs.len() == 0 {
        Seq::empty()
    } else {
        let earlier = outcomes_of_pairs(pairs.drop_last(), index, ar);
        if matchable(pairs.last()) {
            earlier.push(pair_outcome(pairs.last(), index, ar))
        } else {
            earlier
        }
    }
}

/// How many of `pairs` cannot be matched.
pub open spec fn left_out_of(pairs: Seq<Data>) -> nat
    decreases pairs.len(),
{
    if pairs.len() == 0 {
        0
    } else {
        left_out_of(pairs.drop_last()) + if matchable(pairs.last()) {
            0nat
        } else {
            1nat
        }
    }
}

/// Whether `outcome` is an outcome that a pair that can be matched can be
/// evaluated to when it is driven by `compute`.
pub open spec fn pair_evaluates_to<F: Fn(Request) -> Binary64>(
    pair: Data,
    index: Map<Seq<char>, Seq<u64>>,
    compute: &F,
    outcome: SetOutcome,
) -> bool {
    exists|set: VaultTransitionWithMetadata|
        #[trigger] evaluates_to(set, compute, outcome) && set.meta == pair_metadata(pair)
            && set.vaultTransition@ == pair_transitions(pair, index)
}

/// Whether `outcomes` and `states` are a run of the analysis over `pairs`:
/// a pair that can be matched has an outcome that it can be evaluated to,
/// and the state behind it can be recorded from the state before it and that
/// outcome; a pair that cannot be matched has no outcome and leaves the state
/// as it is. The first state is the fresh one.
pub open spec fn analysed<F: Fn(Request) -> Binary64>(
    pairs: Seq<Data>,
    index: Map<Seq<char>, Seq<u64>>,
    compute: &F,
    outcomes: Seq<Option<SetOutcome>>,
    states: Seq<Totals>,
) -> bool {
    &&& outcomes.len() == pairs.len()
    &&& states.len() == pairs.len() + 1
    &&& states[0] == fresh()
    &&& forall|k: int|
        0 <= k < pairs.len() ==> match #[trigger] outcomes[k] {
            Some(outcome) => {
                &&& matchable(pairs[k])
                &&& pair_evaluates_to(pairs[k], index, compute, outcome)
                &&& records_to(states[k], outcome, compute, states[k + 1])
            },
            None => !matchable(pairs[k]) && states[k + 1] == states[k],
        }
}

/// Whether `summary` is a statistic that the analysis of `pairs` can lead to
/// when the arithmetic is asked of `compute`: some run of the analysis ends
/// in a state that finishes in `summary`.
pub open spec fn analyses_to<F: Fn(Request) -> Binary64>(
    pairs: Seq<Data>,
    index: Map<Seq<char>, Seq<u64>>,
    compute: &F,
    summary: RiskSummary,
) -> bool {
    exists|outcomes: Seq<Option<SetOutcome>>, states: Seq<Totals>|
        #[trigger] analysed(pairs, index, compute, outcomes, states) && finishes_to(
            states.last(),
            compute,
            summary,
        )
}

/// A run of the analysis is carried on by one more pair.
proof fn lemma_one_more_pair<F: Fn(Request) -> Binary64>(
    pairs: Seq<Data>,
    index: Map<Seq<char>, Seq<u64>>,
    compute: &F,
    outcomes: Seq<Option<SetOutcome>>,
    states: Seq<Totals>,
    pair: Data,
    outcome: Option<SetOutcome>,
    state: Totals,
)
    requires
        analysed(pairs, index, compute, outcomes, states),
        match outcome {
            Some(outcome) => {
                &&& matchable(pair)
                &&& pair_evaluates_to(pair, index, compute, outcome)
                &&& records_to(states.last(), outcome, compute, state)
            },
            None => !matchable(pair) && state == states.last(),
        },
    ensures
        analysed(pairs.push(pair), index, compute, outcomes.push(outcome), states.push(state)),
{
    let more_pairs = pairs.push(pair);
    let more_outcomes = outcomes.push(outcome);
    let more_states = states.push(state);
    assert forall|k: int| 0 <= k < more_pairs.len() implies match #[trigger] more_outcomes[k] {
        Some(outcome) => {
            &&& matchable(more_pairs[k])
            &&& pair_evaluates_to(more_pairs[k], index, compute, outcome)
            &&& records_to(more_states[k], outcome, compute, more_states[k + 1])
        },
        None => !matchable(more_pairs[k]) && more_states[k + 1] == more_states[k],
    } by {
        if k < pairs.len() {
            assert(more_outcomes[k] == outcomes[k]);
            assert(more_pairs[k] == pairs[k]);
            assert(more_states[k] == states[k]);
            assert(more_states[k + 1] == states[k + 1]);
        }
    }
}

/// There are no more outcomes, and no more pairs left out, than pairs.
pub proof fn lemma_outcomes_are_bounded(
    pairs: Seq<Data>,
    index: Map<Seq<char>, Seq<u64>>,
    ar: Arithmetic,
)
    ensures
        outcomes_of_pairs(pairs, index, ar).len() + left_out_of(pairs) == pairs.len(),
    decreases pairs.len(),
{
    if pairs.len() > 0 {
        lemma_outcomes_are_bounded(pairs.drop_last(), index, ar);
    }
}

/// Whether the store is small enough for its pairs to be counted in a `u32`
/// wherever its blocks lie: it holds at most 65 535 blocks.
pub fn countable(store: &AllVaultsAtBlock) -> (fits: bool)
    ensures
        fits == (store@.len() <= 65535),
        fits ==> all_pairs(store@).len() <= u32::MAX,
{
    let n = store.len();
    proof {
        lemma_pairs_are_few(store@, n as int, 0);
        if n <= 65535 {
            assert(n * n <= 65535 * 65535) by (nonlinear_arith)
                requires
                    0 <= n <= 65535,
            ;
        }
    }
    n <= 65535
}

/// Analyses a store against a liquidation index, with the arithmetic of
/// `compute`.
///
/// Every pair of the store is matched; where that succeeds, the pair is
/// evaluated and its outcome recorded. `observe` is shown each pair with what
/// was found for it, in the order of the walk, before the next pair is looked
/// at. For every arithmetic that `compute` computes, the statistic is that of
/// the outcomes of the matched pairs in that arithmetic.
///
/// The count of the statistic is a `u32`, so the store may not have more
/// pairs than a `u32` can count; a store that is [`countable`] has not.
pub fn analyse<F, O>(
    store: &AllVaultsAtBlock,
    index: &LiquidationIndex,
    compute: &F,
    observe: &O,
) -> (analysis: Analysis) where F: Fn(Request) -> Binary64, O: Fn(&Data, &PairResult)
    requires
        all_pairs(store@).len() <= u32::MAX,
        answers_all(compute),
        forall|pair: &Data, result: &PairResult| observe.requires((pair, result)),
    ensures
        analysis.pairs == all_pairs(store@).len(),
        analysis.left_out == left_out_of(pairs_at(store@, all_pairs(store@))),
        analysis.summary.count + analysis.left_out <= analysis.pairs,
        analyses_to(pairs_at(store@, all_pairs(store@)), index@, compute, analysis.summary),
        forall|ar: Arithmetic|
            computes(compute, ar) ==> analysis.summary == #[trigger] summary_of(
                outcomes_of_pairs(pairs_at(store@, all_pairs(store@)), index@, ar),
                ar,
            ),
{
    let mut walk = BlockPairs::new(store);
    let mut aggregator = RiskAggregator::new();
    let mut pairs: usize = 0;
    let mut left_out: usize = 0;
    let ghost mut outcomes: Seq<Option<SetOutcome>> = Seq::empty();
    let ghost mut states: Seq<Totals> = seq![fresh()];
    loop
        invariant
            all_pairs(store@).len() <= u32::MAX,
            analysed(pairs_at(store@, walk.emitted()), index@, compute, outcomes, states),
            states.last() == aggregator.totals(),
            answers_all(compute),
            forall|pair: &Data, result: &PairResult| observe.requires((pair, result)),
            walk.store() == store@,
            walk.emitted().is_prefix_of(all_pairs(store@)),
            pairs == walk.emitted().len(),
            left_out == left_out_of(pairs_at(store@, walk.emitted())),
            aggregator.totals().stage is Collecting,
            aggregator.totals().count + left_out <= pairs,
            forall|ar: Arithmetic|
                computes(compute, ar) ==> aggregator.totals() == #[trigger] collected(
                    outcomes_of_pairs(pairs_at(store@, walk.emitted()), index@, ar),
                    ar,
                ),
        ensures
            walk.emitted() == all_pairs(store@),
            analysed(pairs_at(store@, walk.emitted()), index@, compute, outcomes, states),
            states.last() == aggregator.totals(),
            pairs == walk.emitted().len(),
            left_out == left_out_of(pairs_at(store@, walk.emitted())),
            aggregator.totals().stage is Collecting,
            aggregator.totals().count + left_out <= pairs,
            forall|ar: Arithmetic|
                computes(compute, ar) ==> aggregator.totals() == #[trigger] collected(
                    outcomes_of_pairs(pairs_at(store@, walk.emitted()), index@, ar),
                    ar,
                ),
        decreases all_pairs(store@).len() - walk.emitted().len(),
    {
        let ghost passed = walk.emitted();
        let ghost done = pairs_at(store@, passed);
        let ghost before = aggregator.totals();
        let pair = match walk.next_pair() {
            Some(pair) => pair,
            None => {
                break ;
            },
        };
        proof {
            let emitted = walk.emitted();
            assert(pairs_at(store@, emitted).drop_last() =~= done);
            assert(pairs_at(store@, emitted) =~= done.push(pair));
        }
        pairs = pairs + 1;
        let result = match match_pair(&pair, index) {
            Ok(transitions) => {
                let outcome = evaluate(&transitions, compute);
                aggregator.record(&outcome, compute);
                proof {
                    lemma_one_more_pair(
                        done,
                        index@,
                        compute,
                        outcomes,
                        states,
                        pair,
                        Some(outcome),
                        aggregator.totals(),
                    );
                    outcomes = outcomes.push(Some(outcome));
                    states = states.push(aggregator.totals());
                    assert forall|ar: Arithmetic|
                        computes(compute, ar) implies aggregator.totals() == #[trigger] collected(
                        outcomes_of_pairs(pairs_at(store@, walk.emitted()), index@, ar),
                        ar,
                    ) by {
                        let earlier = outcomes_of_pairs(done, index@, ar);
                        assert(before == collected(earlier, ar));
                        assert(earlier.push(outcome).drop_last() =~= earlier);
                    }
                }
                PairResult::Matched { transitions, outcome }
            },
            Err(error) => {
                left_out = left_out + 1;
                proof {
                    lemma_one_more_pair(
                        done,
                        index@,
                        compute,
                        outcomes,
                        states,
                        pair,
                        None,
                        aggregator.totals(),
                    );
                    outcomes = outcomes.push(None);
                    states = states.push(aggregator.totals());
                    assert forall|ar: Arithmetic|
                        computes(compute, ar) implies aggregator.totals() == #[trigger] collected(
                        outcomes_of_pairs(pairs_at(store@, walk.emitted()), index@, ar),
                        ar,
                    ) by {
                        assert(before == collected(outcomes_of_pairs(done, index@, ar), ar));
                    }
                }
                PairResult::LeftOut { error }
            },
        };
        observe(&pair, &result);
    }
    let summary = aggregator.finish(compute);
    proof {
        let all = pairs_at(store@, all_pairs(store@));
        assert forall|ar: Arithmetic| computes(compute, ar) implies summary
            == #[trigger] summary_of(outcomes_of_pairs(all, index@, ar), ar) by {
            let outcomes = outcomes_of_pairs(all, index@, ar);
            lemma_outcomes_are_bounded(all, index@, ar);
            lemma_scored_count_is_bounded(outcomes);
            lemma_finished(outcomes, ar);
        }
    }
    Analysis { summary, pairs, left_out }
}

} // verus!
