//! The risk statistic over all pairs.
//!
//! The aggregator keeps two running values: the sum of the deviations of the
//! pairs that were scored, and their number. A pair that was not scored
//! leaves both as they are. When the last pair is in, the mean deviation is
//! the sum over the number, times one hundred.
//!
//! Like the evaluation of a pair, the aggregator asks for its arithmetic one
//! request at a time.

use crate::arithmetic::{
    answers_all, computes, product, quotient, sum, Arithmetic, Operation, Request,
};
use crate::binary64::{hundred, zero, Binary64};
use crate::evaluation::{evaluate, evaluates_to};
use crate::exposure::{judged, outcome_of, SetOutcome};
use crate::json_structure::VaultTransitionWithMetadata;
use vstd::pervasive::unreached;
use vstd::prelude::*;

verus! {

/// The statistic: the sum of the deviations, the number of pairs that have
/// one, and the mean deviation in percent.
#[derive(Clone, Copy, Debug, PartialEq, Eq, Structural)]
pub struct RiskSummary {
    pub sum: Binary64,
    pub count: u32,
    pub mean: Binary64,
}

/// What an aggregator does or waits for.
#[derive(Clone, Copy, Debug, PartialEq, Eq, Structural)]
pub enum Tally {
    /// It takes outcomes.
    Collecting,
    /// It waits for the sum so far plus `deviation`.
    Adding { deviation: Binary64 },
    /// It waits for the sum over the count.
    Dividing,
    /// It waits for `quotient` times one hundred.
    Scaling { quotient: Binary64 },
    /// It holds the mean.
    Closed { mean: Binary64 },
}

/// The state of an aggregator.
#[derive(Clone, Copy, Debug, PartialEq, Eq, Structural)]
pub struct Totals {
    pub stage: Tally,
    pub sum: Binary64,
    pub count: u32,
}

/// The deviation that an outcome brings, if it brings one.
pub open spec fn deviation_in(outcome: SetOutcome) -> Option<Binary64> {
    match outcome {
        SetOutcome::Scored { deviation, .. } => Some(deviation),
        _ => None,
    }
}

/// The deviations of `outcomes`, added up from zero in their order.
pub open spec fn total_deviation(outcomes: Seq<SetOutcome>, ar: Arithmetic) -> Binary64
    decreases outcomes.len(),
{
    if outcomes.len() == 0 {
        zero()
    } else {
        let earlier = total_deviation(outcomes.drop_last(), ar);
        match deviation_in(outcomes.last()) {
            Some(deviation) => sum(ar, earlier, deviation),
            None => earlier,
        }
    }
}

/// How many of `outcomes` bring a deviation.
pub open spec fn scored_count(outcomes: Seq<SetOutcome>) -> nat
    decreases outcomes.len(),
{
    if outcomes.len() == 0 {
        0
    } else {
        scored_count(outcomes.drop_last()) + if deviation_in(outcomes.last()) is Some {
            1nat
        } else {
            0nat
        }
    }
}

/// The mean deviation in percent.
pub open spec fn mean_percentage(total: Binary64, count: nat, ar: Arithmetic) -> Binary64 {
    product(ar, quotient(ar, total, Binary64::count_value(count)), hundred())
}

/// The statistic of `outcomes` in the arithmetic `ar`.
pub open spec fn summary_of(outcomes: Seq<SetOutcome>, ar: Arithmetic) -> RiskSummary {
    RiskSummary {
        sum: total_deviation(outcomes, ar),
        count: scored_count(outcomes) as u32,
        mean: mean_percentage(total_deviation(outcomes, ar), scored_count(outcomes), ar),
    }
}

/// The state of an aggregator that has seen nothing.
pub open spec fn fresh() -> Totals {
    Totals { stage: Tally::Collecting, sum: zero(), count: 0 }
}

/// The state after `outcome` was offered: an outcome with a deviation makes
/// the aggregator ask for a sum, any other leaves it as it is.
pub open spec fn offered(totals: Totals, outcome: SetOutcome) -> Totals {
    match deviation_in(outcome) {
        Some(deviation) => Totals { stage: Tally::Adding { deviation }, ..totals },
        None => totals,
    }
}

/// The state after the aggregator was closed.
pub open spec fn closed(totals: Totals) -> Totals {
    Totals { stage: Tally::Dividing, ..totals }
}

/// The request that is pending in a state.
pub open spec fn pending_of(totals: Totals) -> Option<Request> {
    match totals.stage {
        Tally::Adding { deviation } => Some(
            Request { operation: Operation::Sum, left: totals.sum, right: deviation },
        ),
        Tally::Dividing => Some(
            Request {
                operation: Operation::Quotient,
                left: totals.sum,
                right: Binary64::count_value(totals.count as nat),
            },
        ),
        Tally::Scaling { quotient } => Some(
            Request { operation: Operation::Product, left: quotient, right: hundred() },
        ),
        _ => None,
    }
}

/// The state after `answer` has come for the pending request. A state
/// without a pending request stays as it is.
pub open spec fn supplied(totals: Totals, answer: Binary64) -> Totals {
    match totals.stage {
        Tally::Adding { .. } => Totals {
            stage: Tally::Collecting,
            sum: answer,
            count: (totals.count + 1) as u32,
        },
        Tally::Dividing => Totals { stage: Tally::Scaling { quotient: answer }, ..totals },
        Tally::Scaling { .. } => Totals { stage: Tally::Closed { mean: answer }, ..totals },
        _ => totals,
    }
}

/// The state after `outcome` was offered and the arithmetic `ar` has
/// answered what that made pending.
pub open spec fn recorded(totals: Totals, outcome: SetOutcome, ar: Arithmetic) -> Totals {
    let waiting = offered(totals, outcome);
    match pending_of(waiting) {
        Some(request) => supplied(waiting, ar(request)),
        None => waiting,
    }
}

/// The state after all of `outcomes` were recorded, in their order.
pub open spec fn collected(outcomes: Seq<SetOutcome>, ar: Arithmetic) -> Totals
    decreases outcomes.len(),
{
    if outcomes.len() == 0 {
        fresh()
    } else {
        recorded(collected(outcomes.drop_last(), ar), outcomes.last(), ar)
    }
}

/// The state after a collecting aggregator was closed and the arithmetic `ar`
/// has answered both requests that closing makes.
pub open spec fn finished(totals: Totals, ar: Arithmetic) -> Totals {
    let dividing = closed(totals);
    let scaling = supplied(dividing, ar(pending_of(dividing)->0));
    supplied(scaling, ar(pending_of(scaling)->0))
}

/// The statistic that a state holds, once it is closed.
pub open spec fn summary_in(totals: Totals) -> Option<RiskSummary> {
    match totals.stage {
        Tally::Closed { mean } => Some(RiskSummary { sum: totals.sum, count: totals.count, mean }),
        _ => None,
    }
}

/// Whether `next` is a state that recording `outcome` in `totals` can lead to
/// when the sum is asked of `compute`: the state as it was where the outcome
/// brings no deviation, and otherwise the state with an answer of `compute`
/// for the new sum.
pub open spec fn records_to<F: Fn(Request) -> Binary64>(
    totals: Totals,
    outcome: SetOutcome,
    compute: &F,
    next: Totals,
) -> bool {
    match pending_of(offered(totals, outcome)) {
        Some(request) => compute.ensures((request,), next.sum) && next == supplied(
            offered(totals, outcome),
            next.sum,
        ),
        None => next == totals,
    }
}

/// Whether `summary` is a statistic that closing `totals` can lead to when
/// the mean is asked of `compute`: the sum and the count as they are, and
/// for the mean an answer of `compute` to an answer of it times one hundred,
/// where that answer is one to the sum over the count.
pub open spec fn finishes_to<F: Fn(Request) -> Binary64>(
    totals: Totals,
    compute: &F,
    summary: RiskSummary,
) -> bool {
    exists|share: Binary64|
        #![trigger supplied(closed(totals), share)]
        {
            let dividing = closed(totals);
            let scaling = supplied(dividing, share);
            &&& compute.ensures((pending_of(dividing)->0,), share)
            &&& compute.ensures((pending_of(scaling)->0,), summary.mean)
            &&& summary_in(supplied(scaling, summary.mean)) == Some(summary)
        }
}

/// A pair without a deviation changes nothing: not the sum, not the count.
/// That holds of a pair whose price did not fall, of one with no estimate
/// above zero, and of one whose deviation is not a number.
pub proof fn lemma_unscored_changes_nothing(
    totals: Totals,
    outcome: SetOutcome,
    ar: Arithmetic,
)
    requires
        totals.stage is Collecting,
        !(outcome is Scored),
    ensures
        recorded(totals, outcome, ar) == totals,
{
}

/// A pair whose estimate is not above zero is kept out of the statistic
/// altogether: whatever was realized, it is judged to have no estimate, and
/// recording it changes neither the sum nor the count.
pub proof fn lemma_zero_estimate_is_excluded(
    totals: Totals,
    ratio: Binary64,
    estimated: Binary64,
    realized: Binary64,
    ar: Arithmetic,
)
    requires
        totals.stage is Collecting,
        !estimated.positive(),
    ensures
        judged(ratio, estimated, realized, ar) is NoEstimate,
        recorded(totals, judged(ratio, estimated, realized, ar), ar) == totals,
{
}

/// No more outcomes bring a deviation than there are outcomes.
pub proof fn lemma_scored_count_is_bounded(outcomes: Seq<SetOutcome>)
    ensures
        scored_count(outcomes) <= outcomes.len(),
    decreases outcomes.len(),
{
    if outcomes.len() > 0 {
        lemma_scored_count_is_bounded(outcomes.drop_last());
    }
}

/// An aggregator that recorded `outcomes` holds the sum of their deviations
/// and their number, and is ready for the next.
pub proof fn lemma_collected(outcomes: Seq<SetOutcome>, ar: Arithmetic)
    requires
        scored_count(outcomes) <= u32::MAX,
    ensures
        collected(outcomes, ar) == (Totals {
            stage: Tally::Collecting,
            sum: total_deviation(outcomes, ar),
            count: scored_count(outcomes) as u32,
        }),
    decreases outcomes.len(),
{
    if outcomes.len() > 0 {
        lemma_collected(outcomes.drop_last(), ar);
    }
}

/// An aggregator that recorded `outcomes` and was then closed holds their
/// statistic.
pub proof fn lemma_finished(outcomes: Seq<SetOutcome>, ar: Arithmetic)
    requires
        scored_count(outcomes) <= u32::MAX,
    ensures
        summary_in(finished(collected(outcomes, ar), ar)) == Some(summary_of(outcomes, ar)),
{
    lemma_collected(outcomes, ar);
}

/// The aggregator.
pub struct RiskAggregator {
    totals: Totals,
}

impl RiskAggregator {
    /// The state of the aggregator.
    pub closed spec fn totals(&self) -> Totals {
        self.totals
    }

    /// What holds of every aggregator: while it waits for a sum, its count
    /// has room for one more.
    #[verifier::type_invariant]
    spec fn wf(&self) -> bool {
        self.totals.stage is Adding ==> self.totals.count < u32::MAX
    }

    /// An aggregator that has seen nothing.
    pub fn new() -> (aggregator: RiskAggregator)
        ensures
            aggregator.totals() == fresh(),
    {
        RiskAggregator {
            totals: Totals { stage: Tally::Collecting, sum: Binary64::zero(), count: 0 },
        }
    }

    /// Whether the aggregator takes outcomes.
    pub fn is_collecting(&self) -> (r: bool)
        ensures
            r == (self.totals().stage is Collecting),
    {
        match self.totals.stage {
            Tally::Collecting => true,
            _ => false,
        }
    }

    /// The sum of the deviations so far.
    pub fn sum(&self) -> (sum: Binary64)
        ensures
            sum == self.totals().sum,
    {
        self.totals.sum
    }

    /// The number of pairs that were scored so far.
    pub fn count(&self) -> (count: u32)
        ensures
            count == self.totals().count,
    {
        self.totals.count
    }

    /// Offers the outcome of a pair. An outcome with a deviation makes a
    /// request pending; any other leaves the aggregator as it is.
    pub fn offer(&mut self, outcome: &SetOutcome)
        requires
            old(self).totals().stage is Collecting,
            old(self).totals().count < u32::MAX,
        ensures
            final(self).totals() == offered(old(self).totals(), *outcome),
            !(*outcome is Scored) ==> final(self).totals() == old(self).totals(),
    {
        match outcome {
            SetOutcome::Scored { deviation, .. } => {
                self.totals = Totals {
                    stage: Tally::Adding { deviation: *deviation },
                    ..self.totals
                };
            },
            _ => {},
        }
    }

    /// Closes the aggregator: no outcome follows, and the mean is asked for.
    pub fn close(&mut self)
        requires
            old(self).totals().stage is Collecting,
        ensures
            final(self).totals() == closed(old(self).totals()),
    {
        self.totals = Totals { stage: Tally::Dividing, ..self.totals };
    }

    /// The request that the aggregator waits for, if it waits for one.
    pub fn pending(&self) -> (request: Option<Request>)
        ensures
            request == pending_of(self.totals()),
    {
        match self.totals.stage {
            Tally::Adding { deviation } => Some(
                Request { operation: Operation::Sum, left: self.totals.sum, right: deviation },
            ),
            Tally::Dividing => Some(
                Request {
                    operation: Operation::Quotient,
                    left: self.totals.sum,
                    right: Binary64::from_count(self.totals.count),
                },
            ),
            Tally::Scaling { quotient } => Some(
                Request {
                    operation: Operation::Product,
                    left: quotient,
                    right: Binary64::hundred(),
                },
            ),
            _ => None,
        }
    }

    /// Takes the answer to the pending request. An aggregator that waits for
    /// nothing takes no answer and stays as it is.
    pub fn supply(&mut self, answer: Binary64)
        ensures
            final(self).totals() == supplied(old(self).totals(), answer),
    {
        proof {
            use_type_invariant(&*self);
        }
        let totals = self.totals;
        match totals.stage {
            Tally::Adding { .. } => {
                self.totals = Totals {
                    stage: Tally::Collecting,
                    sum: answer,
                    count: totals.count + 1,
                };
            },
            Tally::Dividing => {
                self.totals = Totals { stage: Tally::Scaling { quotient: answer }, ..totals };
            },
            Tally::Scaling { .. } => {
                self.totals = Totals { stage: Tally::Closed { mean: answer }, ..totals };
            },
            _ => {},
        }
    }

    /// Records the outcome of a pair with the arithmetic of `compute`: offers
    /// it and, where it brings a deviation, asks `compute` for the sum so far
    /// plus the deviation and takes the answer for the new sum.
    pub fn record<F: Fn(Request) -> Binary64>(&mut self, outcome: &SetOutcome, compute: &F)
        requires
            answers_all(compute),
            old(self).totals().stage is Collecting,
            old(self).totals().count < u32::MAX,
        ensures
            records_to(old(self).totals(), *outcome, compute, final(self).totals()),
            final(self).totals().stage is Collecting,
            final(self).totals().count == old(self).totals().count + if *outcome is Scored {
                1int
            } else {
                0int
            },
            !(*outcome is Scored) ==> final(self).totals() == old(self).totals(),
            forall|ar: Arithmetic|
                computes(compute, ar) ==> final(self).totals() == #[trigger] recorded(
                    old(self).totals(),
                    *outcome,
                    ar,
                ),
    {
        self.offer(outcome);
        match self.pending() {
            Some(request) => {
                let answer = compute(request);
                self.supply(answer);
            },
            None => {},
        }
    }

    /// Closes the aggregator and has the mean computed with the arithmetic
    /// of `compute`: asks it for the sum over the count, and then for the
    /// answer times one hundred.
    pub fn finish<F: Fn(Request) -> Binary64>(&mut self, compute: &F) -> (summary: RiskSummary)
        requires
            answers_all(compute),
            old(self).totals().stage is Collecting,
        ensures
            summary.sum == old(self).totals().sum,
            summary.count == old(self).totals().count,
            summary_in(final(self).totals()) == Some(summary),
            finishes_to(old(self).totals(), compute, summary),
            forall|ar: Arithmetic|
                computes(compute, ar) ==> Some(summary) == summary_in(
                    #[trigger] finished(old(self).totals(), ar),
                ),
    {
        self.close();
        let quotient = match self.pending() {
            Some(request) => compute(request),
            None => unreached(),
        };
        self.supply(quotient);
        let mean = match self.pending() {
            Some(request) => compute(request),
            None => unreached(),
        };
        self.supply(mean);
        RiskSummary { sum: self.totals.sum, count: self.totals.count, mean }
    }

    /// The statistic, once the aggregator is closed and has its answers.
    pub fn summary(&self) -> (summary: Option<RiskSummary>)
        ensures
            summary == summary_in(self.totals()),
    {
        match self.totals.stage {
            Tally::Closed { mean } => Some(
                RiskSummary { sum: self.totals.sum, count: self.totals.count, mean },
            ),
            _ => None,
        }
    }
}

/// The outcomes of `sets` in the arithmetic `ar`, in their order.
pub open spec fn outcomes_of(
    sets: Seq<VaultTransitionWithMetadata>,
    ar: Arithmetic,
) -> Seq<SetOutcome> {
    Seq::new(sets.len(), |k: int| outcome_of(sets[k].meta, sets[k].vaultTransition@, ar))
}

/// Whether `summary` is a statistic that folding `sets` can lead to when the
/// arithmetic is asked of `compute`: there are outcomes, one that each pair
/// can be evaluated to, and states, each recorded from the one before, that
/// lead from the fresh state to one that finishes in `summary`.
pub open spec fn folds_to<F: Fn(Request) -> Binary64>(
    sets: Seq<VaultTransitionWithMetadata>,
    compute: &F,
    summary: RiskSummary,
) -> bool {
    exists|outcomes: Seq<SetOutcome>, states: Seq<Totals>|
        #[trigger] folded(sets, compute, outcomes, states) && finishes_to(
            states.last(),
            compute,
            summary,
        )
}

/// Whether `outcomes` and `states` are a run of the fold over `sets`: each
/// pair can be evaluated to its outcome, and each state but the first, which
/// is the fresh one, can be recorded from the state and the outcome before.
pub open spec fn folded<F: Fn(Request) -> Binary64>(
    sets: Seq<VaultTransitionWithMetadata>,
    compute: &F,
    outcomes: Seq<SetOutcome>,
    states: Seq<Totals>,
) -> bool {
    &&& outcomes.len() == sets.len()
    &&& states.len() == sets.len() + 1
    &&& states[0] == fresh()
    &&& forall|k: int|
        0 <= k < sets.len() ==> evaluates_to(sets[k], compute, #[trigger] outcomes[k])
            && records_to(states[k], outcomes[k], compute, states[k + 1])
}

/// The statistic of a sequence of matched pairs, with the arithmetic of
/// `compute`.
///
/// Each pair is evaluated and its outcome recorded, in the order of the
/// sequence; then the mean is taken. For every arithmetic that `compute`
/// computes, the result is the statistic of the outcomes of the pairs in that
/// arithmetic.
pub fn fold<F: Fn(Request) -> Binary64>(
    sets: &Vec<VaultTransitionWithMetadata>,
    compute: &F,
) -> (summary: RiskSummary)
    requires
        answers_all(compute),
        sets@.len() <= u32::MAX,
    ensures
        folds_to(sets@, compute, summary),
        forall|ar: Arithmetic|
            computes(compute, ar) ==> summary == #[trigger] summary_of(outcomes_of(sets@, ar), ar),
{
    let mut aggregator = RiskAggregator::new();
    let mut k: usize = 0;
    let ghost mut outcomes: Seq<SetOutcome> = Seq::empty();
    let ghost mut states: Seq<Totals> = seq![fresh()];
    while k < sets.len()
        invariant
            answers_all(compute),
            k <= sets@.len() <= u32::MAX,
            aggregator.totals().stage is Collecting,
            aggregator.totals().count <= k,
            outcomes.len() == k,
            states.len() == k + 1,
            states[0] == fresh(),
            states.last() == aggregator.totals(),
            forall|j: int|
                0 <= j < k ==> evaluates_to(sets@[j], compute, #[trigger] outcomes[j])
                    && records_to(states[j], outcomes[j], compute, states[j + 1]),
            forall|ar: Arithmetic|
                computes(compute, ar) ==> aggregator.totals() == #[trigger] collected(
                    outcomes_of(sets@, ar).take(k as int),
                    ar,
                ),
        decreases sets@.len() - k,
    {
        let outcome = evaluate(&sets[k], compute);
        let ghost before = aggregator.totals();
        aggregator.record(&outcome, compute);
        proof {
            outcomes = outcomes.push(outcome);
            states = states.push(aggregator.totals());
            assert forall|ar: Arithmetic| computes(compute, ar) implies aggregator.totals()
                == #[trigger] collected(outcomes_of(sets@, ar).take(k + 1), ar) by {
                let outcomes = outcomes_of(sets@, ar);
                assert(before == collected(outcomes.take(k as int), ar));
                assert(outcomes.take(k + 1).drop_last() =~= outcomes.take(k as int));
            }
        }
        k = k + 1;
    }
    let summary = aggregator.finish(compute);
    proof {
        assert(folded(sets@, compute, outcomes, states));
        assert forall|ar: Arithmetic| computes(compute, ar) implies summary
            == #[trigger] summary_of(outcomes_of(sets@, ar), ar) by {
            let outcomes = outcomes_of(sets@, ar);
            assert(outcomes.take(k as int) =~= outcomes);
            lemma_scored_count_is_bounded(outcomes);
            lemma_finished(outcomes, ar);
        }
    }
    summary
}

} // verus!
