//! The evaluation of one pair of blocks, one request at a time.
//!
//! An evaluation starts at the price ratio, walks the transitions of the pair
//! and ends in a [`SetOutcome`]. While it runs it has exactly one request
//! pending; the answer to it decides the next. An evaluation that is driven
//! with the answers of an arithmetic ends in the outcome that
//! [`outcome_of`] gives for that arithmetic, after at most five answers for
//! each transition and three more.

use crate::arithmetic::{answers_all, computes, Arithmetic, Operation, Request};
use crate::binary64::{one, zero, Binary64};
use crate::exposure::{
    estimated_capital, operands_of, outcome_of, realized_capital, realized_term, Operands,
    SetOutcome,
};
use crate::json_structure::{VaultTransitionInnerType, VaultTransitionWithMetadata};
use vstd::pervasive::unreached;
use vstd::prelude::*;

verus! {

/// What an evaluation waits for.
#[derive(Clone, Copy, Debug, PartialEq, Eq, Structural)]
pub enum Stage {
    /// The second price over the first.
    Ratio,
    /// The collateral of the vault at hand times the second price.
    Holding,
    /// The debt of the vault at hand times the liquidation ratio.
    Scaled { holding: Binary64 },
    /// That product times the rate.
    Required { holding: Binary64, scaled: Binary64 },
    /// The estimate so far plus the share of the vault at hand.
    Estimated { term: Binary64 },
    /// The realized capital so far plus the share of the vault at hand.
    Realized,
    /// The realized capital minus the estimate.
    Difference,
    /// The absolute difference over the estimate.
    Deviation { difference: Binary64 },
    /// Nothing: the evaluation has ended.
    Finished { outcome: SetOutcome },
}

/// Where an evaluation stands: what it waits for, the vault at hand, and what
/// it has computed so far.
#[derive(Clone, Copy, Debug, PartialEq, Eq, Structural)]
pub struct Progress {
    pub stage: Stage,
    pub position: usize,
    pub ratio: Binary64,
    pub estimated: Binary64,
    pub realized: Binary64,
}

/// Where an evaluation stands once both capitals are known: it asks for the
/// difference where there is an estimate above zero, and has ended otherwise.
pub open spec fn settle(progress: Progress) -> Progress {
    if progress.estimated.positive() {
        Progress { stage: Stage::Difference, ..progress }
    } else {
        Progress {
            stage: Stage::Finished {
                outcome: SetOutcome::NoEstimate {
                    ratio: progress.ratio,
                    estimated: progress.estimated,
                    realized: progress.realized,
                },
            },
            ..progress
        }
    }
}

/// Where an evaluation stands when it comes to the transition at `position`.
/// Behind the last transition the capitals are known. At a transition with
/// all operands it asks for the first product; at one without, the
/// transition's share of the estimate is zero and it asks for the sum.
pub open spec fn arrive(
    set: VaultTransitionWithMetadata,
    progress: Progress,
    position: usize,
) -> Progress {
    if position >= set.vaultTransition@.len() {
        settle(Progress { position, ..progress })
    } else {
        match operands_of(set.vaultTransition@[position as int], set.meta) {
            Some(_) => Progress { stage: Stage::Holding, position, ..progress },
            None => Progress { stage: Stage::Estimated { term: zero() }, position, ..progress },
        }
    }
}

/// Where the evaluation of a pair starts.
pub open spec fn start(set: VaultTransitionWithMetadata) -> Progress {
    Progress {
        stage: match (set.meta.firstPrice.value, set.meta.secondPrice.value) {
            (Some(_), Some(_)) => Stage::Ratio,
            _ => Stage::Finished { outcome: SetOutcome::Unpriced },
        },
        position: 0,
        ratio: zero(),
        estimated: zero(),
        realized: zero(),
    }
}

/// The transition at hand.
pub open spec fn at_hand<'a>(
    set: VaultTransitionWithMetadata<'a>,
    progress: Progress,
) -> VaultTransitionInnerType<'a> {
    set.vaultTransition@[progress.position as int]
}

/// Whether `progress` is a place where an evaluation of `set` can stand. In
/// particular, a deviation is asked for only over an estimate above zero.
pub open spec fn valid(set: VaultTransitionWithMetadata, progress: Progress) -> bool {
    match progress.stage {
        Stage::Ratio => set.meta.firstPrice.value is Some && set.meta.secondPrice.value is Some,
        Stage::Holding | Stage::Scaled { .. } | Stage::Required { .. } => {
            &&& progress.position < set.vaultTransition@.len()
            &&& operands_of(at_hand(set, progress), set.meta) is Some
        },
        Stage::Estimated { .. } | Stage::Realized => progress.position
            < set.vaultTransition@.len(),
        Stage::Difference | Stage::Deviation { .. } => progress.estimated.positive(),
        Stage::Finished { .. } => true,
    }
}

/// The request that is pending at `progress`.
pub open spec fn pending_at(set: VaultTransitionWithMetadata, progress: Progress) -> Option<
    Request,
> {
    let operands = operands_of(at_hand(set, progress), set.meta)->0;
    match progress.stage {
        Stage::Ratio => Some(
            Request {
                operation: Operation::Quotient,
                left: set.meta.secondPrice.value->0,
                right: set.meta.firstPrice.value->0,
            },
        ),
        Stage::Holding => Some(
            Request {
                operation: Operation::Product,
                left: operands.collateral,
                right: operands.price,
            },
        ),
        Stage::Scaled { .. } => Some(
            Request {
                operation: Operation::Product,
                left: operands.debt,
                right: operands.liquidation_ratio,
            },
        ),
        Stage::Required { scaled, .. } => Some(
            Request { operation: Operation::Product, left: scaled, right: operands.rate },
        ),
        Stage::Estimated { term } => Some(
            Request { operation: Operation::Sum, left: progress.estimated, right: term },
        ),
        Stage::Realized => Some(
            Request {
                operation: Operation::Sum,
                left: progress.realized,
                right: realized_term(at_hand(set, progress)),
            },
        ),
        Stage::Difference => Some(
            Request {
                operation: Operation::Difference,
                left: progress.realized,
                right: progress.estimated,
            },
        ),
        Stage::Deviation { difference } => Some(
            Request {
                operation: Operation::Quotient,
                left: difference.absolute(),
                right: progress.estimated,
            },
        ),
        Stage::Finished { .. } => None,
    }
}

/// Where the evaluation stands after `answer` has come for the pending
/// request. An evaluation that has ended stays where it is.
pub open spec fn step(
    set: VaultTransitionWithMetadata,
    progress: Progress,
    answer: Binary64,
) -> Progress {
    match progress.stage {
        Stage::Ratio => {
            if answer.below(one()) {
                arrive(set, Progress { ratio: answer, ..progress }, 0)
            } else {
                Progress {
                    stage: Stage::Finished { outcome: SetOutcome::NoDecline { ratio: answer } },
                    ratio: answer,
                    ..progress
                }
            }
        },
        Stage::Holding => Progress { stage: Stage::Scaled { holding: answer }, ..progress },
        Stage::Scaled { holding } => Progress {
            stage: Stage::Required { holding, scaled: answer },
            ..progress
        },
        Stage::Required { holding, .. } => Progress {
            stage: Stage::Estimated {
                term: if answer.below(holding) {
                    zero()
                } else {
                    (operands_of(at_hand(set, progress), set.meta)->0).debt
                },
            },
            ..progress
        },
        Stage::Estimated { .. } => Progress {
            stage: Stage::Realized,
            estimated: answer,
            ..progress
        },
        Stage::Realized => arrive(
            set,
            Progress { realized: answer, ..progress },
            (progress.position + 1) as usize,
        ),
        Stage::Difference => Progress {
            stage: Stage::Deviation { difference: answer },
            ..progress
        },
        Stage::Deviation { .. } => Progress {
            stage: Stage::Finished {
                outcome: if answer.nan() {
                    SetOutcome::NotANumber {
                        ratio: progress.ratio,
                        estimated: progress.estimated,
                        realized: progress.realized,
                    }
                } else {
                    SetOutcome::Scored {
                        ratio: progress.ratio,
                        estimated: progress.estimated,
                        realized: progress.realized,
                        deviation: answer,
                    }
                },
            },
            ..progress
        },
        Stage::Finished { .. } => progress,
    }
}

/// Where the evaluation of `set` stands after the answers `answers` have come
/// in, one after the other.
pub open spec fn after(set: VaultTransitionWithMetadata, answers: Seq<Binary64>) -> Progress
    decreases answers.len(),
{
    if answers.len() == 0 {
        start(set)
    } else {
        step(set, after(set, answers.drop_last()), answers.last())
    }
}

/// Whether each of `answers` is the answer of the arithmetic `ar` to the
/// request that was pending when it came in.
pub open spec fn follows(
    set: VaultTransitionWithMetadata,
    answers: Seq<Binary64>,
    ar: Arithmetic,
) -> bool
    decreases answers.len(),
{
    if answers.len() == 0 {
        true
    } else {
        &&& follows(set, answers.drop_last(), ar)
        &&& match pending_at(set, after(set, answers.drop_last())) {
            Some(request) => answers.last() == ar(request),
            None => true,
        }
    }
}

/// Whether each of `answers` is an answer of `compute` to the request that was
/// pending when it came in, and a request was pending each time.
pub open spec fn answered<F: Fn(Request) -> Binary64>(
    set: VaultTransitionWithMetadata,
    answers: Seq<Binary64>,
    compute: &F,
) -> bool
    decreases answers.len(),
{
    if answers.len() == 0 {
        true
    } else {
        &&& answered(set, answers.drop_last(), compute)
        &&& match pending_at(set, after(set, answers.drop_last())) {
            Some(request) => compute.ensures((request,), answers.last()),
            None => false,
        }
    }
}

/// Whether `outcome` is an outcome that the evaluation of `set` can end in
/// when it is driven by `compute`: some answers of `compute`, each to the
/// request pending when it came, lead to it.
pub open spec fn evaluates_to<F: Fn(Request) -> Binary64>(
    set: VaultTransitionWithMetadata,
    compute: &F,
    outcome: SetOutcome,
) -> bool {
    exists|answers: Seq<Binary64>|
        #[trigger] answered(set, answers, compute) && answers.len() <= 5
            * set.vaultTransition@.len() + 3 && after(set, answers).stage == (Stage::Finished {
            outcome,
        })
}

/// Whether what `progress` holds is what the arithmetic `ar` gives for the
/// part of the pair that lies behind it.
pub open spec fn agrees(
    set: VaultTransitionWithMetadata,
    progress: Progress,
    ar: Arithmetic,
) -> bool {
    let transitions = set.vaultTransition@;
    let passed = transitions.take(progress.position as int);
    let operands = operands_of(at_hand(set, progress), set.meta)->0;
    &&& valid(set, progress)
    &&& match progress.stage {
        Stage::Ratio => {
            &&& progress.estimated == zero()
            &&& progress.realized == zero()
        },
        Stage::Finished { outcome } => outcome == outcome_of(
            set.meta,
            set.vaultTransition@,
            ar,
        ),
        _ => {
            &&& set.meta.firstPrice.value is Some
            &&& set.meta.secondPrice.value is Some
            &&& progress.ratio == crate::arithmetic::quotient(
                ar,
                set.meta.secondPrice.value->0,
                set.meta.firstPrice.value->0,
            )
            &&& progress.ratio.below(one())
            &&& progress.position <= transitions.len()
            &&& progress.realized == realized_capital(passed, ar)
        },
    }
    &&& match progress.stage {
        Stage::Holding => progress.estimated == estimated_capital(passed, set.meta, ar),
        Stage::Scaled { holding } => {
            &&& progress.estimated == estimated_capital(passed, set.meta, ar)
            &&& holding == crate::arithmetic::product(ar, operands.collateral, operands.price)
        },
        Stage::Required { holding, scaled } => {
            &&& progress.estimated == estimated_capital(passed, set.meta, ar)
            &&& holding == crate::arithmetic::product(ar, operands.collateral, operands.price)
            &&& scaled == crate::arithmetic::product(
                ar,
                operands.debt,
                operands.liquidation_ratio,
            )
        },
        Stage::Estimated { term } => {
            &&& progress.estimated == estimated_capital(passed, set.meta, ar)
            &&& term == crate::exposure::estimated_term(at_hand(set, progress), set.meta, ar)
        },
        Stage::Realized => progress.estimated == estimated_capital(
            transitions.take(progress.position + 1),
            set.meta,
            ar,
        ),
        Stage::Difference => {
            &&& progress.position == transitions.len()
            &&& progress.estimated == estimated_capital(transitions, set.meta, ar)
        },
        Stage::Deviation { difference } => {
            &&& progress.position == transitions.len()
            &&& progress.estimated == estimated_capital(transitions, set.meta, ar)
            &&& difference == crate::arithmetic::difference(
                ar,
                progress.realized,
                progress.estimated,
            )
        },
        _ => true,
    }
}

/// How many answers an evaluation at `progress` can still take, at most.
pub open spec fn answers_left(set: VaultTransitionWithMetadata, progress: Progress) -> int {
    let behind = 5 * (set.vaultTransition@.len() - progress.position - 1) + 2;
    match progress.stage {
        Stage::Ratio => 5 * (set.vaultTransition@.len() as int) + 3,
        Stage::Holding => behind + 5,
        Stage::Scaled { .. } => behind + 4,
        Stage::Required { .. } => behind + 3,
        Stage::Estimated { .. } => behind + 2,
        Stage::Realized => behind + 1,
        Stage::Difference => 2,
        Stage::Deviation { .. } => 1,
        Stage::Finished { .. } => 0,
    }
}

/// An evaluation that agrees with an arithmetic still does so after the
/// arithmetic's answer to the pending request.
pub proof fn lemma_step_agrees(
    set: VaultTransitionWithMetadata,
    progress: Progress,
    ar: Arithmetic,
)
    requires
        agrees(set, progress, ar),
        pending_at(set, progress) is Some,
    ensures
        agrees(set, step(set, progress, ar(pending_at(set, progress)->0)), ar),
{
    let transitions = set.vaultTransition@;
    assert(transitions.len() == set.vaultTransition.len());
    match progress.stage {
        Stage::Estimated { .. } | Stage::Realized => {
            let longer = transitions.take(progress.position + 1);
            assert(longer.drop_last() =~= transitions.take(progress.position as int));
        },
        Stage::Deviation { .. } => {
            assert(transitions.take(progress.position as int) =~= transitions);
        },
        _ => {},
    }
}

/// Each answer brings a valid evaluation nearer to its end, and leaves it
/// valid.
pub proof fn lemma_step_advances(
    set: VaultTransitionWithMetadata,
    progress: Progress,
    answer: Binary64,
)
    requires
        valid(set, progress),
    ensures
        valid(set, step(set, progress, answer)),
        0 <= answers_left(set, step(set, progress, answer)),
        progress.stage is Finished || answers_left(set, step(set, progress, answer))
            < answers_left(set, progress),
{
    assert(set.vaultTransition@.len() == set.vaultTransition.len());
}

/// What is proved of an evaluation that was driven by an arithmetic.
///
/// It agrees with the arithmetic at every place it comes to. So where it has
/// ended, its outcome is the outcome of the pair in that arithmetic: the same
/// for every run on the same pair, however the answers were obtained. And it
/// has ended once five answers for each transition and three more have come.
pub proof fn lemma_evaluation(
    set: VaultTransitionWithMetadata,
    answers: Seq<Binary64>,
    ar: Arithmetic,
)
    requires
        follows(set, answers, ar),
    ensures
        agrees(set, after(set, answers), ar),
        after(set, answers).stage matches Stage::Finished { outcome } ==> outcome == outcome_of(
            set.meta,
            set.vaultTransition@,
            ar,
        ),
        0 <= answers_left(set, after(set, answers)) <= 5 * set.vaultTransition@.len() + 3,
        after(set, answers).stage is Finished || answers_left(set, after(set, answers))
            + answers.len() <= 5 * set.vaultTransition@.len() + 3,
        answers.len() >= 5 * set.vaultTransition@.len() + 3 ==> after(set, answers).stage
            is Finished,
    decreases answers.len(),
{
    if answers.len() > 0 {
        let before = after(set, answers.drop_last());
        lemma_evaluation(set, answers.drop_last(), ar);
        lemma_step_advances(set, before, answers.last());
        if pending_at(set, before) is Some {
            lemma_step_agrees(set, before, ar);
        }
    }
}

/// Two runs on one pair end alike: where both were driven by the same
/// arithmetic and both have ended, they hold the same outcome.
pub proof fn lemma_runs_end_alike(
    set: VaultTransitionWithMetadata,
    one: Seq<Binary64>,
    other: Seq<Binary64>,
    ar: Arithmetic,
)
    requires
        follows(set, one, ar),
        follows(set, other, ar),
        after(set, one).stage is Finished,
        after(set, other).stage is Finished,
    ensures
        after(set, one).stage == after(set, other).stage,
{
    lemma_evaluation(set, one, ar);
    lemma_evaluation(set, other, ar);
}

/// The evaluation of one pair.
pub struct SetEvaluation<'a> {
    set: &'a VaultTransitionWithMetadata<'a>,
    progress: Progress,
}

impl<'a> SetEvaluation<'a> {
    /// The pair that is evaluated.
    pub closed spec fn set(&self) -> VaultTransitionWithMetadata<'a> {
        *self.set
    }

    /// Where the evaluation stands.
    pub closed spec fn progress(&self) -> Progress {
        self.progress
    }

    /// What holds of every evaluation: it stands at a place of its pair.
    #[verifier::type_invariant]
    spec fn wf(&self) -> bool {
        valid(*self.set, self.progress)
    }

    /// The operands of a transition, where all five have a value.
    fn operands(
        transition: &VaultTransitionInnerType<'a>,
        set: &VaultTransitionWithMetadata<'a>,
    ) -> (r: Option<Operands>)
        ensures
            r == operands_of(*transition, set.meta),
    {
        match (
            transition.first.collateral.value,
            transition.first.debt.value,
            set.meta.firstLiquidationRatio.value,
            set.meta.firstRate.value,
            set.meta.secondPrice.value,
        ) {
            (Some(collateral), Some(debt), Some(liquidation_ratio), Some(rate), Some(price)) => {
                Some(Operands { collateral, debt, liquidation_ratio, rate, price })
            },
            _ => None,
        }
    }

    /// What a transition adds to the realized capital.
    fn realized_share(transition: &VaultTransitionInnerType<'a>) -> (r: Binary64)
        ensures
            r == realized_term(*transition),
    {
        if transition.liquidated {
            match transition.first.debt.value {
                Some(debt) => debt,
                None => Binary64::zero(),
            }
        } else {
            Binary64::zero()
        }
    }

    /// Where the evaluation stands when it comes to the transition at
    /// `position`.
    fn arrived(
        set: &VaultTransitionWithMetadata<'a>,
        progress: Progress,
        position: usize,
    ) -> (next: Progress)
        ensures
            next == arrive(*set, progress, position),
            valid(*set, next),
    {
        let stage = if position >= set.vaultTransition.len() {
            if progress.estimated.is_positive() {
                Stage::Difference
            } else {
                Stage::Finished {
                    outcome: SetOutcome::NoEstimate {
                        ratio: progress.ratio,
                        estimated: progress.estimated,
                        realized: progress.realized,
                    },
                }
            }
        } else {
            match Self::operands(&set.vaultTransition[position], set) {
                Some(_) => Stage::Holding,
                None => Stage::Estimated { term: Binary64::zero() },
            }
        };
        Progress { stage, position, ..progress }
    }

    /// Starts the evaluation of `set`.
    pub fn begin(set: &'a VaultTransitionWithMetadata<'a>) -> (evaluation: SetEvaluation<'a>)
        ensures
            evaluation.set() == *set,
            evaluation.progress() == start(*set),
    {
        let priced = set.meta.firstPrice.value.is_some() && set.meta.secondPrice.value.is_some();
        let stage = if priced {
            Stage::Ratio
        } else {
            Stage::Finished { outcome: SetOutcome::Unpriced }
        };
        SetEvaluation {
            set,
            progress: Progress {
                stage,
                position: 0,
                ratio: Binary64::zero(),
                estimated: Binary64::zero(),
                realized: Binary64::zero(),
            },
        }
    }

    /// The request that the evaluation waits for, or `None` when it has
    /// ended.
    pub fn pending(&self) -> (request: Option<Request>)
        ensures
            request == pending_at(self.set(), self.progress()),
            request is None <==> self.progress().stage is Finished,
            self.progress().stage is Deviation ==> (request matches Some(asked)
                && asked.right.positive()),
    {
        proof {
            use_type_invariant(self);
        }
        match self.progress.stage {
            Stage::Ratio => {
                match (self.set.meta.secondPrice.value, self.set.meta.firstPrice.value) {
                    (Some(second), Some(first)) => Some(
                        Request { operation: Operation::Quotient, left: second, right: first },
                    ),
                    _ => unreached(),
                }
            },
            Stage::Holding => {
                match Self::operands(&self.set.vaultTransition[self.progress.position], self.set) {
                    Some(operands) => Some(
                        Request {
                            operation: Operation::Product,
                            left: operands.collateral,
                            right: operands.price,
                        },
                    ),
                    None => unreached(),
                }
            },
            Stage::Scaled { .. } => {
                match Self::operands(&self.set.vaultTransition[self.progress.position], self.set) {
                    Some(operands) => Some(
                        Request {
                            operation: Operation::Product,
                            left: operands.debt,
                            right: operands.liquidation_ratio,
                        },
                    ),
                    None => unreached(),
                }
            },
            Stage::Required { scaled, .. } => {
                match Self::operands(&self.set.vaultTransition[self.progress.position], self.set) {
                    Some(operands) => Some(
                        Request {
                            operation: Operation::Product,
                            left: scaled,
                            right: operands.rate,
                        },
                    ),
                    None => unreached(),
                }
            },
            Stage::Estimated { term } => Some(
                Request { operation: Operation::Sum, left: self.progress.estimated, right: term },
            ),
            Stage::Realized => Some(
                Request {
                    operation: Operation::Sum,
                    left: self.progress.realized,
                    right: Self::realized_share(
                        &self.set.vaultTransition[self.progress.position],
                    ),
                },
            ),
            Stage::Difference => Some(
                Request {
                    operation: Operation::Difference,
                    left: self.progress.realized,
                    right: self.progress.estimated,
                },
            ),
            Stage::Deviation { difference } => Some(
                Request {
                    operation: Operation::Quotient,
                    left: difference.abs(),
                    right: self.progress.estimated,
                },
            ),
            Stage::Finished { .. } => None,
        }
    }

    /// Takes the answer to the pending request and moves on. An evaluation
    /// that has ended takes no answer and stays where it is.
    pub fn supply(&mut self, answer: Binary64)
        ensures
            final(self).set() == old(self).set(),
            final(self).progress() == step(old(self).set(), old(self).progress(), answer),
    {
        proof {
            use_type_invariant(&*self);
        }
        let progress = self.progress;
        let next = match progress.stage {
            Stage::Ratio => {
                let priced = Progress { ratio: answer, ..progress };
                if answer.less_than(&Binary64::one()) {
                    Self::arrived(self.set, priced, 0)
                } else {
                    Progress {
                        stage: Stage::Finished { outcome: SetOutcome::NoDecline { ratio: answer } },
                        ..priced
                    }
                }
            },
            Stage::Holding => Progress { stage: Stage::Scaled { holding: answer }, ..progress },
            Stage::Scaled { holding } => Progress {
                stage: Stage::Required { holding, scaled: answer },
                ..progress
            },
            Stage::Required { holding, .. } => {
                let term = if answer.less_than(&holding) {
                    Binary64::zero()
                } else {
                    match Self::operands(&self.set.vaultTransition[progress.position], self.set) {
                        Some(operands) => operands.debt,
                        None => unreached(),
                    }
                };
                Progress { stage: Stage::Estimated { term }, ..progress }
            },
            Stage::Estimated { .. } => Progress {
                stage: Stage::Realized,
                estimated: answer,
                ..progress
            },
            Stage::Realized => {
                let count = self.set.vaultTransition.len();
                assert(progress.position < count);
                let added = Progress { realized: answer, ..progress };
                Self::arrived(self.set, added, progress.position + 1)
            },
            Stage::Difference => Progress {
                stage: Stage::Deviation { difference: answer },
                ..progress
            },
            Stage::Deviation { .. } => {
                let outcome = if answer.is_nan() {
                    SetOutcome::NotANumber {
                        ratio: progress.ratio,
                        estimated: progress.estimated,
                        realized: progress.realized,
                    }
                } else {
                    SetOutcome::Scored {
                        ratio: progress.ratio,
                        estimated: progress.estimated,
                        realized: progress.realized,
                        deviation: answer,
                    }
                };
                Progress { stage: Stage::Finished { outcome }, ..progress }
            },
            Stage::Finished { .. } => progress,
        };
        self.progress = next;
    }

    /// The outcome of the evaluation, once it has ended.
    pub fn outcome(&self) -> (outcome: Option<SetOutcome>)
        ensures
            outcome == match self.progress().stage {
                Stage::Finished { outcome } => Some(outcome),
                _ => None,
            },
    {
        match self.progress.stage {
            Stage::Finished { outcome } => Some(outcome),
            _ => None,
        }
    }
}

/// Evaluates one pair with the arithmetic of `compute`.
///
/// The evaluation asks `compute` for one operation after the other, at most
/// five for each transition and three more: each time for the request that
/// is pending after the answers before. It returns the outcome that the
/// answers lead to. For every arithmetic that `compute` computes, that is the
/// outcome of the pair in that arithmetic.
pub fn evaluate<F: Fn(Request) -> Binary64>(
    set: &VaultTransitionWithMetadata,
    compute: &F,
) -> (outcome: SetOutcome)
    requires
        answers_all(compute),
    ensures
        evaluates_to(*set, compute, outcome),
        forall|ar: Arithmetic|
            computes(compute, ar) ==> outcome == #[trigger] outcome_of(
                set.meta,
                set.vaultTransition@,
                ar,
            ),
{
    let mut evaluation = SetEvaluation::begin(set);
    proof {
        assert forall|ar: Arithmetic| computes(compute, ar) implies agrees(
            *set,
            evaluation.progress(),
            ar,
        ) by {
            lemma_evaluation(*set, Seq::empty(), ar);
        }
    }
    let ghost mut answers: Seq<Binary64> = Seq::empty();
    loop
        invariant
            answers_all(compute),
            evaluation.set() == *set,
            evaluation.progress() == after(*set, answers),
            answered(*set, answers, compute),
            0 <= answers_left(*set, evaluation.progress()),
            answers_left(*set, evaluation.progress()) + answers.len() <= 5
                * set.vaultTransition@.len() + 3,
            forall|ar: Arithmetic|
                computes(compute, ar) ==> agrees(*set, evaluation.progress(), ar),
        ensures
            evaluation.progress().stage is Finished,
            evaluation.progress() == after(*set, answers),
            answered(*set, answers, compute),
            answers.len() <= 5 * set.vaultTransition@.len() + 3,
            forall|ar: Arithmetic|
                computes(compute, ar) ==> agrees(*set, evaluation.progress(), ar),
        decreases answers_left(*set, evaluation.progress()),
    {
        let request = match evaluation.pending() {
            Some(request) => request,
            None => {
                break ;
            },
        };
        let answer = compute(request);
        proof {
            let progress = evaluation.progress();
            use_type_invariant(&evaluation);
            lemma_step_advances(*set, progress, answer);
            assert forall|ar: Arithmetic|
                computes(compute, ar) implies agrees(*set, step(*set, progress, answer), ar) by {
                lemma_step_agrees(*set, progress, ar);
            }
        }
        evaluation.supply(answer);
        proof {
            assert(answers.push(answer).drop_last() =~= answers);
            answers = answers.push(answer);
        }
    }
    match evaluation.outcome() {
        Some(outcome) => outcome,
        None => unreached(),
    }
}

} // verus!
