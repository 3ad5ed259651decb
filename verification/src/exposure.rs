//! Capital at risk for one pair of blocks.
//!
//! A pair is scored only where the price fell from the first block to the
//! second. The capital estimated to be at risk is the debt of every vault
//! whose collateral, at the second price, no longer covers its debt times the
//! liquidation ratio times the rate; the capital realized at risk is the debt
//! of every vault that was liquidated. The deviation of a pair is the
//! distance between the two, as a share of the estimate.
//!
//! This module says what the capitals and the outcome of a pair are in a
//! given arithmetic. How they are computed, one request at a time, is the
//! matter of the evaluation.

use crate::arithmetic::{difference, product, quotient, sum, Arithmetic};
use crate::binary64::{one, zero, Binary64};
use crate::json_structure::{
    BlockDiffMetadata, VaultTransitionInnerType, VaultTransitionWithMetadata,
};
use vstd::prelude::*;

verus! {

/// The five values that decide whether a vault is estimated to be at risk.
#[derive(Clone, Copy, Debug, PartialEq, Eq, Structural)]
pub struct Operands {
    pub collateral: Binary64,
    pub debt: Binary64,
    pub liquidation_ratio: Binary64,
    pub rate: Binary64,
    pub price: Binary64,
}

/// How the evaluation of a pair ended.
#[derive(Clone, Copy, Debug, PartialEq, Eq, Structural)]
pub enum SetOutcome {
    /// One of the two prices has no value. The pair is passed over.
    Unpriced,
    /// The price did not fall: `ratio`, the second price over the first, is
    /// not below one. The pair is counted and not scored.
    NoDecline { ratio: Binary64 },
    /// Nothing was estimated to be at risk: `estimated` is not above zero.
    /// The pair has no deviation.
    NoEstimate { ratio: Binary64, estimated: Binary64, realized: Binary64 },
    /// The deviation came out as not a number. The pair is reported and kept
    /// out of the statistic.
    NotANumber { ratio: Binary64, estimated: Binary64, realized: Binary64 },
    /// The pair has a deviation.
    Scored { ratio: Binary64, estimated: Binary64, realized: Binary64, deviation: Binary64 },
}

/// The operands of a transition, where all five have a value.
pub open spec fn operands_of(
    transition: VaultTransitionInnerType,
    meta: BlockDiffMetadata,
) -> Option<Operands> {
    match (
        transition.first.collateral.value,
        transition.first.debt.value,
        meta.firstLiquidationRatio.value,
        meta.firstRate.value,
        meta.secondPrice.value,
    ) {
        (Some(collateral), Some(debt), Some(liquidation_ratio), Some(rate), Some(price)) => Some(
            Operands { collateral, debt, liquidation_ratio, rate, price },
        ),
        _ => None,
    }
}

/// What a vault with the given operands adds to the estimate: nothing where
/// its collateral at the second price is above its debt times the liquidation
/// ratio times the rate, and its debt otherwise.
pub open spec fn share_at_risk(operands: Operands, ar: Arithmetic) -> Binary64 {
    let holding = product(ar, operands.collateral, operands.price);
    let required = product(
        ar,
        product(ar, operands.debt, operands.liquidation_ratio),
        operands.rate,
    );
    if required.below(holding) {
        zero()
    } else {
        operands.debt
    }
}

/// What a transition adds to the estimate. A transition for which one of the
/// operands has no value adds nothing.
pub open spec fn estimated_term(
    transition: VaultTransitionInnerType,
    meta: BlockDiffMetadata,
    ar: Arithmetic,
) -> Binary64 {
    match operands_of(transition, meta) {
        Some(operands) => share_at_risk(operands, ar),
        None => zero(),
    }
}

/// What a transition adds to the realized capital: the debt of a vault that
/// was liquidated, and nothing otherwise.
pub open spec fn realized_term(transition: VaultTransitionInnerType) -> Binary64 {
    if transition.liquidated {
        match transition.first.debt.value {
            Some(debt) => debt,
            None => zero(),
        }
    } else {
        zero()
    }
}

/// The capital estimated to be at risk: the terms of the transitions, added
/// up from zero in their order.
pub open spec fn estimated_capital(
    transitions: Seq<VaultTransitionInnerType>,
    meta: BlockDiffMetadata,
    ar: Arithmetic,
) -> Binary64
    decreases transitions.len(),
{
    if transitions.len() == 0 {
        zero()
    } else {
        sum(
            ar,
            estimated_capital(transitions.drop_last(), meta, ar),
            estimated_term(transitions.last(), meta, ar),
        )
    }
}

/// The capital realized at risk: the terms of the transitions, added up from
/// zero in their order.
pub open spec fn realized_capital(
    transitions: Seq<VaultTransitionInnerType>,
    ar: Arithmetic,
) -> Binary64
    decreases transitions.len(),
{
    if transitions.len() == 0 {
        zero()
    } else {
        sum(ar, realized_capital(transitions.drop_last(), ar), realized_term(transitions.last()))
    }
}

/// The deviation of the realized capital from the estimate.
pub open spec fn deviation_of(
    estimated: Binary64,
    realized: Binary64,
    ar: Arithmetic,
) -> Binary64 {
    quotient(ar, difference(ar, realized, estimated).absolute(), estimated)
}

/// How a pair is judged once both capitals are known.
pub open spec fn judged(
    ratio: Binary64,
    estimated: Binary64,
    realized: Binary64,
    ar: Arithmetic,
) -> SetOutcome {
    if !estimated.positive() {
        SetOutcome::NoEstimate { ratio, estimated, realized }
    } else {
        let deviation = deviation_of(estimated, realized, ar);
        if deviation.nan() {
            SetOutcome::NotANumber { ratio, estimated, realized }
        } else {
            SetOutcome::Scored { ratio, estimated, realized, deviation }
        }
    }
}

/// The outcome of a pair with the parameters `meta` and the transitions
/// `transitions`, in the arithmetic `ar`.
pub open spec fn outcome_of(
    meta: BlockDiffMetadata,
    transitions: Seq<VaultTransitionInnerType>,
    ar: Arithmetic,
) -> SetOutcome {
    match (meta.firstPrice.value, meta.secondPrice.value) {
        (Some(first_price), Some(second_price)) => {
            let ratio = quotient(ar, second_price, first_price);
            if ratio.below(one()) {
                judged(
                    ratio,
                    estimated_capital(transitions, meta, ar),
                    realized_capital(transitions, ar),
                    ar,
                )
            } else {
                SetOutcome::NoDecline { ratio }
            }
        },
        _ => SetOutcome::Unpriced,
    }
}

/// Whether any vault of the pair was liquidated.
pub open spec fn any_liquidated(transitions: Seq<VaultTransitionInnerType>) -> bool {
    exists|k: int| 0 <= k < transitions.len() && (#[trigger] transitions[k]).liquidated
}

/// Whether any vault of the pair was liquidated. This is for the report on a
/// pair; no capital depends on it.
pub fn includes_liquidation(set: &VaultTransitionWithMetadata) -> (r: bool)
    ensures
        r == any_liquidated(set.vaultTransition@),
{
    let mut k: usize = 0;
    while k < set.vaultTransition.len()
        invariant
            k <= set.vaultTransition.len(),
            forall|l: int| 0 <= l < k ==> !(#[trigger] set.vaultTransition@[l]).liquidated,
        decreases set.vaultTransition.len() - k,
    {
        if set.vaultTransition[k].liquidated {
            return true;
        }
        k = k + 1;
    }
    false
}

} // verus!
