use vault_risk::aggregate::{fold, RiskAggregator, RiskSummary};
use vault_risk::arithmetic::{Operation, Request};
use vault_risk::binary64::Binary64;
use vault_risk::evaluation::{evaluate as evaluate_with, SetEvaluation};
use vault_risk::exposure::{includes_liquidation, SetOutcome};
use vault_risk::json_structure::{
    BlockDiffMetadata, Decimal, SubgraphVault, VaultTransitionInnerType,
    VaultTransitionWithMetadata,
};

fn pack(x: f64) -> Binary64 {
    Binary64::from_bits(x.to_bits())
}

fn unpack(x: Binary64) -> f64 {
    f64::from_bits(x.to_bits())
}

fn answer(request: Request) -> Binary64 {
    compute(&request)
}

fn compute(request: &Request) -> Binary64 {
    let left = unpack(request.left);
    let right = unpack(request.right);
    pack(match request.operation {
        Operation::Product => left * right,
        Operation::Quotient => left / right,
        Operation::Sum => left + right,
        Operation::Difference => left - right,
    })
}

fn quantity(text: &str) -> Decimal {
    Decimal { text: text.to_string(), value: text.parse::<f64>().ok().map(pack) }
}

fn vault(id: &str, collateral: &str, debt: &str) -> SubgraphVault {
    SubgraphVault {
        id: id.to_string(),
        collateral: quantity(collateral),
        debt: quantity(debt),
        cdpId: None,
        updatedAt: None,
        updatedAtBlock: None,
        updatedAtTransaction: None,
        safetyLevel: String::new(),
    }
}

fn meta(first_price: &str, second_price: &str, ratio: &str, rate: &str) -> BlockDiffMetadata {
    BlockDiffMetadata {
        firstBlock: "100".to_string(),
        firstTimestamp: "1000".to_string(),
        firstPrice: quantity(first_price),
        firstRate: quantity(rate),
        firstLiquidationRatio: quantity(ratio),
        secondBlock: "200".to_string(),
        secondTimestamp: "2000".to_string(),
        secondPrice: quantity(second_price),
        secondRate: quantity("77"),
        secondLiquidationRatio: quantity("88"),
    }
}

fn transitions<'a>(vaults: &'a [SubgraphVault], liquidated: &[bool]) -> Vec<VaultTransitionInnerType<'a>> {
    vaults
        .iter()
        .zip(liquidated)
        .map(|(vault, liquidated)| VaultTransitionInnerType {
            first: vault,
            second: None,
            liquidated: *liquidated,
            liquidationTimestamp: if *liquidated { Some(1500) } else { None },
        })
        .collect()
}

fn evaluate(set: &VaultTransitionWithMetadata) -> (SetOutcome, Vec<Request>) {
    let mut evaluation = SetEvaluation::begin(set);
    let mut asked = vec![];
    loop {
        match evaluation.pending() {
            Some(request) => {
                assert!(evaluation.outcome().is_none());
                asked.push(request);
                evaluation.supply(compute(&request));
            }
            None => break,
        }
    }
    let outcome = evaluation.outcome().unwrap();
    evaluation.supply(pack(12345.0));
    assert!(evaluation.pending().is_none());
    assert_eq!(evaluation.outcome(), Some(outcome));
    assert_eq!(evaluate_with(set, &answer), outcome);
    (outcome, asked)
}

fn record(aggregator: &mut RiskAggregator, outcome: &SetOutcome) {
    assert!(aggregator.is_collecting());
    assert!(aggregator.count() < u32::MAX);
    aggregator.offer(outcome);
    while let Some(request) = aggregator.pending() {
        aggregator.supply(compute(&request));
    }
}

fn finish(mut aggregator: RiskAggregator) -> RiskSummary {
    assert!(aggregator.is_collecting());
    assert!(aggregator.summary().is_none());
    aggregator.close();
    while let Some(request) = aggregator.pending() {
        assert!(aggregator.summary().is_none());
        aggregator.supply(compute(&request));
    }
    aggregator.summary().unwrap()
}

fn scored(deviation: f64) -> SetOutcome {
    SetOutcome::Scored {
        ratio: pack(0.5),
        estimated: pack(1.0),
        realized: pack(1.0),
        deviation: pack(deviation),
    }
}

#[test]
fn equal_capitals_deviate_by_zero() {
    let vaults = [vault("a", "1", "100")];
    let set = VaultTransitionWithMetadata {
        meta: meta("1000", "100", "1.5", "1.0"),
        vaultTransition: transitions(&vaults, &[true]),
    };
    let (outcome, _) = evaluate(&set);
    assert_eq!(
        outcome,
        SetOutcome::Scored {
            ratio: pack(0.1),
            estimated: pack(100.0),
            realized: pack(100.0),
            deviation: pack(0.0),
        }
    );
    let mut aggregator = RiskAggregator::new();
    record(&mut aggregator, &outcome);
    assert_eq!(aggregator.count(), 1);
    assert_eq!(aggregator.sum(), pack(0.0));
    let summary = finish(aggregator);
    assert_eq!(summary, RiskSummary { sum: pack(0.0), count: 1, mean: pack(0.0) });
}

#[test]
fn no_estimate_no_data_point() {
    let vaults = [vault("a", "1", "100")];
    let set = VaultTransitionWithMetadata {
        meta: meta("1000", "900", "1.5", "1.0"),
        vaultTransition: transitions(&vaults, &[true]),
    };
    let (outcome, asked) = evaluate(&set);
    assert_eq!(
        outcome,
        SetOutcome::NoEstimate { ratio: pack(0.9), estimated: pack(0.0), realized: pack(100.0) }
    );
    assert!(asked.iter().all(|r| !(r.operation == Operation::Quotient && r.right == pack(0.0))));
    assert_eq!(asked.last().unwrap().operation, Operation::Sum);
    let mut aggregator = RiskAggregator::new();
    record(&mut aggregator, &scored(0.25));
    let before = (aggregator.sum(), aggregator.count());
    record(&mut aggregator, &outcome);
    assert_eq!((aggregator.sum(), aggregator.count()), before);
    assert!(aggregator.pending().is_none());
    assert_eq!(finish(aggregator), RiskSummary { sum: pack(0.25), count: 1, mean: pack(25.0) });
}

#[test]
fn a_pair_without_transitions_has_no_estimate() {
    let set = VaultTransitionWithMetadata {
        meta: meta("1000", "900", "1.5", "1.0"),
        vaultTransition: vec![],
    };
    let (outcome, asked) = evaluate(&set);
    assert_eq!(
        outcome,
        SetOutcome::NoEstimate { ratio: pack(0.9), estimated: pack(0.0), realized: pack(0.0) }
    );
    assert_eq!(asked.len(), 1);
}

#[test]
fn price_drop_with_one_safe_and_one_liquidated_vault() {
    let vaults = [vault("safe", "1", "500"), vault("risky", "1", "1000")];
    let set = VaultTransitionWithMetadata {
        meta: meta("1000", "900", "1.5", "1.0"),
        vaultTransition: transitions(&vaults, &[false, true]),
    };
    let (outcome, asked) = evaluate(&set);
    assert_eq!(
        outcome,
        SetOutcome::Scored {
            ratio: pack(0.9),
            estimated: pack(1000.0),
            realized: pack(1000.0),
            deviation: pack(0.0),
        }
    );
    let quotient = |l: f64, r: f64| Request { operation: Operation::Quotient, left: pack(l), right: pack(r) };
    let product = |l: f64, r: f64| Request { operation: Operation::Product, left: pack(l), right: pack(r) };
    let sum = |l: f64, r: f64| Request { operation: Operation::Sum, left: pack(l), right: pack(r) };
    let difference =
        |l: f64, r: f64| Request { operation: Operation::Difference, left: pack(l), right: pack(r) };
    assert_eq!(
        asked,
        vec![
            quotient(900.0, 1000.0),
            product(1.0, 900.0),
            product(500.0, 1.5),
            product(750.0, 1.0),
            sum(0.0, 0.0),
            sum(0.0, 0.0),
            product(1.0, 900.0),
            product(1000.0, 1.5),
            product(1500.0, 1.0),
            sum(0.0, 1000.0),
            sum(0.0, 1000.0),
            difference(1000.0, 1000.0),
            quotient(0.0, 1000.0),
        ]
    );
    assert!(includes_liquidation(&set));
}

#[test]
fn the_same_input_gives_the_same_summary() {
    let run = || {
        let vaults = [
            vault("a", "1.25", "1000.1"),
            vault("b", "0.3", "400.7"),
            vault("c", "2", "3000.3"),
            vault("d", "0.1", "0.1"),
        ];
        let sets = [
            VaultTransitionWithMetadata {
                meta: meta("1000.3", "910.7", "1.45", "1.013"),
                vaultTransition: transitions(&vaults, &[true, false, false, true]),
            },
            VaultTransitionWithMetadata {
                meta: meta("1000.3", "700.1", "1.5", "1.02"),
                vaultTransition: transitions(&vaults, &[false, true, true, false]),
            },
            VaultTransitionWithMetadata {
                meta: meta("1000.3", "1200", "1.5", "1.02"),
                vaultTransition: transitions(&vaults, &[false, true, true, false]),
            },
        ];
        let mut aggregator = RiskAggregator::new();
        let mut asked = vec![];
        for set in &sets {
            let (outcome, requests) = evaluate(set);
            asked.extend(requests);
            record(&mut aggregator, &outcome);
        }
        (finish(aggregator), asked)
    };
    let (first, first_asked) = run();
    let (second, second_asked) = run();
    assert_eq!(first, second);
    assert_eq!(first_asked, second_asked);
    assert_eq!(first.count, 2);
    assert!(!first.mean.is_nan());
}

#[test]
fn a_price_that_did_not_fall_is_not_scored() {
    let vaults = [vault("a", "1", "100000")];
    for (first, second, ratio) in [("1000", "1000", 1.0), ("1000", "1100", 1.1), ("900", "1000", 1000.0 / 900.0)] {
        let set = VaultTransitionWithMetadata {
            meta: meta(first, second, "1.5", "1.0"),
            vaultTransition: transitions(&vaults, &[true]),
        };
        let (outcome, asked) = evaluate(&set);
        assert_eq!(outcome, SetOutcome::NoDecline { ratio: pack(ratio) });
        assert_eq!(asked.len(), 1);
        let mut aggregator = RiskAggregator::new();
        record(&mut aggregator, &outcome);
        assert_eq!(aggregator.count(), 0);
        assert_eq!(aggregator.sum(), pack(0.0));
    }
}

#[test]
fn a_price_ratio_that_is_not_a_number_is_not_scored() {
    let vaults = [vault("a", "1", "100000")];
    let set = VaultTransitionWithMetadata {
        meta: meta("0", "0", "1.5", "1.0"),
        vaultTransition: transitions(&vaults, &[true]),
    };
    let (outcome, _) = evaluate(&set);
    match outcome {
        SetOutcome::NoDecline { ratio } => assert!(ratio.is_nan()),
        other => panic!("unexpected outcome {:?}", other),
    }
}

#[test]
fn a_pair_without_a_price_is_passed_over() {
    let vaults = [vault("a", "1", "100000")];
    for (first, second) in [("", "900"), ("1000", "n/a"), ("?", "?")] {
        let set = VaultTransitionWithMetadata {
            meta: meta(first, second, "1.5", "1.0"),
            vaultTransition: transitions(&vaults, &[true]),
        };
        let (outcome, asked) = evaluate(&set);
        assert_eq!(outcome, SetOutcome::Unpriced);
        assert!(asked.is_empty());
        let mut aggregator = RiskAggregator::new();
        record(&mut aggregator, &outcome);
        assert_eq!(aggregator.count(), 0);
    }
}

#[test]
fn a_deviation_that_is_not_a_number_is_kept_out() {
    let vaults = [vault("a", "1", "inf")];
    let set = VaultTransitionWithMetadata {
        meta: meta("1000", "900", "1.5", "1.0"),
        vaultTransition: transitions(&vaults, &[true]),
    };
    let (outcome, _) = evaluate(&set);
    assert_eq!(
        outcome,
        SetOutcome::NotANumber {
            ratio: pack(0.9),
            estimated: pack(f64::INFINITY),
            realized: pack(f64::INFINITY),
        }
    );
    let mut aggregator = RiskAggregator::new();
    record(&mut aggregator, &scored(0.5));
    record(&mut aggregator, &outcome);
    assert_eq!(aggregator.count(), 1);
    assert_eq!(aggregator.sum(), pack(0.5));
    let summary = finish(aggregator);
    assert!(!summary.sum.is_nan());
    assert_eq!(summary, RiskSummary { sum: pack(0.5), count: 1, mean: pack(50.0) });
}

#[test]
fn the_threshold_itself_is_at_risk() {
    let vaults = [vault("below", "1", "601"), vault("at", "1", "600"), vault("above", "1", "599")];
    let set = VaultTransitionWithMetadata {
        meta: meta("1000", "900", "1.5", "1.0"),
        vaultTransition: transitions(&vaults, &[false, false, false]),
    };
    let (outcome, _) = evaluate(&set);
    assert_eq!(
        outcome,
        SetOutcome::Scored {
            ratio: pack(0.9),
            estimated: pack(1201.0),
            realized: pack(0.0),
            deviation: pack(1.0),
        }
    );
    assert!(!includes_liquidation(&set));
}

#[test]
fn the_rate_and_the_ratio_of_the_first_block_count() {
    let vaults = [vault("a", "1", "500")];
    let set = VaultTransitionWithMetadata {
        meta: meta("1000", "900", "1.5", "1.25"),
        vaultTransition: transitions(&vaults, &[false]),
    };
    let (outcome, asked) = evaluate(&set);
    assert_eq!(
        outcome,
        SetOutcome::Scored {
            ratio: pack(0.9),
            estimated: pack(500.0),
            realized: pack(0.0),
            deviation: pack(1.0),
        }
    );
    assert_eq!(
        asked[3],
        Request { operation: Operation::Product, left: pack(750.0), right: pack(1.25) }
    );
}

#[test]
fn a_transition_with_an_unreadable_operand_adds_nothing_to_the_estimate() {
    let vaults = [vault("a", "1", "1000"), vault("b", "?", "1000"), vault("c", "1", "")];
    for (ratio, rate) in [("1.5", "1.0"), ("", "1.0"), ("1.5", "fast")] {
        let set = VaultTransitionWithMetadata {
            meta: meta("1000", "900", ratio, rate),
            vaultTransition: transitions(&vaults, &[true, true, true]),
        };
        let (outcome, asked) = evaluate(&set);
        let products = asked.iter().filter(|r| r.operation == Operation::Product).count();
        if ratio == "1.5" && rate == "1.0" {
            assert_eq!(products, 3);
            assert_eq!(
                outcome,
                SetOutcome::Scored {
                    ratio: pack(0.9),
                    estimated: pack(1000.0),
                    realized: pack(2000.0),
                    deviation: pack(1.0),
                }
            );
        } else {
            assert_eq!(products, 0);
            assert_eq!(
                outcome,
                SetOutcome::NoEstimate {
                    ratio: pack(0.9),
                    estimated: pack(0.0),
                    realized: pack(2000.0),
                }
            );
        }
    }
}

#[test]
fn the_deviation_is_the_distance_as_a_share_of_the_estimate() {
    let vaults = [vault("a", "1", "1000"), vault("b", "1", "3000")];
    let set = VaultTransitionWithMetadata {
        meta: meta("1000", "900", "1.5", "1.0"),
        vaultTransition: transitions(&vaults, &[true, false]),
    };
    let (outcome, asked) = evaluate(&set);
    assert_eq!(
        outcome,
        SetOutcome::Scored {
            ratio: pack(0.9),
            estimated: pack(4000.0),
            realized: pack(1000.0),
            deviation: pack(0.75),
        }
    );
    let n = asked.len();
    assert_eq!(
        asked[n - 2],
        Request { operation: Operation::Difference, left: pack(1000.0), right: pack(4000.0) }
    );
    assert_eq!(
        asked[n - 1],
        Request { operation: Operation::Quotient, left: pack(3000.0), right: pack(4000.0) }
    );
}

#[test]
fn an_evaluation_ends_within_its_bound() {
    for count in [0usize, 1, 2, 5, 40] {
        let vaults: Vec<SubgraphVault> =
            (0..count).map(|k| vault(&k.to_string(), "1", "1000")).collect();
        let flags = vec![true; count];
        let set = VaultTransitionWithMetadata {
            meta: meta("1000", "900", "1.5", "1.0"),
            vaultTransition: transitions(&vaults, &flags),
        };
        let (_, asked) = evaluate(&set);
        assert!(asked.len() <= 5 * count + 3);
        if count > 0 {
            assert_eq!(asked.len(), 5 * count + 3);
        }
    }
}

#[test]
fn the_mean_is_the_sum_over_the_count_in_percent() {
    let mut aggregator = RiskAggregator::new();
    record(&mut aggregator, &scored(0.5));
    record(&mut aggregator, &SetOutcome::Unpriced);
    record(&mut aggregator, &scored(0.25));
    record(&mut aggregator, &SetOutcome::NoDecline { ratio: pack(1.5) });
    assert_eq!(aggregator.sum(), pack(0.75));
    assert_eq!(aggregator.count(), 2);
    aggregator.close();
    assert!(!aggregator.is_collecting());
    assert_eq!(
        aggregator.pending(),
        Some(Request { operation: Operation::Quotient, left: pack(0.75), right: pack(2.0) })
    );
    aggregator.supply(pack(0.375));
    assert_eq!(
        aggregator.pending(),
        Some(Request { operation: Operation::Product, left: pack(0.375), right: pack(100.0) })
    );
    aggregator.supply(pack(37.5));
    assert_eq!(aggregator.pending(), None);
    assert_eq!(
        aggregator.summary(),
        Some(RiskSummary { sum: pack(0.75), count: 2, mean: pack(37.5) })
    );
    aggregator.supply(pack(1.0));
    assert_eq!(
        aggregator.summary(),
        Some(RiskSummary { sum: pack(0.75), count: 2, mean: pack(37.5) })
    );
}

#[test]
fn deviations_are_added_in_the_order_of_the_pairs() {
    let mut aggregator = RiskAggregator::new();
    let deviations = [1e16, 1.0, 1.0, -1e16];
    let mut expected = 0.0f64;
    for d in deviations {
        expected += d;
        aggregator.offer(&scored(d));
        let request = aggregator.pending().unwrap();
        assert_eq!(request.operation, Operation::Sum);
        assert_eq!(request.right, pack(d));
        aggregator.supply(compute(&request));
        assert_eq!(aggregator.sum(), pack(expected));
    }
    assert_eq!(aggregator.count(), 4);
}

#[test]
fn record_and_finish_drive_the_aggregator() {
    let mut aggregator = RiskAggregator::new();
    aggregator.record(&scored(0.5), &answer);
    aggregator.record(&SetOutcome::Unpriced, &answer);
    aggregator.record(&scored(0.25), &answer);
    aggregator.record(
        &SetOutcome::NoEstimate { ratio: pack(0.5), estimated: pack(0.0), realized: pack(9.0) },
        &answer,
    );
    aggregator.record(
        &SetOutcome::NotANumber {
            ratio: pack(0.5),
            estimated: pack(f64::INFINITY),
            realized: pack(f64::INFINITY),
        },
        &answer,
    );
    assert!(aggregator.is_collecting());
    assert!(aggregator.pending().is_none());
    assert_eq!(aggregator.sum(), pack(0.75));
    assert_eq!(aggregator.count(), 2);
    let summary = aggregator.finish(&answer);
    assert_eq!(summary, RiskSummary { sum: pack(0.75), count: 2, mean: pack(37.5) });
    assert_eq!(aggregator.summary(), Some(summary));
    assert!(!aggregator.is_collecting());
}

#[test]
fn fold_gives_the_statistic_of_a_sequence() {
    let vaults = [vault("a", "1", "1000"), vault("b", "1", "3000")];
    let sets = vec![
        VaultTransitionWithMetadata {
            meta: meta("1000", "900", "1.5", "1.0"),
            vaultTransition: transitions(&vaults, &[true, false]),
        },
        VaultTransitionWithMetadata {
            meta: meta("1000", "1100", "1.5", "1.0"),
            vaultTransition: transitions(&vaults, &[true, true]),
        },
        VaultTransitionWithMetadata {
            meta: meta("1000", "900", "1.5", "1.0"),
            vaultTransition: transitions(&vaults, &[true, true]),
        },
        VaultTransitionWithMetadata {
            meta: meta("1000", "900", "1.5", "1.0"),
            vaultTransition: transitions(&vaults, &[false, true]),
        },
        VaultTransitionWithMetadata {
            meta: meta("", "900", "1.5", "1.0"),
            vaultTransition: transitions(&vaults, &[false, true]),
        },
    ];
    let summary = fold(&sets, &answer);
    assert_eq!(summary, RiskSummary { sum: pack(1.0), count: 3, mean: pack(1.0 / 3.0 * 100.0) });
    let empty: Vec<VaultTransitionWithMetadata> = vec![];
    let nothing = fold(&empty, &answer);
    assert_eq!(nothing.sum, pack(0.0));
    assert_eq!(nothing.count, 0);
    assert!(nothing.mean.is_nan());
}

#[test]
fn without_data_points_the_mean_is_not_a_number() {
    let summary = finish(RiskAggregator::new());
    assert_eq!(summary.sum, pack(0.0));
    assert_eq!(summary.count, 0);
    assert!(summary.mean.is_nan());
}

fn expected_outcome(set: &VaultTransitionWithMetadata) -> SetOutcome {
    let first_price = set.meta.firstPrice.text.parse::<f64>();
    let second_price = set.meta.secondPrice.text.parse::<f64>();
    let (first_price, second_price) = match (first_price, second_price) {
        (Ok(first), Ok(second)) => (first, second),
        _ => return SetOutcome::Unpriced,
    };
    let ratio = second_price / first_price;
    if !(ratio < 1.0) {
        return SetOutcome::NoDecline { ratio: pack(ratio) };
    }
    let estimated = set
        .vaultTransition
        .iter()
        .map(|transition| {
            match (
                transition.first.collateral.text.parse::<f64>(),
                transition.first.debt.text.parse::<f64>(),
                set.meta.firstLiquidationRatio.text.parse::<f64>(),
                set.meta.firstRate.text.parse::<f64>(),
            ) {
                (Ok(collateral), Ok(debt), Ok(liquidation_ratio), Ok(rate)) => {
                    if collateral * second_price > debt * liquidation_ratio * rate {
                        0.0
                    } else {
                        debt
                    }
                }
                _ => 0.0,
            }
        })
        .fold(0.0, |x, y| x + y);
    let realized = set
        .vaultTransition
        .iter()
        .map(|transition| {
            if transition.liquidated {
                match transition.first.debt.text.parse::<f64>() {
                    Ok(debt) => debt,
                    _ => 0.0,
                }
            } else {
                0.0
            }
        })
        .fold(0.0, |x, y| x + y);
    if !(estimated > 0.0) {
        return SetOutcome::NoEstimate {
            ratio: pack(ratio),
            estimated: pack(estimated),
            realized: pack(realized),
        };
    }
    let deviation = (realized - estimated).abs() / estimated;
    if deviation.is_nan() {
        SetOutcome::NotANumber {
            ratio: pack(ratio),
            estimated: pack(estimated),
            realized: pack(realized),
        }
    } else {
        SetOutcome::Scored {
            ratio: pack(ratio),
            estimated: pack(estimated),
            realized: pack(realized),
            deviation: pack(deviation),
        }
    }
}

#[test]
fn evaluation_agrees_with_the_formulas_on_many_pairs() {
    let amounts = [
        "0.1", "1", "1.25", "2.5", "17.75", "500", "750.5", "1000", "1e3", "3000.3", "1e-3", "inf",
        "1e308", "x", "",
    ];
    let prices = ["1000", "900", "910.7", "1200", "0", "1e-320", "inf", "NaN", "", "700.1"];
    let ratios = ["1.5", "1.45", "1.75", "0", "?", "1e300"];
    let rates = ["1.0", "1.013", "1.02", "", "2"];
    let mut state = 0xA5A5_5A5A_1234_4321u64;
    let mut next = move || {
        state ^= state << 13;
        state ^= state >> 7;
        state ^= state << 17;
        state as usize
    };
    let mut scored = 0;
    for _ in 0..3000 {
        let count = next() % 6;
        let vaults: Vec<SubgraphVault> = (0..count)
            .map(|k| {
                vault(&k.to_string(), amounts[next() % amounts.len()], amounts[next() % amounts.len()])
            })
            .collect();
        let flags: Vec<bool> = (0..count).map(|_| next() % 2 == 0).collect();
        let declining = next() % 4 != 0;
        let (first, second) = if declining {
            ("1000", prices[next() % 3 + 1])
        } else {
            (prices[next() % prices.len()], prices[next() % prices.len()])
        };
        let set = VaultTransitionWithMetadata {
            meta: meta(first, second, ratios[next() % ratios.len()], rates[next() % rates.len()]),
            vaultTransition: transitions(&vaults, &flags),
        };
        let expected = expected_outcome(&set);
        let found = evaluate_with(&set, &answer);
        match (found, expected) {
            (
                SetOutcome::NoDecline { ratio: found },
                SetOutcome::NoDecline { ratio: expected },
            ) if found.is_nan() && expected.is_nan() => {}
            _ => assert_eq!(found, expected, "for {:?}", set),
        }
        if let SetOutcome::Scored { .. } = found {
            scored += 1;
        }
    }
    assert!(scored > 300);
}

#[test]
fn fold_agrees_with_adding_up_the_deviations() {
    let vaults = [
        vault("a", "1.25", "1000.1"),
        vault("b", "0.3", "400.7"),
        vault("c", "2", "3000.3"),
        vault("d", "0.1", "0.1"),
    ];
    let seconds = ["910.7", "700.1", "1200", "999.9", "123.4", "", "0"];
    let mut sets = vec![];
    for (k, second) in seconds.iter().enumerate() {
        let flags = [k % 2 == 0, k % 3 == 0, k % 2 == 1, k % 5 == 0];
        sets.push(VaultTransitionWithMetadata {
            meta: meta("1000.3", second, "1.45", "1.013"),
            vaultTransition: transitions(&vaults, &flags),
        });
    }
    let mut sum = 0.0f64;
    let mut count = 0u32;
    for set in &sets {
        if let SetOutcome::Scored { deviation, .. } = expected_outcome(set) {
            sum += unpack(deviation);
            count += 1;
        }
    }
    let mean = sum / (count as f64) * 100.0;
    assert!(count >= 3);
    assert_eq!(fold(&sets, &answer), RiskSummary { sum: pack(sum), count, mean: pack(mean) });
}
