use std::cell::RefCell;
use vault_risk::aggregate::{fold, RiskSummary};
use vault_risk::analysis::{analyse, countable, Analysis, PairResult};
use vault_risk::arithmetic::{Operation, Request};
use vault_risk::binary64::Binary64;
use vault_risk::exposure::SetOutcome;
use vault_risk::json_structure::{
    BlockSnapshot, Data, Decimal, SubgraphVault, Vault, VaultLog, VaultSet, VaultWithLog,
};
use vault_risk::liquidation::LiquidationIndex;
use vault_risk::matcher::{match_pair, MatchError};
use vault_risk::pairs::BlockPairs;
use vault_risk::store::AllVaultsAtBlock;

fn pack(x: f64) -> Binary64 {
    Binary64::from_bits(x.to_bits())
}

fn answer(request: Request) -> Binary64 {
    let left = f64::from_bits(request.left.to_bits());
    let right = f64::from_bits(request.right.to_bits());
    pack(match request.operation {
        Operation::Product => left * right,
        Operation::Quotient => left / right,
        Operation::Sum => left + right,
        Operation::Difference => left - right,
    })
}

fn quantity(text: &str) -> Decimal {
    Decimal { text: text.to_string(), value: text.parse::<f64>().ok().map(pack) }
}

fn vault(id: &str, collateral: &str, debt: &str) -> SubgraphVault {
    SubgraphVault {
        id: id.to_string(),
        collateral: quantity(collateral),
        debt: quantity(debt),
        cdpId: None,
        updatedAt: None,
        updatedAtBlock: None,
        updatedAtTransaction: None,
        safetyLevel: String::new(),
    }
}

fn block(symbol: &str, timestamp: &str, price: &str, vaults: Vec<SubgraphVault>) -> BlockSnapshot {
    let mut block = BlockSnapshot::new();
    block.insert(
        symbol.to_string(),
        VaultSet {
            timestamp: timestamp.to_string(),
            resultArray: vaults,
            price: quantity(price),
            rate: quantity("1.0"),
            liquidationRatio: quantity("1.5"),
        },
    );
    block
}

fn history(entries: &[(&str, &[u64])]) -> LiquidationIndex {
    let mut list = vec![];
    for (id, times) in entries {
        let logs = times
            .iter()
            .map(|t| VaultLog {
                __typename: "liquidationStartLog".to_string(),
                timestamp: t.to_string(),
            })
            .collect();
        list.push((id.to_string(), Vault { vaults: vec![VaultWithLog { cdpId: None, logs }] }));
    }
    LiquidationIndex::build(&list)
}

fn quiet(_pair: &Data, _result: &PairResult) {}

fn two_vaults() -> Vec<SubgraphVault> {
    vec![vault("safe", "1", "500"), vault("risky", "1", "1000")]
}

#[test]
fn price_drop_from_the_snapshots_to_the_summary() {
    let mut store = AllVaultsAtBlock::new();
    store.insert("200".to_string(), block("ETH-A", "2000", "900", vec![vault("safe", "1", "500")]));
    store.insert("100".to_string(), block("ETH-A", "1000", "1000", two_vaults()));
    let index = history(&[("risky", &[1500]), ("safe", &[2500])]);
    let seen = RefCell::new(vec![]);
    let observe = |pair: &Data, result: &PairResult| {
        assert_eq!(pair.firstBlock, "100");
        assert_eq!(pair.secondBlock, "200");
        match result {
            PairResult::Matched { transitions, outcome } => {
                assert_eq!(transitions.vaultTransition.len(), 2);
                assert!(!transitions.vaultTransition[0].liquidated);
                assert!(transitions.vaultTransition[0].second.is_some());
                assert!(transitions.vaultTransition[1].liquidated);
                assert_eq!(transitions.vaultTransition[1].liquidationTimestamp, Some(1500));
                assert!(transitions.vaultTransition[1].second.is_none());
                seen.borrow_mut().push(*outcome);
            }
            PairResult::LeftOut { error } => panic!("left out: {:?}", error),
        }
    };
    assert!(countable(&store));
    let analysis = analyse(&store, &index, &answer, &observe);
    assert_eq!(
        analysis,
        Analysis {
            summary: RiskSummary { sum: pack(0.0), count: 1, mean: pack(0.0) },
            pairs: 1,
            left_out: 0,
        }
    );
    assert_eq!(
        *seen.borrow(),
        vec![SetOutcome::Scored {
            ratio: pack(0.9),
            estimated: pack(1000.0),
            realized: pack(1000.0),
            deviation: pack(0.0),
        }]
    );
}

#[test]
fn a_missed_liquidation_is_a_full_deviation() {
    let mut store = AllVaultsAtBlock::new();
    store.insert("100".to_string(), block("ETH-A", "1000", "1000", two_vaults()));
    store.insert("200".to_string(), block("ETH-A", "2000", "900", two_vaults()));
    let analysis = analyse(&store, &LiquidationIndex::new(), &answer, &quiet);
    assert_eq!(analysis.summary, RiskSummary { sum: pack(1.0), count: 1, mean: pack(100.0) });
}

#[test]
fn a_pair_that_cannot_be_matched_is_left_out_and_the_rest_goes_on() {
    let mut store = AllVaultsAtBlock::new();
    store.insert("100".to_string(), block("ETH-A", "1000", "1000", two_vaults()));
    store.insert("150".to_string(), block("WBTC-A", "1500", "950", two_vaults()));
    store.insert("200".to_string(), block("ETH-A", "2000", "900", two_vaults()));
    let index = history(&[("risky", &[1500])]);
    let seen = RefCell::new(vec![]);
    let observe = |pair: &Data, result: &PairResult| {
        let found = match result {
            PairResult::Matched { outcome, .. } => Ok(*outcome),
            PairResult::LeftOut { error } => Err(*error),
        };
        seen.borrow_mut().push((pair.firstBlock.clone(), pair.secondBlock.clone(), found));
    };
    let analysis = analyse(&store, &index, &answer, &observe);
    assert_eq!(analysis.pairs, 3);
    assert_eq!(analysis.left_out, 2);
    assert_eq!(analysis.summary, RiskSummary { sum: pack(0.0), count: 1, mean: pack(0.0) });
    let scored = SetOutcome::Scored {
        ratio: pack(0.9),
        estimated: pack(1000.0),
        realized: pack(1000.0),
        deviation: pack(0.0),
    };
    assert_eq!(
        *seen.borrow(),
        vec![
            ("100".to_string(), "150".to_string(), Err(MatchError::MissingCollateralType)),
            ("100".to_string(), "200".to_string(), Ok(scored)),
            ("150".to_string(), "200".to_string(), Err(MatchError::MissingCollateralType)),
        ]
    );
}

#[test]
fn an_empty_store_has_an_empty_statistic() {
    let store = AllVaultsAtBlock::new();
    let analysis = analyse(&store, &LiquidationIndex::new(), &answer, &quiet);
    assert_eq!(analysis.pairs, 0);
    assert_eq!(analysis.left_out, 0);
    assert_eq!(analysis.summary.count, 0);
    assert_eq!(analysis.summary.sum, pack(0.0));
    assert!(analysis.summary.mean.is_nan());
    assert!(countable(&store));
}

fn blocks() -> Vec<(&'static str, &'static str, &'static str)> {
    vec![
        ("100", "1000", "1000.3"),
        ("5000", "2000", "910.7"),
        ("9000", "3000", "700.1"),
        ("12000", "4000", "1200"),
        ("50000", "5000", "650.9"),
    ]
}

fn varied_vaults() -> Vec<SubgraphVault> {
    vec![
        vault("a", "1.25", "1000.1"),
        vault("b", "0.3", "400.7"),
        vault("c", "2", "3000.3"),
        vault("d", "0.1", "0.1"),
        vault("e", "0", "12"),
    ]
}

fn run(order: &[usize]) -> (Analysis, Vec<Request>) {
    let mut store = AllVaultsAtBlock::new();
    let all = blocks();
    for place in order {
        let (height, timestamp, price) = all[*place];
        store.insert(height.to_string(), block("ETH-A", timestamp, price, varied_vaults()));
    }
    let index = history(&[("a", &[1500, 3500]), ("c", &[2500]), ("d", &[4500]), ("e", &[1500])]);
    let asked = RefCell::new(vec![]);
    let compute = |request: Request| {
        asked.borrow_mut().push(request);
        answer(request)
    };
    let analysis = analyse(&store, &index, &compute, &quiet);
    (analysis, asked.into_inner())
}

#[test]
fn the_same_input_gives_the_same_analysis() {
    let (first, first_asked) = run(&[0, 1, 2, 3, 4]);
    let (second, second_asked) = run(&[0, 1, 2, 3, 4]);
    assert_eq!(first, second);
    assert_eq!(first_asked, second_asked);
    assert_eq!(first.pairs, 7);
    assert_eq!(first.left_out, 0);
    assert!(first.summary.count >= 1);
    assert!(!first.summary.mean.is_nan());
}

#[test]
fn the_order_of_loading_does_not_change_the_analysis() {
    let (expected, expected_asked) = run(&[0, 1, 2, 3, 4]);
    for order in [[4, 3, 2, 1, 0], [2, 0, 4, 1, 3], [1, 4, 0, 3, 2], [3, 2, 4, 0, 1]] {
        let (analysis, asked) = run(&order);
        assert_eq!(analysis, expected);
        assert_eq!(asked, expected_asked);
    }
}

#[test]
fn a_large_store_is_not_countable() {
    let mut store = AllVaultsAtBlock::new();
    for height in 0..65535u64 {
        store.insert(height.to_string(), BlockSnapshot::new());
    }
    assert_eq!(store.len(), 65535);
    assert!(countable(&store));
    store.insert("65535".to_string(), BlockSnapshot::new());
    assert_eq!(store.len(), 65536);
    assert!(!countable(&store));
}

#[test]
fn the_analysis_is_the_fold_of_the_matched_pairs() {
    let mut store = AllVaultsAtBlock::new();
    for (place, (height, timestamp, price)) in blocks().into_iter().enumerate() {
        let symbol = if place == 2 { "WBTC-A" } else { "ETH-A" };
        store.insert(height.to_string(), block(symbol, timestamp, price, varied_vaults()));
    }
    let index = history(&[("a", &[1500, 3500]), ("c", &[2500]), ("d", &[4500])]);
    let pairs = BlockPairs::enumerate(&store);
    let mut matched = vec![];
    let mut left_out = 0;
    for pair in &pairs {
        match match_pair(pair, &index) {
            Ok(transitions) => matched.push(transitions),
            Err(MatchError::MissingCollateralType) => left_out += 1,
        }
    }
    let analysis = analyse(&store, &index, &answer, &quiet);
    assert_eq!(analysis.pairs, pairs.len());
    assert_eq!(analysis.left_out, left_out);
    assert_eq!(analysis.left_out, 3);
    assert_eq!(analysis.summary, fold(&matched, &answer));
}
