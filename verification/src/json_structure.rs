//! The records of the two input documents and of the analysis result.
//!
//! Field names follow the documents. A field that holds a quantity is a
//! [`Decimal`]: the text as it stands in the document and, beside it, the
//! binary64 value that the text denotes. Whoever builds a record supplies
//! both; the analysis reads the value and hands the text on.

use crate::binary64::Binary64;
use vstd::hash_map::StringHashMap;
use vstd::prelude::*;

verus! {

/// A quantity of a document: its text, and its value where the text is a
/// number. `value` is `None` for text that could not be read as a number.
#[derive(Debug)]
pub struct Decimal {
    pub text: String,
    pub value: Option<Binary64>,
}

impl Decimal {
    /// Whether the quantity has a value and the value is above zero.
    pub open spec fn positive(&self) -> bool {
        self.value matches Some(v) && v.positive()
    }

    /// Whether the quantity has a value and the value is above zero.
    pub fn is_positive(&self) -> (r: bool)
        ensures
            r == self.positive(),
    {
        match self.value {
            Some(v) => v.is_positive(),
            None => false,
        }
    }
}

impl Clone for Decimal {
    fn clone(&self) -> (copy: Self)
        ensures
            copy == *self,
    {
        Decimal { text: self.text.clone(), value: self.value }
    }
}

/// One entry of a vault's event log.
#[derive(Debug)]
pub struct VaultLog {
    pub __typename: String,
    pub timestamp: String,
}

/// A vault together with its event log, in the order of the document.
#[derive(Debug)]
pub struct VaultWithLog {
    pub cdpId: Option<String>,
    pub logs: Vec<VaultLog>,
}

/// What the event history holds under one vault identifier.
#[derive(Debug)]
pub struct Vault {
    pub vaults: Vec<VaultWithLog>,
}

/// The state of one vault in one snapshot.
#[derive(Debug)]
pub struct SubgraphVault {
    pub id: String,
    pub collateral: Decimal,
    pub debt: Decimal,
    pub cdpId: Option<String>,
    pub updatedAt: Option<String>,
    pub updatedAtBlock: Option<String>,
    pub updatedAtTransaction: Option<String>,
    pub safetyLevel: String,
}

impl SubgraphVault {
    /// Whether the vault holds collateral and owes debt, both above zero.
    /// Only such a vault can be liquidated, and only such a vault is followed
    /// from one snapshot to the next.
    pub open spec fn open_position(&self) -> bool {
        self.collateral.positive() && self.debt.positive()
    }

    /// Whether the vault holds collateral and owes debt, both above zero.
    pub fn has_open_position(&self) -> (r: bool)
        ensures
            r == self.open_position(),
    {
        self.collateral.is_positive() && self.debt.is_positive()
    }
}

/// The vaults of one collateral type at one block, with the block's
/// timestamp and the parameters of the collateral type at that block.
#[derive(Debug)]
pub struct VaultSet {
    pub timestamp: String,
    pub resultArray: Vec<SubgraphVault>,
    pub price: Decimal,
    pub rate: Decimal,
    pub liquidationRatio: Decimal,
}

/// What one block holds: a vault set for each collateral type, by symbol.
pub struct BlockSnapshot {
    sets: StringHashMap<VaultSet>,
}

impl View for BlockSnapshot {
    type V = Map<Seq<char>, VaultSet>;

    closed spec fn view(&self) -> Map<Seq<char>, VaultSet> {
        self.sets@
    }
}

impl BlockSnapshot {
    /// A block without any collateral type.
    pub fn new() -> (snapshot: BlockSnapshot)
        ensures
            snapshot@ == Map::<Seq<char>, VaultSet>::empty(),
    {
        BlockSnapshot { sets: StringHashMap::new() }
    }

    /// Puts `set` under `symbol`, in place of what was there.
    pub fn insert(&mut self, symbol: String, set: VaultSet)
        ensures
            final(self)@ == old(self)@.insert(symbol@, set),
    {
        self.sets.insert(symbol, set);
    }

    /// The vault set of the collateral type `symbol`, if the block has one.
    pub fn get<'a>(&'a self, symbol: &str) -> (found: Option<&'a VaultSet>)
        ensures
            match found {
                Some(set) => self@.contains_key(symbol@) && *set == self@[symbol@],
                None => !self@.contains_key(symbol@),
            },
    {
        self.sets.get(symbol)
    }
}

/// Two blocks to be compared: the earlier one first.
pub struct Data<'a> {
    pub firstBlock: String,
    pub secondBlock: String,
    pub vaultsAtFirstBlock: &'a BlockSnapshot,
    pub vaultsAtSecondBlock: &'a BlockSnapshot,
}

/// What became of one vault between the two blocks of a pair.
///
/// `second` is the vault's record in the later block, or `None` where the
/// later block has no vault of that identifier. `liquidationTimestamp` is the
/// time of the liquidation that makes `liquidated` true.
#[derive(Debug)]
pub struct VaultTransitionInnerType<'a> {
    pub first: &'a SubgraphVault,
    pub second: Option<&'a SubgraphVault>,
    pub liquidated: bool,
    pub liquidationTimestamp: Option<u64>,
}

/// The two blocks of a pair and the parameters of the collateral type at
/// each of them.
#[derive(Debug)]
pub struct BlockDiffMetadata {
    pub firstBlock: String,
    pub firstTimestamp: String,
    pub firstPrice: Decimal,
    pub firstRate: Decimal,
    pub firstLiquidationRatio: Decimal,
    pub secondBlock: String,
    pub secondTimestamp: String,
    pub secondPrice: Decimal,
    pub secondRate: Decimal,
    pub secondLiquidationRatio: Decimal,
}

/// The result for one pair of blocks: one transition for each vault of the
/// earlier block that had an open position, in the order of that block.
#[derive(Debug)]
pub struct VaultTransitionWithMetadata<'a> {
    pub meta: BlockDiffMetadata,
    pub vaultTransition: Vec<VaultTransitionInnerType<'a>>,
}

} // verus!
