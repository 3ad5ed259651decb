//! The vault transition matcher.
//!
//! For one pair of blocks the matcher follows each vault of the earlier block
//! that had an open position: it looks the vault up in the later block, asks
//! the liquidation index whether the vault was liquidated between the two
//! blocks, and packs what it found together with the parameters of both
//! blocks.

use crate::json_structure::{
    BlockDiffMetadata, Data, SubgraphVault, VaultSet, VaultTransitionInnerType,
    VaultTransitionWithMetadata,
};
use crate::liquidation::{liquidation_between, times_in, LiquidationIndex};
use crate::numeral::{parse_u64, parse_u64_spec};
use vstd::hash_map::StringHashMap;
use vstd::prelude::*;

verus! {

/// Why a pair of blocks could not be matched.
#[derive(Clone, Copy, Debug, PartialEq, Eq, Structural)]
pub enum MatchError {
    /// One of the two blocks holds no vault set of the analysed collateral
    /// type.
    MissingCollateralType,
}

/// The symbol of the collateral type that is analysed.
pub open spec fn collateral_type() -> Seq<char> {
    "ETH-A"@
}

/// Where the vault `id` stands in `vaults`: the last place, where it stands
/// more than once.
pub open spec fn last_position(vaults: Seq<SubgraphVault>, id: Seq<char>) -> Option<int>
    decreases vaults.len(),
{
    if vaults.len() == 0 {
        None
    } else if vaults.last().id@ == id {
        Some(vaults.len() - 1)
    } else {
        last_position(vaults.drop_last(), id)
    }
}

/// What `last_position` finds is a place of the vault with no place of it
/// behind; it finds nothing only where the vault does not stand.
pub proof fn lemma_last_position(vaults: Seq<SubgraphVault>, id: Seq<char>)
    ensures
        match last_position(vaults, id) {
            Some(position) => {
                &&& 0 <= position < vaults.len()
                &&& vaults[position].id@ == id
                &&& forall|k: int| position < k < vaults.len() ==> (#[trigger] vaults[k]).id@ != id
            },
            None => forall|k: int| 0 <= k < vaults.len() ==> (#[trigger] vaults[k]).id@ != id,
        },
    decreases vaults.len(),
{
    if vaults.len() > 0 && vaults.last().id@ != id {
        let shorter = vaults.drop_last();
        lemma_last_position(shorter, id);
        match last_position(shorter, id) {
            Some(position) => {
                assert forall|k: int| position < k < vaults.len() implies (
                #[trigger] vaults[k]).id@ != id by {
                    if k < shorter.len() {
                        assert(vaults[k] == shorter[k]);
                    }
                }
            },
            None => {
                assert forall|k: int| 0 <= k < vaults.len() implies (#[trigger] vaults[k]).id@
                    != id by {
                    if k < shorter.len() {
                        assert(vaults[k] == shorter[k]);
                    }
                }
            },
        }
    }
}

/// Whether the second record of `transition` is what the later block holds
/// of the vault: a record of the vault's identifier where the later block
/// has one, and none only where it has none.
pub open spec fn counterpart_of(
    transition: VaultTransitionInnerType,
    later: Seq<SubgraphVault>,
) -> bool {
    match transition.second {
        Some(record) => record.id@ == transition.first.id@ && later.contains(*record),
        None => forall|k: int|
            0 <= k < later.len() ==> (#[trigger] later[k]).id@ != transition.first.id@,
    }
}

/// What became of `vault`: its record in the later block, and the first
/// liquidation of it between the two timestamps.
pub open spec fn transition_of<'a>(
    vault: SubgraphVault,
    second: Seq<SubgraphVault>,
    index: Map<Seq<char>, Seq<u64>>,
    first_timestamp: Seq<char>,
    second_timestamp: Seq<char>,
) -> VaultTransitionInnerType<'a> {
    let found = liquidation_between(times_in(index, vault.id@), first_timestamp, second_timestamp);
    VaultTransitionInnerType {
        first: &vault,
        second: match last_position(second, vault.id@) {
            Some(position) => Some(&second[position]),
            None => None,
        },
        liquidated: found is Some,
        liquidationTimestamp: found,
    }
}

/// The transitions of a pair: one for each vault of the earlier block that
/// had an open position, in the order of that block.
pub open spec fn transitions_of<'a>(
    first: Seq<SubgraphVault>,
    second: Seq<SubgraphVault>,
    index: Map<Seq<char>, Seq<u64>>,
    first_timestamp: Seq<char>,
    second_timestamp: Seq<char>,
) -> Seq<VaultTransitionInnerType<'a>>
    decreases first.len(),
{
    if first.len() == 0 {
        Seq::empty()
    } else {
        let earlier = transitions_of(
            first.drop_last(),
            second,
            index,
            first_timestamp,
            second_timestamp,
        );
        if first.last().open_position() {
            earlier.push(
                transition_of(first.last(), second, index, first_timestamp, second_timestamp),
            )
        } else {
            earlier
        }
    }
}

/// The parameters of both blocks of a pair, as the result carries them.
pub open spec fn metadata_of(pair: Data, first: VaultSet, second: VaultSet) -> BlockDiffMetadata {
    BlockDiffMetadata {
        firstBlock: pair.firstBlock,
        firstTimestamp: first.timestamp,
        firstPrice: first.price,
        firstRate: first.rate,
        firstLiquidationRatio: first.liquidationRatio,
        secondBlock: pair.secondBlock,
        secondTimestamp: second.timestamp,
        secondPrice: second.price,
        secondRate: second.rate,
        secondLiquidationRatio: second.liquidationRatio,
    }
}

/// Whether a pair can be matched: both of its blocks hold a vault set of the
/// analysed collateral type.
pub open spec fn matchable(pair: Data) -> bool {
    &&& pair.vaultsAtFirstBlock@.contains_key(collateral_type())
    &&& pair.vaultsAtSecondBlock@.contains_key(collateral_type())
}

/// The parameters of a pair that can be matched.
pub open spec fn pair_metadata(pair: Data) -> BlockDiffMetadata {
    metadata_of(
        pair,
        pair.vaultsAtFirstBlock@[collateral_type()],
        pair.vaultsAtSecondBlock@[collateral_type()],
    )
}

/// The transitions of a pair that can be matched.
pub open spec fn pair_transitions<'a>(pair: Data<'a>, index: Map<Seq<char>, Seq<u64>>) -> Seq<
    VaultTransitionInnerType<'a>,
> {
    let first = pair.vaultsAtFirstBlock@[collateral_type()];
    let second = pair.vaultsAtSecondBlock@[collateral_type()];
    transitions_of(
        first.resultArray@,
        second.resultArray@,
        index,
        first.timestamp@,
        second.timestamp@,
    )
}

/// Every transition follows a vault of the earlier block that had an open
/// position, and the transitions stand in the order of their vaults.
pub proof fn lemma_transitions_follow_open_positions(
    first: Seq<SubgraphVault>,
    second: Seq<SubgraphVault>,
    index: Map<Seq<char>, Seq<u64>>,
    first_timestamp: Seq<char>,
    second_timestamp: Seq<char>,
)
    ensures
        transitions_of(first, second, index, first_timestamp, second_timestamp).len()
            <= first.len(),
        forall|k: int|
            #![trigger transitions_of(first, second, index, first_timestamp, second_timestamp)[k]]
            0 <= k < transitions_of(first, second, index, first_timestamp, second_timestamp).len()
                ==> {
                let t = transitions_of(first, second, index, first_timestamp, second_timestamp)[k];
                &&& t.first.open_position()
                &&& exists|i: int| k <= i < first.len() && #[trigger] first[i] == *t.first
                &&& t == transition_of(*t.first, second, index, first_timestamp, second_timestamp)
            },
    decreases first.len(),
{
    if first.len() > 0 {
        let all = transitions_of(first, second, index, first_timestamp, second_timestamp);
        let earlier = transitions_of(
            first.drop_last(),
            second,
            index,
            first_timestamp,
            second_timestamp,
        );
        lemma_transitions_follow_open_positions(
            first.drop_last(),
            second,
            index,
            first_timestamp,
            second_timestamp,
        );
        assert forall|k: int| 0 <= k < all.len() implies {
            let t = #[trigger] all[k];
            &&& t.first.open_position()
            &&& exists|i: int| k <= i < first.len() && #[trigger] first[i] == *t.first
            &&& t == transition_of(*t.first, second, index, first_timestamp, second_timestamp)
        } by {
            if k < earlier.len() {
                let i = choose|i: int|
                    k <= i < first.drop_last().len() && #[trigger] first.drop_last()[i]
                        == *all[k].first;
            }
        }
    }
}

/// A vault without collateral above zero is never followed: whatever the
/// later block and the liquidation index hold, no transition is about it.
pub proof fn lemma_no_transition_without_collateral(
    vault: SubgraphVault,
    first: Seq<SubgraphVault>,
    second: Seq<SubgraphVault>,
    index: Map<Seq<char>, Seq<u64>>,
    first_timestamp: Seq<char>,
    second_timestamp: Seq<char>,
)
    requires
        !vault.collateral.positive(),
    ensures
        forall|k: int|
            #![trigger transitions_of(first, second, index, first_timestamp, second_timestamp)[k]]
            0 <= k < transitions_of(first, second, index, first_timestamp, second_timestamp).len()
                ==> *transitions_of(
                first,
                second,
                index,
                first_timestamp,
                second_timestamp,
            )[k].first != vault,
{
    lemma_transitions_follow_open_positions(
        first,
        second,
        index,
        first_timestamp,
        second_timestamp,
    );
}

/// The place of each vault identifier of `vaults`.
fn index_positions(vaults: &Vec<SubgraphVault>) -> (positions: StringHashMap<usize>)
    ensures
        forall|id: Seq<char>|
            positions@.contains_key(id) <==> last_position(vaults@, id) is Some,
        forall|id: Seq<char>|
            positions@.contains_key(id) ==> #[trigger] positions@[id] == last_position(
                vaults@,
                id,
            )->0,
        forall|id: Seq<char>|
            positions@.contains_key(id) ==> #[trigger] positions@[id] < vaults@.len(),
{
    let mut positions: StringHashMap<usize> = StringHashMap::new();
    let mut i: usize = 0;
    while i < vaults.len()
        invariant
            i <= vaults.len(),
            forall|id: Seq<char>|
                positions@.contains_key(id) <==> last_position(vaults@.take(i as int), id) is Some,
            forall|id: Seq<char>|
                positions@.contains_key(id) ==> #[trigger] positions@[id] == last_position(
                    vaults@.take(i as int),
                    id,
                )->0,
            forall|id: Seq<char>| positions@.contains_key(id) ==> #[trigger] positions@[id] < i,
        decreases vaults.len() - i,
    {
        proof {
            assert(vaults@.take(i + 1).drop_last() =~= vaults@.take(i as int));
        }
        positions.insert(vaults[i].id.clone(), i);
        i = i + 1;
    }
    assert(vaults@.take(i as int) =~= vaults@);
    positions
}

/// Matches the two blocks of a pair.
///
/// The result holds one transition for each vault of the earlier block whose
/// collateral and debt are both above zero, in the order of that block. A
/// vault that the later block does not hold gets a transition without a
/// second record. A vault is liquidated where the index holds a time of it
/// strictly between the timestamps of the two blocks, and the first such time
/// in the order of the index is the one reported; where a timestamp is not a
/// number, no vault of the pair is liquidated.
pub fn match_pair<'a>(pair: &Data<'a>, index: &LiquidationIndex) -> (result: Result<
    VaultTransitionWithMetadata<'a>,
    MatchError,
>)
    ensures
        match result {
            Ok(matched) => {
                &&& matchable(*pair)
                &&& matched.meta == pair_metadata(*pair)
                &&& matched.vaultTransition@ == pair_transitions(*pair, index@)
                &&& forall|k: int|
                    0 <= k < matched.vaultTransition@.len() ==> (
                    #[trigger] matched.vaultTransition@[k]).first.open_position()
                &&& forall|k: int|
                    0 <= k < matched.vaultTransition@.len() ==> counterpart_of(
                        #[trigger] matched.vaultTransition@[k],
                        pair.vaultsAtSecondBlock@[collateral_type()].resultArray@,
                    )
            },
            Err(error) => error == MatchError::MissingCollateralType && !matchable(*pair),
        },
{
    let first = match pair.vaultsAtFirstBlock.get("ETH-A") {
        Some(set) => set,
        None => {
            return Err(MatchError::MissingCollateralType);
        },
    };
    let second = match pair.vaultsAtSecondBlock.get("ETH-A") {
        Some(set) => set,
        None => {
            return Err(MatchError::MissingCollateralType);
        },
    };
    let meta = BlockDiffMetadata {
        firstBlock: pair.firstBlock.clone(),
        firstTimestamp: first.timestamp.clone(),
        firstPrice: first.price.clone(),
        firstRate: first.rate.clone(),
        firstLiquidationRatio: first.liquidationRatio.clone(),
        secondBlock: pair.secondBlock.clone(),
        secondTimestamp: second.timestamp.clone(),
        secondPrice: second.price.clone(),
        secondRate: second.rate.clone(),
        secondLiquidationRatio: second.liquidationRatio.clone(),
    };
    let window = match (
        parse_u64(first.timestamp.as_str()),
        parse_u64(second.timestamp.as_str()),
    ) {
        (Some(after), Some(before)) => Some((after, before)),
        _ => None,
    };
    let positions = index_positions(&second.resultArray);
    let mut transitions: Vec<VaultTransitionInnerType<'a>> = Vec::new();
    let mut i: usize = 0;
    while i < first.resultArray.len()
        invariant
            i <= first.resultArray.len(),
            window == match (parse_u64_spec(first.timestamp@), parse_u64_spec(second.timestamp@)) {
                (Some(after), Some(before)) => Some((after, before)),
                _ => None,
            },
            forall|id: Seq<char>|
                positions@.contains_key(id) <==> last_position(second.resultArray@, id) is Some,
            forall|id: Seq<char>|
                positions@.contains_key(id) ==> #[trigger] positions@[id] == last_position(
                    second.resultArray@,
                    id,
                )->0,
            forall|id: Seq<char>|
                positions@.contains_key(id) ==> #[trigger] positions@[id]
                    < second.resultArray@.len(),
            transitions@ == transitions_of(
                first.resultArray@.take(i as int),
                second.resultArray@,
                index@,
                first.timestamp@,
                second.timestamp@,
            ),
        decreases first.resultArray.len() - i,
    {
        let vault = &first.resultArray[i];
        proof {
            assert(first.resultArray@.take(i + 1).drop_last() =~= first.resultArray@.take(
                i as int,
            ));
        }
        if vault.has_open_position() {
            let found = match window {
                Some((after, before)) => index.first_liquidation_within(
                    vault.id.as_str(),
                    after,
                    before,
                ),
                None => None,
            };
            let counterpart = match positions.get(vault.id.as_str()) {
                Some(position) => Some(&second.resultArray[*position]),
                None => None,
            };
            transitions.push(
                VaultTransitionInnerType {
                    first: vault,
                    second: counterpart,
                    liquidated: found.is_some(),
                    liquidationTimestamp: found,
                },
            );
        }
        i = i + 1;
    }
    proof {
        assert(first.resultArray@.take(i as int) =~= first.resultArray@);
        lemma_transitions_follow_open_positions(
            first.resultArray@,
            second.resultArray@,
            index@,
            first.timestamp@,
            second.timestamp@,
        );
        assert forall|k: int| 0 <= k < transitions@.len() implies counterpart_of(
            #[trigger] transitions@[k],
            second.resultArray@,
        ) by {
            lemma_last_position(second.resultArray@, transitions@[k].first.id@);
        }
    }
    Ok(VaultTransitionWithMetadata { meta, vaultTransition: transitions })
}

} // verus!
