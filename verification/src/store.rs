//! The snapshot store: every block that was loaded, by block height.
//!
//! A block height is a number. The store keeps one block for each height, in
//! the order of the heights, together with the text that named the height.
//! What the store holds does not depend on the order in which the blocks were
//! put in: two stores with the same blocks are the same store.

use crate::json_structure::BlockSnapshot;
use crate::numeral::{parse_u64, parse_u64_spec};
use vstd::prelude::*;

verus! {

/// A block of the store: its height, the text that named the height, and
/// what the block holds.
pub struct StoredBlock {
    pub number: u64,
    pub height: String,
    pub snapshot: BlockSnapshot,
}

/// Whether the heights of `blocks` rise from each block to the next.
pub open spec fn ascending(blocks: Seq<StoredBlock>) -> bool {
    forall|i: int, j: int|
        0 <= i < j < blocks.len() ==> (#[trigger] blocks[i]).number < (#[trigger] blocks[j]).number
}

/// Whether each of `blocks` has the height that its text names.
pub open spec fn named(blocks: Seq<StoredBlock>) -> bool {
    forall|i: int|
        0 <= i < blocks.len() ==> parse_u64_spec((#[trigger] blocks[i]).height@) == Some(
            blocks[i].number,
        )
}

/// How many of `blocks` lie below the height `number`. Among ascending
/// blocks this is the place of the block of that height, or the place where
/// it would have to stand.
pub open spec fn rank_of(blocks: Seq<StoredBlock>, number: u64) -> int
    decreases blocks.len(),
{
    if blocks.len() == 0 {
        0
    } else {
        rank_of(blocks.drop_last(), number) + if blocks.last().number < number {
            1int
        } else {
            0int
        }
    }
}

/// `blocks` with `block` put in: in place of the block of the same height,
/// or else at the place that keeps the heights ascending.
pub open spec fn with_block(blocks: Seq<StoredBlock>, block: StoredBlock) -> Seq<StoredBlock> {
    let place = rank_of(blocks, block.number);
    if place < blocks.len() && blocks[place].number == block.number {
        blocks.update(place, block)
    } else {
        blocks.insert(place, block)
    }
}

/// Among ascending blocks, the place up to which the heights lie below
/// `number` and from which they do not is the rank of `number`.
pub proof fn lemma_rank_is_the_boundary(blocks: Seq<StoredBlock>, number: u64, place: int)
    requires
        0 <= place <= blocks.len(),
        forall|i: int| 0 <= i < place ==> (#[trigger] blocks[i]).number < number,
        forall|i: int| place <= i < blocks.len() ==> (#[trigger] blocks[i]).number >= number,
    ensures
        rank_of(blocks, number) == place,
    decreases blocks.len(),
{
    if blocks.len() > 0 {
        let shorter = blocks.drop_last();
        if place == blocks.len() {
            lemma_rank_is_the_boundary(shorter, number, place - 1);
        } else {
            lemma_rank_is_the_boundary(shorter, number, place);
        }
    }
}

/// What putting a block in does to what ascending blocks hold: the new block
/// is there, the block of the same height is gone, and every other block
/// stays. The heights ascend as before.
pub proof fn lemma_with_block(blocks: Seq<StoredBlock>, block: StoredBlock)
    requires
        ascending(blocks),
    ensures
        ascending(with_block(blocks, block)),
        with_block(blocks, block).contains(block),
        forall|other: StoredBlock|
            #![trigger with_block(blocks, block).contains(other)]
            with_block(blocks, block).contains(other) <==> other == block || (blocks.contains(
                other,
            ) && other.number != block.number),
{
    let place = rank_of(blocks, block.number);
    let after = with_block(blocks, block);
    lemma_rank_bounds(blocks, block.number);
    let replaced = place < blocks.len() && blocks[place].number == block.number;
    assert(after[place] == block);
    assert forall|other: StoredBlock|
        #![trigger after.contains(other)]
        after.contains(other) <==> other == block || (blocks.contains(other) && other.number
            != block.number) by {
        if after.contains(other) && other != block {
            let i = choose|i: int| 0 <= i < after.len() && after[i] == other;
        }
        if blocks.contains(other) && other.number != block.number {
            let i = choose|i: int| 0 <= i < blocks.len() && blocks[i] == other;
            if replaced || i < place {
                assert(after[i] == other);
            } else {
                assert(after[i + 1] == other);
            }
        }
    }
}

/// Among ascending blocks, the blocks before the rank of `number` lie below
/// it and the blocks from the rank on do not.
pub proof fn lemma_rank_bounds(blocks: Seq<StoredBlock>, number: u64)
    requires
        ascending(blocks),
    ensures
        0 <= rank_of(blocks, number) <= blocks.len(),
        forall|i: int| 0 <= i < rank_of(blocks, number) ==> (#[trigger] blocks[i]).number < number,
        forall|i: int|
            rank_of(blocks, number) <= i < blocks.len() ==> (#[trigger] blocks[i]).number
                >= number,
    decreases blocks.len(),
{
    if blocks.len() > 0 {
        let shorter = blocks.drop_last();
        lemma_rank_bounds(shorter, number);
        let place = rank_of(shorter, number);
        assert forall|i: int| 0 <= i < rank_of(blocks, number) implies (#[trigger] blocks[i]).number
            < number by {
            if i < shorter.len() {
                assert(shorter[i] == blocks[i]);
            }
        }
        assert forall|i: int| rank_of(blocks, number) <= i < blocks.len() implies (
        #[trigger] blocks[i]).number >= number by {
            if i == shorter.len() && blocks.last().number < number {
                assert(place == shorter.len()) by {
                    if place < shorter.len() {
                        assert(shorter[place].number >= number);
                        assert(blocks[place].number < blocks[blocks.len() - 1].number);
                    }
                }
            }
        }
    }
}

/// Ascending blocks are determined by what they hold: two ascending
/// sequences that hold the same blocks are the same sequence.
pub proof fn lemma_ascending_is_canonical(one: Seq<StoredBlock>, other: Seq<StoredBlock>)
    requires
        ascending(one),
        ascending(other),
        forall|block: StoredBlock| one.contains(block) <==> other.contains(block),
    ensures
        one == other,
    decreases one.len(),
{
    if one.len() == 0 {
        if other.len() > 0 {
            assert(other.contains(other[0]));
        }
        assert(one =~= other);
    } else {
        assert(one.contains(one.last()));
        let k = choose|k: int| 0 <= k < other.len() && other[k] == one.last();
        assert(other.contains(other.last()));
        assert(k == other.len() - 1);
        let one_rest = one.drop_last();
        let other_rest = other.drop_last();
        assert forall|block: StoredBlock| one_rest.contains(block) <==> other_rest.contains(
            block,
        ) by {
            if one_rest.contains(block) {
                let i = choose|i: int| 0 <= i < one_rest.len() && one_rest[i] == block;
                assert(one.contains(block));
                let j = choose|j: int| 0 <= j < other.len() && other[j] == block;
                assert(other_rest[j] == block);
            }
            if other_rest.contains(block) {
                let j = choose|j: int| 0 <= j < other_rest.len() && other_rest[j] == block;
                assert(other[j] == block);
                assert(other.contains(block));
                let i = choose|i: int| 0 <= i < one.len() && one[i] == block;
                assert(one_rest[i] == block);
            }
        }
        lemma_ascending_is_canonical(one_rest, other_rest);
        assert(other =~= other_rest.push(other.last()));
    }
}

/// The blocks that were loaded.
pub struct AllVaultsAtBlock {
    blocks: Vec<StoredBlock>,
}

impl View for AllVaultsAtBlock {
    type V = Seq<StoredBlock>;

    closed spec fn view(&self) -> Seq<StoredBlock> {
        self.blocks@
    }
}

impl AllVaultsAtBlock {
    /// What holds of every store: its blocks stand by ascending height, each
    /// under the height that its text names.
    #[verifier::type_invariant]
    pub open spec fn wf(&self) -> bool {
        ascending(self@) && named(self@)
    }

    /// A store without blocks.
    pub fn new() -> (store: AllVaultsAtBlock)
        ensures
            store@.len() == 0,
    {
        AllVaultsAtBlock { blocks: Vec::new() }
    }

    /// The number of blocks.
    pub fn len(&self) -> (n: usize)
        ensures
            n == self@.len(),
    {
        self.blocks.len()
    }

    /// The block at `place`, counted from the lowest height.
    pub fn block(&self, place: usize) -> (block: &StoredBlock)
        requires
            place < self@.len(),
        ensures
            *block == self@[place as int],
    {
        &self.blocks[place]
    }

    /// The place of the height `number`: where its block stands, or where it
    /// would have to stand.
    pub fn rank(&self, number: u64) -> (place: usize)
        ensures
            place == rank_of(self@, number),
            place <= self@.len(),
            forall|i: int| 0 <= i < place ==> (#[trigger] self@[i]).number < number,
            forall|i: int| place <= i < self@.len() ==> (#[trigger] self@[i]).number >= number,
    {
        proof {
            use_type_invariant(self);
        }
        let mut low: usize = 0;
        let mut high: usize = self.blocks.len();
        while low < high
            invariant
                ascending(self@),
                low <= high <= self@.len(),
                forall|i: int| 0 <= i < low ==> (#[trigger] self@[i]).number < number,
                forall|i: int| high <= i < self@.len() ==> (#[trigger] self@[i]).number >= number,
            decreases high - low,
        {
            let middle = low + (high - low) / 2;
            if self.blocks[middle].number < number {
                low = middle + 1;
            } else {
                high = middle;
            }
        }
        proof {
            lemma_rank_is_the_boundary(self@, number, low as int);
        }
        low
    }

    /// The block of the height `number`, if the store has one.
    pub fn get(&self, number: u64) -> (found: Option<&StoredBlock>)
        ensures
            match found {
                Some(block) => block.number == number && self@.contains(*block),
                None => forall|i: int|
                    0 <= i < self@.len() ==> (#[trigger] self@[i]).number != number,
            },
    {
        proof {
            use_type_invariant(self);
        }
        let place = self.rank(number);
        if place < self.blocks.len() && self.blocks[place].number == number {
            assert(self@[place as int] == self.blocks[place as int]);
            Some(&self.blocks[place])
        } else {
            None
        }
    }

    /// Puts `snapshot` into the store under the height that `height` names,
    /// in place of the block that stood under that height. Text that names
    /// no height is refused, and the store stays as it is.
    pub fn insert(&mut self, height: String, snapshot: BlockSnapshot) -> (accepted: bool)
        ensures
            match parse_u64_spec(height@) {
                Some(number) => accepted && final(self)@ == with_block(
                    old(self)@,
                    StoredBlock { number, height, snapshot },
                ),
                None => !accepted && final(self)@ == old(self)@,
            },
    {
        let number = match parse_u64(height.as_str()) {
            Some(number) => number,
            None => {
                return false;
            },
        };
        let place = self.rank(number);
        let block = StoredBlock { number, height, snapshot };
        proof {
            use_type_invariant(&*self);
            lemma_with_block(self@, block);
            assert forall|i: int| 0 <= i < with_block(self@, block).len() implies parse_u64_spec(
                (#[trigger] with_block(self@, block)[i]).height@,
            ) == Some(with_block(self@, block)[i].number) by {
                let after = with_block(self@, block);
                if after[i] != block {
                    let k = choose|k: int| 0 <= k < self@.len() && self@[k] == after[i];
                }
            }
        }
        let mut blocks: Vec<StoredBlock> = Vec::new();
        core::mem::swap(&mut self.blocks, &mut blocks);
        if place < blocks.len() && blocks[place].number == number {
            blocks.set(place, block);
        } else {
            blocks.insert(place, block);
        }
        core::mem::swap(&mut self.blocks, &mut blocks);
        true
    }
}

} // verus!
