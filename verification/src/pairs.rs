//! The block pair generator.
//!
//! Two blocks are compared when the first is the earlier one and the second
//! lies less than a week of blocks behind it. The pairs of a store are
//! enumerated by ascending height of the first block and, for one first
//! block, by ascending height of the second.
//!
//! The number of pairs can grow with the square of the number of blocks: of
//! `n` blocks that all lie within one week, every two are compared. The walk
//! itself looks at no more than one block beyond the pairs it hands out for
//! each first block, and holds one position, so it never needs the pairs in
//! memory together.

use crate::json_structure::Data;
use crate::numeral::parse_u64_spec;
use crate::store::{ascending, lemma_ascending_is_canonical, AllVaultsAtBlock, StoredBlock};
use vstd::prelude::*;

verus! {

/// How far two compared blocks may lie apart: about a week of blocks.
pub const WINDOW: u64 = 40000;

/// Whether the blocks named `first` and `second` are compared: both names are
/// block heights, the first is the smaller, and the second is less than
/// `WINDOW` above it.
pub open spec fn in_window(first: Seq<char>, second: Seq<char>) -> bool {
    match (parse_u64_spec(first), parse_u64_spec(second)) {
        (Some(a), Some(b)) => a < b && b - a < WINDOW,
        _ => false,
    }
}

/// Whether the blocks at places `i` and `j` of a store are compared.
pub open spec fn compared(store: Seq<StoredBlock>, i: int, j: int) -> bool {
    &&& 0 <= i < store.len()
    &&& 0 <= j < store.len()
    &&& store[i].number < store[j].number
    &&& store[j].number - store[i].number < WINDOW
}

/// Whether place `(a, b)` comes before place `(i, j)` in the walk.
pub open spec fn walked_before(a: int, b: int, i: int, j: int) -> bool {
    a < i || (a == i && b < j)
}

/// The compared places that the walk has passed when it stands at row `i`,
/// column `j`, in the order in which it passed them.
pub open spec fn pairs_before(store: Seq<StoredBlock>, i: int, j: int) -> Seq<(int, int)>
    decreases i, j,
{
    if j > 0 {
        let earlier = pairs_before(store, i, j - 1);
        if compared(store, i, j - 1) {
            earlier.push((i, j - 1))
        } else {
            earlier
        }
    } else if i > 0 {
        pairs_before(store, i - 1, store.len() as int)
    } else {
        Seq::empty()
    }
}

/// All compared places of a store, in the order of the walk.
pub open spec fn all_pairs(store: Seq<StoredBlock>) -> Seq<(int, int)> {
    pairs_before(store, store.len() as int, 0)
}

/// The pair of the blocks at places `i` and `j`.
pub open spec fn pair_at<'a>(store: Seq<StoredBlock>, i: int, j: int) -> Data<'a> {
    Data {
        firstBlock: store[i].height,
        secondBlock: store[j].height,
        vaultsAtFirstBlock: &store[i].snapshot,
        vaultsAtSecondBlock: &store[j].snapshot,
    }
}

/// The pairs that belong to a sequence of places.
pub open spec fn pairs_at<'a>(store: Seq<StoredBlock>, places: Seq<(int, int)>) -> Seq<Data<'a>> {
    Seq::new(places.len(), |k: int| pair_at(store, places[k].0, places[k].1))
}

/// What the walk has passed holds compared places only, holds each compared
/// place that lies before the place where the walk stands, and holds them in
/// the order of the walk, so none of them twice.
pub proof fn lemma_pairs_before(store: Seq<StoredBlock>, i: int, j: int)
    requires
        0 <= i,
        0 <= j <= store.len(),
    ensures
        forall|k: int|
            #![trigger pairs_before(store, i, j)[k]]
            0 <= k < pairs_before(store, i, j).len() ==> {
                let p = pairs_before(store, i, j)[k];
                compared(store, p.0, p.1) && walked_before(p.0, p.1, i, j)
            },
        forall|a: int, b: int|
            #![trigger compared(store, a, b)]
            compared(store, a, b) && walked_before(a, b, i, j) ==> pairs_before(
                store,
                i,
                j,
            ).contains((a, b)),
        forall|k: int, l: int|
            #![trigger pairs_before(store, i, j)[k], pairs_before(store, i, j)[l]]
            0 <= k < l < pairs_before(store, i, j).len() ==> {
                let p = pairs_before(store, i, j)[k];
                let q = pairs_before(store, i, j)[l];
                walked_before(p.0, p.1, q.0, q.1)
            },
    decreases i, j,
{
    let here = pairs_before(store, i, j);
    if j > 0 {
        let earlier = pairs_before(store, i, j - 1);
        lemma_pairs_before(store, i, j - 1);
        assert forall|a: int, b: int|
            #![trigger compared(store, a, b)]
            compared(store, a, b) && walked_before(a, b, i, j) implies here.contains((a, b)) by {
            if walked_before(a, b, i, j - 1) {
                let k = choose|k: int| 0 <= k < earlier.len() && earlier[k] == (a, b);
                assert(here[k] == (a, b));
            } else {
                assert(here[earlier.len() as int] == (a, b));
            }
        }
    } else if i > 0 {
        lemma_pairs_before(store, i - 1, store.len() as int);
        assert(here == pairs_before(store, i - 1, store.len() as int));
    }
}

/// The enumeration of a store is exact: what it holds are pairs `(a, b)` of
/// block heights with `a < b` and `b - a < WINDOW`, every two blocks of the
/// store whose heights stand so are in it, and no pair is in it twice.
pub proof fn lemma_all_pairs(store: Seq<StoredBlock>)
    ensures
        forall|k: int|
            #![trigger all_pairs(store)[k]]
            0 <= k < all_pairs(store).len() ==> compared(
                store,
                all_pairs(store)[k].0,
                all_pairs(store)[k].1,
            ),
        forall|a: int, b: int|
            #![trigger compared(store, a, b)]
            compared(store, a, b) ==> all_pairs(store).contains((a, b)),
        forall|k: int, l: int|
            #![trigger all_pairs(store)[k], all_pairs(store)[l]]
            0 <= k < l < all_pairs(store).len() ==> all_pairs(store)[k] != all_pairs(store)[l],
{
    lemma_pairs_before(store, store.len() as int, 0);
}

/// A stretch of a row in which no block is compared with the block of the
/// row adds nothing to what the walk has passed.
pub proof fn lemma_row_skips(store: Seq<StoredBlock>, row: int, from: int, to: int)
    requires
        0 <= from <= to,
        forall|j: int| from <= j < to ==> !compared(store, row, j),
    ensures
        pairs_before(store, row, to) == pairs_before(store, row, from),
    decreases to - from,
{
    if from < to {
        lemma_row_skips(store, row, from, to - 1);
    }
}

/// What the walk has passed at one place is the beginning of what it has
/// passed at any later place, and so of the whole enumeration.
pub proof fn lemma_walk_only_adds(store: Seq<StoredBlock>, i: int, j: int, row: int, column: int)
    requires
        0 <= i <= row,
        0 <= j <= store.len(),
        0 <= column <= store.len(),
        i == row ==> j <= column,
    ensures
        pairs_before(store, i, j).is_prefix_of(pairs_before(store, row, column)),
    decreases row, column,
{
    if i < row || j < column {
        if column > 0 {
            lemma_walk_only_adds(store, i, j, row, column - 1);
        } else {
            lemma_walk_only_adds(store, i, j, row - 1, store.len() as int);
        }
    }
}

/// There are no more pairs than places in the grid of the blocks.
pub proof fn lemma_pairs_are_few(store: Seq<StoredBlock>, i: int, j: int)
    requires
        0 <= i,
        0 <= j <= store.len(),
    ensures
        pairs_before(store, i, j).len() <= i * store.len() + j,
    decreases i, j,
{
    if j > 0 {
        lemma_pairs_are_few(store, i, j - 1);
    } else if i > 0 {
        lemma_pairs_are_few(store, i - 1, store.len() as int);
        assert((i - 1) * store.len() + store.len() == i * store.len()) by (nonlinear_arith);
    }
}

/// The pairs do not depend on the order in which the blocks were loaded: two
/// valid stores that hold the same blocks enumerate the same pairs, in the
/// same order.
pub proof fn lemma_pairs_ignore_loading_order(one: Seq<StoredBlock>, other: Seq<StoredBlock>)
    requires
        ascending(one),
        ascending(other),
        forall|block: StoredBlock| one.contains(block) <==> other.contains(block),
    ensures
        pairs_at(one, all_pairs(one)) == pairs_at(other, all_pairs(other)),
{
    lemma_ascending_is_canonical(one, other);
}

/// A walk over the pairs of a store.
pub struct BlockPairs<'a> {
    store: &'a AllVaultsAtBlock,
    place: (usize, usize),
}

impl<'a> BlockPairs<'a> {
    /// The store that is walked.
    pub closed spec fn store(&self) -> Seq<StoredBlock> {
        self.store@
    }

    /// What holds of every walk: it stands at a place of its store, behind
    /// the block of its row, or at the end.
    #[verifier::type_invariant]
    spec fn wf(&self) -> bool {
        let (row, column) = self.place;
        &&& row <= self.store@.len()
        &&& column <= self.store@.len()
        &&& row < self.store@.len() ==> row < column
        &&& row == self.store@.len() ==> column == 0
    }

    /// The places that the walk has handed out so far.
    pub closed spec fn emitted(&self) -> Seq<(int, int)> {
        pairs_before(self.store@, self.place.0 as int, self.place.1 as int)
    }

    /// A walk at the start of `store`.
    pub fn new(store: &'a AllVaultsAtBlock) -> (walk: BlockPairs<'a>)
        ensures
            walk.store() == store@,
            walk.emitted() == Seq::<(int, int)>::empty(),
    {
        let column: usize = if store.len() == 0 {
            0
        } else {
            1
        };
        proof {
            lemma_row_skips(store@, 0, 0, column as int);
        }
        BlockPairs { store, place: (0, column) }
    }

    /// The next pair of the walk, or `None` when the walk is over. A pair
    /// that is handed out is the next compared place behind those handed out
    /// before; when `None` comes, every compared place of the store has been
    /// handed out.
    pub fn next_pair(&mut self) -> (next: Option<Data<'a>>)
        ensures
            final(self).store() == old(self).store(),
            final(self).emitted().is_prefix_of(all_pairs(old(self).store())),
            match next {
                Some(pair) => {
                    let emitted = final(self).emitted();
                    &&& emitted.len() > 0
                    &&& emitted.drop_last() == old(self).emitted()
                    &&& pair == pair_at(old(self).store(), emitted.last().0, emitted.last().1)
                    &&& compared(old(self).store(), emitted.last().0, emitted.last().1)
                    &&& in_window(pair.firstBlock@, pair.secondBlock@)
                },
                None => {
                    &&& final(self).emitted() == old(self).emitted()
                    &&& final(self).emitted() == all_pairs(old(self).store())
                },
            },
    {
        proof {
            use_type_invariant(&*self);
            use_type_invariant(self.store);
        }
        let n = self.store.len();
        while self.place.0 < n
            invariant
                self.wf(),
                self.store.wf(),
                n == self.store@.len(),
                self.store@ == old(self).store@,
                self.emitted() == old(self).emitted(),
            decreases n - self.place.0,
        {
            let (i, j) = self.place;
            let first = self.store.block(i);
            if j < n && self.store.block(j).number - first.number < WINDOW {
                let second = self.store.block(j);
                self.place = (i, j + 1);
                let pair = Data {
                    firstBlock: first.height.clone(),
                    secondBlock: second.height.clone(),
                    vaultsAtFirstBlock: &first.snapshot,
                    vaultsAtSecondBlock: &second.snapshot,
                };
                proof {
                    lemma_walk_only_adds(self.store@, i as int, j + 1, n as int, 0);
                }
                return Some(pair);
            }
            proof {
                lemma_row_skips(self.store@, i as int, j as int, n as int);
            }
            if i + 1 < n {
                proof {
                    let r = i + 1;
                    lemma_row_skips(self.store@, r, 0, r + 1);
                }
                self.place = (i + 1, i + 2);
            } else {
                self.place = (n, 0);
            }
        }
        None
    }

    /// All pairs of a store at once, in the order of the walk: nothing but
    /// pairs of blocks whose heights `a` and `b` stand as `a < b` and
    /// `b - a < WINDOW`, and each such pair of blocks of the store.
    pub fn enumerate(store: &'a AllVaultsAtBlock) -> (pairs: Vec<Data<'a>>)
        ensures
            pairs@ == pairs_at(store@, all_pairs(store@)),
            forall|k: int|
                0 <= k < pairs@.len() ==> in_window(
                    (#[trigger] pairs@[k]).firstBlock@,
                    pairs@[k].secondBlock@,
                ),
            forall|i: int, j: int|
                #![trigger compared(store@, i, j)]
                compared(store@, i, j) ==> exists|k: int|
                    0 <= k < pairs@.len() && #[trigger] pairs@[k] == pair_at(store@, i, j),
    {
        proof {
            use_type_invariant(store);
            lemma_all_pairs(store@);
            let places = all_pairs(store@);
            assert forall|i: int, j: int|
                #![trigger compared(store@, i, j)]
                compared(store@, i, j) implies exists|k: int|
                0 <= k < places.len() && #[trigger] pairs_at(store@, places)[k] == pair_at(
                    store@,
                    i,
                    j,
                ) by {
                let k = choose|k: int| 0 <= k < places.len() && places[k] == (i, j);
                assert(pairs_at(store@, places)[k] == pair_at(store@, i, j));
            }
        }
        let mut pairs: Vec<Data<'a>> = Vec::new();
        let n = store.len();
        let mut i: usize = 0;
        while i < n
            invariant
                i <= n,
                n == store@.len(),
                store.wf(),
                pairs@ == pairs_at(store@, pairs_before(store@, i as int, 0)),
            decreases n - i,
        {
            let first = store.block(i);
            let mut j: usize = i + 1;
            proof {
                lemma_row_skips(store@, i as int, 0, i + 1);
            }
            while j < n && store.block(j).number - first.number < WINDOW
                invariant
                    i < j <= n,
                    n == store@.len(),
                    store.wf(),
                    *first == store@[i as int],
                    pairs@ == pairs_at(store@, pairs_before(store@, i as int, j as int)),
                decreases n - j,
            {
                let second = store.block(j);
                pairs.push(
                    Data {
                        firstBlock: first.height.clone(),
                        secondBlock: second.height.clone(),
                        vaultsAtFirstBlock: &first.snapshot,
                        vaultsAtSecondBlock: &second.snapshot,
                    },
                );
                j = j + 1;
            }
            proof {
                lemma_row_skips(store@, i as int, j as int, n as int);
            }
            i = i + 1;
        }
        pairs
    }
}

} // verus!
