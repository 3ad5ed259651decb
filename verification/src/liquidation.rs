//! The liquidation event index.
//!
//! The event history tells, independently of the snapshots, when the
//! liquidation of a vault began. The index keeps those times for each vault
//! identifier, in the order of the vault's log; a pair of snapshots then asks
//! it whether a vault was liquidated between their two timestamps.

use crate::json_structure::{Vault, VaultLog};
use crate::numeral::{parse_u64, parse_u64_spec};
use vstd::hash_map::StringHashMap;
use vstd::prelude::*;
use vstd::string::StringExecFns;

verus! {

/// The tag of the log entry that records the start of a liquidation.
pub open spec fn liquidation_start_tag() -> Seq<char> {
    "liquidationStartLog"@
}

/// The time that a log entry contributes: its timestamp, if the entry records
/// the start of a liquidation and the timestamp is a number.
pub open spec fn liquidation_start(log: VaultLog) -> Option<u64> {
    if log.__typename@ == liquidation_start_tag() {
        parse_u64_spec(log.timestamp@)
    } else {
        None
    }
}

/// The times that a log contributes, in the order of the log.
pub open spec fn liquidation_times(logs: Seq<VaultLog>) -> Seq<u64>
    decreases logs.len(),
{
    if logs.len() == 0 {
        Seq::empty()
    } else {
        let earlier = liquidation_times(logs.drop_last());
        match liquidation_start(logs.last()) {
            Some(time) => earlier.push(time),
            None => earlier,
        }
    }
}

/// The times of one entry of the history: those of the log of its first
/// vault, and none where it has no vault.
pub open spec fn vault_times(vault: Vault) -> Seq<u64> {
    if vault.vaults.len() == 0 {
        Seq::empty()
    } else {
        liquidation_times(vault.vaults@[0].logs@)
    }
}

/// The index of a history: each identifier with the times of its entry. Of
/// two entries under one identifier the later one counts.
pub open spec fn index_of(history: Seq<(String, Vault)>) -> Map<Seq<char>, Seq<u64>>
    decreases history.len(),
{
    if history.len() == 0 {
        Map::empty()
    } else {
        index_of(history.drop_last()).insert(history.last().0@, vault_times(history.last().1))
    }
}

/// What the index holds: the identifiers of the history and no others, each
/// with the times of the last entry under it.
pub proof fn lemma_index_of(history: Seq<(String, Vault)>, id: Seq<char>)
    ensures
        index_of(history).contains_key(id) <==> exists|i: int|
            0 <= i < history.len() && (#[trigger] history[i]).0@ == id,
        index_of(history).contains_key(id) ==> exists|i: int|
            0 <= i < history.len() && (#[trigger] history[i]).0@ == id && index_of(history)[id]
                == vault_times(history[i].1) && forall|j: int|
                i < j < history.len() ==> (#[trigger] history[j]).0@ != id,
    decreases history.len(),
{
    if history.len() > 0 {
        let shorter = history.drop_last();
        lemma_index_of(shorter, id);
        if history.last().0@ == id {
            assert(history[history.len() - 1].0@ == id);
        } else if index_of(shorter).contains_key(id) {
            let i = choose|i: int|
                0 <= i < shorter.len() && (#[trigger] shorter[i]).0@ == id && index_of(shorter)[id]
                    == vault_times(shorter[i].1) && forall|j: int|
                    i < j < shorter.len() ==> (#[trigger] shorter[j]).0@ != id;
            assert forall|j: int| i < j < history.len() implies (#[trigger] history[j]).0@
                != id by {
                if j < shorter.len() {
                    assert(history[j] == shorter[j]);
                }
            }
        } else {
            assert forall|i: int| 0 <= i < history.len() implies (#[trigger] history[i]).0@
                != id by {
                if i < shorter.len() {
                    assert(history[i] == shorter[i]);
                }
            }
        }
    }
}

/// Whether `time` lies strictly between `after` and `before`.
pub open spec fn within(time: u64, after: u64, before: u64) -> bool {
    after < time < before
}

/// The first of `times`, in their own order, that lies strictly between
/// `after` and `before`.
pub open spec fn first_within(times: Seq<u64>, after: u64, before: u64) -> Option<u64>
    decreases times.len(),
{
    if times.len() == 0 {
        None
    } else if within(times[0], after, before) {
        Some(times[0])
    } else {
        first_within(times.skip(1), after, before)
    }
}

/// The liquidation that falls between two snapshots whose timestamps are
/// given as text: the first of `times` strictly between the two. Where
/// either timestamp is not a number there is no window, and no liquidation
/// falls into it.
pub open spec fn liquidation_between(
    times: Seq<u64>,
    first_timestamp: Seq<char>,
    second_timestamp: Seq<char>,
) -> Option<u64> {
    match (parse_u64_spec(first_timestamp), parse_u64_spec(second_timestamp)) {
        (Some(after), Some(before)) => first_within(times, after, before),
        _ => None,
    }
}

/// What `first_within` finds is one of the times, lies in the window, and has
/// no time of the window before it; it finds nothing only where no time lies
/// in the window.
pub proof fn lemma_first_within(times: Seq<u64>, after: u64, before: u64)
    ensures
        match first_within(times, after, before) {
            Some(time) => exists|i: int|
                0 <= i < times.len() && #[trigger] times[i] == time && within(time, after, before)
                    && forall|j: int| 0 <= j < i ==> !within(#[trigger] times[j], after, before),
            None => forall|i: int|
                0 <= i < times.len() ==> !within(#[trigger] times[i], after, before),
        },
    decreases times.len(),
{
    if times.len() > 0 && !within(times[0], after, before) {
        let rest = times.skip(1);
        lemma_first_within(rest, after, before);
        match first_within(rest, after, before) {
            Some(time) => {
                let i = choose|i: int|
                    0 <= i < rest.len() && #[trigger] rest[i] == time && within(
                        time,
                        after,
                        before,
                    ) && forall|j: int|
                        0 <= j < i ==> !within(#[trigger] rest[j], after, before);
                assert forall|j: int| 0 <= j < i + 1 implies !within(
                    #[trigger] times[j],
                    after,
                    before,
                ) by {
                    if j > 0 {
                        assert(times[j] == rest[j - 1]);
                    }
                }
            },
            None => {
                assert forall|i: int| 0 <= i < times.len() implies !within(
                    #[trigger] times[i],
                    after,
                    before,
                ) by {
                    if i > 0 {
                        assert(times[i] == rest[i - 1]);
                    }
                }
            },
        }
    }
}

/// Whether `times` stand in the order of time.
pub open spec fn in_order_of_time(times: Seq<u64>) -> bool {
    forall|i: int, j: int| 0 <= i < j < times.len() ==> times[i] <= times[j]
}

/// Where a log is kept in the order of time, the first liquidation of a
/// window is also the earliest: no time of the window lies before it.
pub proof fn lemma_first_is_earliest(times: Seq<u64>, after: u64, before: u64)
    requires
        in_order_of_time(times),
    ensures
        first_within(times, after, before) matches Some(time) ==> forall|i: int|
            0 <= i < times.len() && within(#[trigger] times[i], after, before) ==> time
                <= times[i],
{
    lemma_first_within(times, after, before);
    if let Some(time) = first_within(times, after, before) {
        let k = choose|k: int|
            0 <= k < times.len() && #[trigger] times[k] == time && within(time, after, before)
                && forall|j: int| 0 <= j < k ==> !within(#[trigger] times[j], after, before);
        assert forall|i: int|
            0 <= i < times.len() && within(#[trigger] times[i], after, before) implies time
            <= times[i] by {
            assert(k <= i);
        }
    }
}

/// The times at which a liquidation began, read off a vault's log: the
/// timestamps of the entries that record such a start, in the order of the
/// log. An entry whose timestamp is not a number is passed over.
pub fn collect_liquidation_times(logs: &Vec<VaultLog>) -> (times: Vec<u64>)
    ensures
        times@ == liquidation_times(logs@),
{
    let tag = String::from_str("liquidationStartLog");
    let mut times: Vec<u64> = Vec::new();
    let mut i: usize = 0;
    while i < logs.len()
        invariant
            i <= logs.len(),
            tag@ == liquidation_start_tag(),
            times@ == liquidation_times(logs@.take(i as int)),
        decreases logs.len() - i,
    {
        let log = &logs[i];
        proof {
            assert(logs@.take(i + 1).drop_last() =~= logs@.take(i as int));
        }
        if log.__typename == tag {
            match parse_u64(log.timestamp.as_str()) {
                Some(time) => {
                    times.push(time);
                },
                None => {},
            }
        }
        i = i + 1;
    }
    assert(logs@.take(i as int) =~= logs@);
    times
}

/// The first liquidation strictly between `after` and `before`: the first
/// of `times`, in their own order, that lies in the window, and nothing where
/// none of them does.
pub fn find_first_within(times: &Vec<u64>, after: u64, before: u64) -> (found: Option<u64>)
    ensures
        found == first_within(times@, after, before),
        match found {
            Some(time) => exists|i: int|
                0 <= i < times@.len() && #[trigger] times@[i] == time && within(
                    time,
                    after,
                    before,
                ) && forall|j: int| 0 <= j < i ==> !within(#[trigger] times@[j], after, before),
            None => forall|i: int|
                0 <= i < times@.len() ==> !within(#[trigger] times@[i], after, before),
        },
{
    let mut i: usize = 0;
    assert(times@.skip(0) =~= times@);
    while i < times.len()
        invariant
            i <= times.len(),
            first_within(times@, after, before) == first_within(
                times@.skip(i as int),
                after,
                before,
            ),
        decreases times.len() - i,
    {
        let time = times[i];
        if after < time && time < before {
            proof {
                lemma_first_within(times@, after, before);
            }
            return Some(time);
        }
        assert(times@.skip(i as int).skip(1) =~= times@.skip(i + 1));
        i = i + 1;
    }
    proof {
        lemma_first_within(times@, after, before);
    }
    None
}

/// The liquidation of a vault between two snapshots, from the vault's times
/// and the snapshots' timestamps as they stand in the documents.
pub fn find_liquidation_between(
    times: &Vec<u64>,
    first_timestamp: &str,
    second_timestamp: &str,
) -> (found: Option<u64>)
    ensures
        found == liquidation_between(times@, first_timestamp@, second_timestamp@),
{
    match (parse_u64(first_timestamp), parse_u64(second_timestamp)) {
        (Some(after), Some(before)) => find_first_within(times, after, before),
        _ => None,
    }
}

/// The times that `index` holds for the vault `id`: none for a vault that it
/// does not know.
pub open spec fn times_in(index: Map<Seq<char>, Seq<u64>>, id: Seq<char>) -> Seq<u64> {
    if index.contains_key(id) {
        index[id]
    } else {
        Seq::empty()
    }
}

/// For each vault identifier, the times at which a liquidation of the vault
/// began.
pub struct LiquidationIndex {
    times: StringHashMap<Vec<u64>>,
}

impl View for LiquidationIndex {
    type V = Map<Seq<char>, Seq<u64>>;

    closed spec fn view(&self) -> Map<Seq<char>, Seq<u64>> {
        Map::new(|id: Seq<char>| self.times@.contains_key(id), |id: Seq<char>| self.times@[id]@)
    }
}

impl LiquidationIndex {
    /// An index that knows no vault.
    pub fn new() -> (index: LiquidationIndex)
        ensures
            index@ == Map::<Seq<char>, Seq<u64>>::empty(),
    {
        let index = LiquidationIndex { times: StringHashMap::new() };
        index
    }

    /// Records `times` for the vault `id`, in place of what was recorded.
    pub fn insert(&mut self, id: String, times: Vec<u64>)
        ensures
            final(self)@ == old(self)@.insert(id@, times@),
    {
        self.times.insert(id, times);
    }

    /// The index of a whole history: it knows the identifiers of the history
    /// and no others.
    pub fn build(history: &Vec<(String, Vault)>) -> (index: LiquidationIndex)
        ensures
            index@ == index_of(history@),
            forall|id: Seq<char>|
                #[trigger] index@.contains_key(id) <==> exists|i: int|
                    0 <= i < history@.len() && (#[trigger] history@[i]).0@ == id,
    {
        proof {
            assert forall|id: Seq<char>|
                #[trigger] index_of(history@).contains_key(id) <==> exists|i: int|
                    0 <= i < history@.len() && (#[trigger] history@[i]).0@ == id by {
                lemma_index_of(history@, id);
            }
        }
        let mut index = LiquidationIndex::new();
        let mut i: usize = 0;
        while i < history.len()
            invariant
                i <= history.len(),
                index@ == index_of(history@.take(i as int)),
            decreases history.len() - i,
        {
            let entry = &history[i];
            proof {
                assert(history@.take(i + 1).drop_last() =~= history@.take(i as int));
            }
            let times = if entry.1.vaults.len() == 0 {
                Vec::new()
            } else {
                collect_liquidation_times(&entry.1.vaults[0].logs)
            };
            index.insert(entry.0.clone(), times);
            i = i + 1;
        }
        assert(history@.take(i as int) =~= history@);
        index
    }

    /// The first liquidation of the vault `id` strictly between `after` and
    /// `before`. A vault that the index does not know was not liquidated.
    pub fn first_liquidation_within(&self, id: &str, after: u64, before: u64) -> (found: Option<
        u64,
    >)
        ensures
            found == first_within(times_in(self@, id@), after, before),
    {
        match self.times.get(id) {
            Some(times) => find_first_within(times, after, before),
            None => None,
        }
    }
}

} // verus!
