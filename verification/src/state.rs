//! The counters that rules keep between calls.

use crate::error::RuleSetError;
use crate::pubkey::Pubkey;
use vstd::prelude::*;

verus! {

/// What a counter is kept under: the number of the rule that counts, and the
/// address of the account that it counts for.
#[derive(Clone, Copy, Debug, PartialEq, Eq)]
pub struct CounterKey {
    /// The number of the rule.
    pub rule: u64,
    /// The address of the account.
    pub resource: Pubkey,
}

impl View for CounterKey {
    type V = (u64, Seq<u8>);

    open spec fn view(&self) -> (u64, Seq<u8>) {
        (self.rule, self.resource@)
    }
}

/// The keys as mathematical values.
pub open spec fn keys_view(keys: Seq<CounterKey>) -> Seq<(u64, Seq<u8>)> {
    keys.map_values(|key: CounterKey| key@)
}

/// Appends the keys of `more` to `keys`.
pub fn append_keys(keys: &mut Vec<CounterKey>, more: &Vec<CounterKey>)
    ensures
        keys_view(final(keys)@) == keys_view(old(keys)@) + keys_view(more@),
{
    let mut i: usize = 0;
    proof {
        assert(keys_view(keys@) =~= keys_view(old(keys)@) + keys_view(more@.take(0)));
    }
    while i < more.len()
        invariant
            i <= more@.len(),
            keys_view(keys@) == keys_view(old(keys)@) + keys_view(more@.take(i as int)),
        decreases more@.len() - i,
    {
        let ghost before = keys@;
        keys.push(more[i]);
        proof {
            assert(keys_view(keys@) =~= keys_view(before).push(more@[i as int]@));
            assert(keys_view(more@.take(i + 1)) =~= keys_view(more@.take(i as int)).push(
                more@[i as int]@,
            ));
        }
        i = i + 1;
    }
    proof {
        assert(more@.take(more@.len() as int) =~= more@);
    }
}

/// What the entries say, later entries overriding earlier ones.
pub open spec fn counters_map(entries: Seq<(CounterKey, u64)>) -> Map<(u64, Seq<u8>), u64>
    decreases entries.len(),
{
    if entries.len() == 0 {
        Map::empty()
    } else {
        counters_map(entries.drop_last()).insert(entries.last().0@, entries.last().1)
    }
}

/// The count under the key; zero where nothing has been counted.
pub open spec fn count_of(counters: Map<(u64, Seq<u8>), u64>, key: (u64, Seq<u8>)) -> u64 {
    if counters.dom().contains(key) {
        counters[key]
    } else {
        0
    }
}

/// The counters after one more was counted under each of the keys, in order;
/// nothing where a counter is full.
pub open spec fn incremented(
    counters: Map<(u64, Seq<u8>), u64>,
    keys: Seq<(u64, Seq<u8>)>,
) -> Option<Map<(u64, Seq<u8>), u64>>
    decreases keys.len(),
{
    if keys.len() == 0 {
        Some(counters)
    } else {
        match incremented(counters, keys.drop_last()) {
            None => None,
            Some(before) => if count_of(before, keys.last()) == u64::MAX {
                None
            } else {
                Some(before.insert(keys.last(), (count_of(before, keys.last()) + 1) as u64))
            },
        }
    }
}

/// The counters of a rule set.
#[derive(Clone, Debug)]
pub struct RuleState {
    counters: Vec<(CounterKey, u64)>,
}

impl View for RuleState {
    type V = Map<(u64, Seq<u8>), u64>;

    closed spec fn view(&self) -> Map<(u64, Seq<u8>), u64> {
        counters_map(self.counters@)
    }
}

impl RuleState {
    /// Counters that have counted nothing.
    pub fn new() -> (state: RuleState)
        ensures
            state@ == Map::<(u64, Seq<u8>), u64>::empty(),
    {
        RuleState { counters: Vec::new() }
    }

    /// The count under the key; zero where nothing has been counted.
    pub fn count(&self, key: &CounterKey) -> (n: u64)
        ensures
            n == count_of(self@, key@),
    {
        let ghost all = self.counters@;
        let mut i: usize = self.counters.len();
        proof {
            assert(all.take(i as int) =~= all);
        }
        while i > 0
            invariant
                i <= all.len(),
                all == self.counters@,
                count_of(counters_map(all), key@) == count_of(
                    counters_map(all.take(i as int)),
                    key@,
                ),
            decreases i,
        {
            proof {
                assert(all.take(i as int).drop_last() =~= all.take(i - 1));
            }
            i = i - 1;
            if self.counters[i].0.rule == key.rule && self.counters[i].0.resource.same_as(
                &key.resource,
            ) {
                return self.counters[i].1;
            }
        }
        0
    }

    /// Puts the count under the key, in place of what was there.
    pub fn set(&mut self, key: CounterKey, count: u64)
        ensures
            final(self)@ == old(self)@.insert(key@, count),
    {
        let ghost before = self.counters@;
        self.counters.push((key, count));
        proof {
            assert(self.counters@.drop_last() =~= before);
        }
    }

    /// Counts one more under the key. A counter that is full stays as it is,
    /// and the call fails.
    pub fn increment(&mut self, key: CounterKey) -> (r: Result<(), RuleSetError>)
        ensures
            count_of(old(self)@, key@) < u64::MAX ==> r is Ok && final(self)@ == old(self)@.insert(
                key@,
                (count_of(old(self)@, key@) + 1) as u64,
            ),
            count_of(old(self)@, key@) == u64::MAX ==> r == Err::<(), RuleSetError>(
                RuleSetError::NumericalOverflow,
            ) && final(self)@ == old(self)@,
    {
        let count = self.count(&key);
        if count == u64::MAX {
            return Err(RuleSetError::NumericalOverflow);
        }
        self.set(key, count + 1);
        Ok(())
    }

    /// Counts one more under each of the keys, in order. Where a counter is
    /// full, nothing is counted at all, and the call fails.
    pub fn apply(&mut self, keys: &Vec<CounterKey>) -> (r: Result<(), RuleSetError>)
        ensures
            match incremented(old(self)@, keys_view(keys@)) {
                Some(counters) => r is Ok && final(self)@ == counters,
                None => {
                    &&& r == Err::<(), RuleSetError>(RuleSetError::NumericalOverflow)
                    &&& final(self)@ == old(self)@
                },
            },
    {
        let ghost wanted = keys_view(keys@);
        let ghost start = self.counters@;
        let kept = self.counters.len();
        let mut i: usize = 0;
        proof {
            assert(wanted.take(0) =~= Seq::<(u64, Seq<u8>)>::empty());
            assert(self.counters@.take(kept as int) =~= start);
        }
        while i < keys.len()
            invariant
                i <= keys@.len(),
                wanted == keys_view(keys@),
                kept == start.len(),
                counters_map(start) == old(self)@,
                kept <= self.counters@.len(),
                self.counters@.take(kept as int) == start,
                incremented(counters_map(start), wanted.take(i as int)) == Some(self@),
            decreases keys@.len() - i,
        {
            proof {
                assert(wanted.take(i + 1).drop_last() =~= wanted.take(i as int));
                assert(wanted.take(i + 1).last() == keys@[i as int]@);
            }
            let key = keys[i];
            let count = self.count(&key);
            if count == u64::MAX {
                proof {
                    lemma_incremented_stops(counters_map(start), wanted, i + 1);
                }
                self.counters.truncate(kept);
                proof {
                    assert(self.counters@ =~= start);
                }
                return Err(RuleSetError::NumericalOverflow);
            }
            let ghost before = self.counters@;
            self.counters.push((key, count + 1));
            proof {
                assert(self.counters@.drop_last() =~= before);
                assert(self.counters@.take(kept as int) =~= before.take(kept as int));
            }
            i = i + 1;
        }
        proof {
            assert(wanted.take(keys@.len() as int) =~= wanted);
        }
        Ok(())
    }
}

/// Where counting under the first keys fails, counting under all of them fails.
pub proof fn lemma_incremented_stops(
    counters: Map<(u64, Seq<u8>), u64>,
    keys: Seq<(u64, Seq<u8>)>,
    i: int,
)
    requires
        0 <= i <= keys.len(),
        incremented(counters, keys.take(i)) is None,
    ensures
        incremented(counters, keys) is None,
    decreases keys.len(),
{
    if i < keys.len() {
        assert(keys.drop_last().take(i) =~= keys.take(i));
        lemma_incremented_stops(counters, keys.drop_last(), i);
    } else {
        assert(keys.take(i) =~= keys);
    }
}

/// Counting once under one key adds one to its counter and changes no other.
pub proof fn law_one_increment(counters: Map<(u64, Seq<u8>), u64>, key: (u64, Seq<u8>))
    requires
        count_of(counters, key) < u64::MAX,
    ensures
        incremented(counters, seq![key]) is Some,
        count_of(incremented(counters, seq![key])->Some_0, key) == count_of(counters, key) + 1,
        forall|other: (u64, Seq<u8>)|
            other != key ==> count_of(incremented(counters, seq![key])->Some_0, other) == count_of(
                counters,
                other,
            ),
{
    assert(seq![key].drop_last() =~= Seq::<(u64, Seq<u8>)>::empty());
    assert(incremented(counters, seq![key].drop_last()) == Some(counters));
}

/// Counting under no key changes nothing.
pub proof fn law_no_increment(counters: Map<(u64, Seq<u8>), u64>)
    ensures
        incremented(counters, Seq::empty()) == Some(counters),
{
}

} // verus!
