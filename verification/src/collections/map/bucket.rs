use vstd::prelude::*;

use super::entry::Entry;
use super::{EvictionPolicy, Value, ValuePriority};
use std::marker::PhantomData;

verus! {

/// The number of entries a bucket holds.
pub const DEFAULT_CAPACITY: usize = 3;

/// How a `Bucket::set` call stored its entry.
#[derive(Debug, Clone, Copy, PartialEq, Eq, Structural)]
pub enum SetResult {
    /// The key took a previously empty slot.
    Inserted,
    /// The key was already present and its value was replaced.
    Updated,
    /// The bucket was full and the lowest-priority entry was replaced.
    Evicted,
}

/// The abstract content of one slot: the key tag and value, if occupied.
pub open spec fn slot_view<T: Copy>(slot: Option<Entry<T>>) -> Option<(u32, T)> {
    match slot {
        Some(entry) => Some(entry@),
        None => None,
    }
}

/// The key tag of an occupied slot.
pub open spec fn slot_key<T>(slot: Option<(u32, T)>) -> u32 {
    match slot {
        Some(entry) => entry.0,
        None => 0,
    }
}

/// The value stored under `key` in the first occupied slot carrying it.
pub open spec fn lookup<T>(slots: Seq<Option<(u32, T)>>, key: u32) -> Option<T>
    decreases slots.len(),
{
    if slots.len() == 0 {
        None
    } else {
        match slots[0] {
            Some(entry) => if entry.0 == key {
                Some(entry.1)
            } else {
                lookup(slots.drop_first(), key)
            },
            None => lookup(slots.drop_first(), key),
        }
    }
}

/// The number of occupied slots.
pub open spec fn occupied<T>(slots: Seq<Option<(u32, T)>>) -> nat
    decreases slots.len(),
{
    if slots.len() == 0 {
        0
    } else {
        occupied(slots.drop_last()) + if slots.last() is Some {
            1nat
        } else {
            0nat
        }
    }
}

/// Occupied slots form a prefix: no empty slot comes before an occupied one.
pub open spec fn occupied_prefix<T>(slots: Seq<Option<(u32, T)>>) -> bool {
    forall|i: int, j: int| 0 <= i < j < slots.len() && (#[trigger] slots[j]) is Some ==> (
    #[trigger] slots[i]) is Some
}

/// No two occupied slots hold the same key.
pub open spec fn distinct_keys<T>(slots: Seq<Option<(u32, T)>>) -> bool {
    forall|i: int, j: int|
        0 <= i < j < slots.len() && (#[trigger] slots[i]) is Some && (#[trigger] slots[j]) is Some
            ==> slot_key(slots[i]) != slot_key(slots[j])
}

/// `i` is the slot that a search for `key` stops at: every slot before it is
/// occupied by another key, and it is either empty or holds `key`.
pub open spec fn stops_at<T>(slots: Seq<Option<(u32, T)>>, key: u32, i: int) -> bool {
    &&& 0 <= i < slots.len()
    &&& forall|j: int| 0 <= j < i ==> (#[trigger] slots[j]) is Some && slot_key(slots[j]) != key
    &&& (slots[i] is None || slot_key(slots[i]) == key)
}

/// Slots before `i` that are empty or hold other keys do not change a lookup.
pub proof fn lemma_lookup_skip<T>(slots: Seq<Option<(u32, T)>>, key: u32, i: int)
    requires
        0 <= i <= slots.len(),
        forall|j: int| 0 <= j < i ==> (#[trigger] slots[j]) is None || slot_key(slots[j]) != key,
    ensures
        lookup(slots, key) == lookup(slots.subrange(i, slots.len() as int), key),
    decreases i,
{
    if i > 0 {
        lemma_lookup_skip(slots.drop_first(), key, i - 1);
        assert(slots.drop_first().subrange(i - 1, slots.len() - 1) =~= slots.subrange(
            i,
            slots.len() as int,
        ));
    } else {
        assert(slots.subrange(0, slots.len() as int) =~= slots);
    }
}

/// A key held by no slot is not found.
pub proof fn lemma_lookup_all_missing<T>(slots: Seq<Option<(u32, T)>>, key: u32)
    requires
        forall|j: int| 0 <= j < slots.len() ==> (#[trigger] slots[j]) is None || slot_key(slots[j]) != key,
    ensures
        lookup(slots, key) is None,
{
    lemma_lookup_skip(slots, key, slots.len() as int);
    assert(slots.subrange(slots.len() as int, slots.len() as int).len() == 0);
}

/// The first slot holding a key gives the lookup its value.
pub proof fn lemma_lookup_found<T>(slots: Seq<Option<(u32, T)>>, key: u32, i: int, data: T)
    requires
        0 <= i < slots.len(),
        forall|j: int| 0 <= j < i ==> (#[trigger] slots[j]) is None || slot_key(slots[j]) != key,
        slots[i] == Some((key, data)),
    ensures
        lookup(slots, key) == Some(data),
{
    lemma_lookup_skip(slots, key, i);
    assert(slots.subrange(i, slots.len() as int)[0] == slots[i]);
}

/// Writing `key` into a slot that was empty or held a key other than `other`
/// leaves the lookup of `other` unchanged.
pub proof fn lemma_lookup_other<T>(
    slots: Seq<Option<(u32, T)>>,
    i: int,
    key: u32,
    data: T,
    other: u32,
)
    requires
        0 <= i < slots.len(),
        slots[i] is None || slot_key(slots[i]) != other,
        other != key,
    ensures
        lookup(slots.update(i, Some((key, data))), other) == lookup(slots, other),
    decreases slots.len(),
{
    let updated = slots.update(i, Some((key, data)));
    if i > 0 {
        lemma_lookup_other(slots.drop_first(), i - 1, key, data, other);
        assert(updated.drop_first() =~= slots.drop_first().update(i - 1, Some((key, data))));
    } else {
        assert(updated.drop_first() =~= slots.drop_first());
    }
}

/// Replacing one slot changes the count of occupied slots by the change in
/// that slot alone.
pub proof fn lemma_occupied_update<T>(slots: Seq<Option<(u32, T)>>, i: int, x: Option<(u32, T)>)
    requires
        0 <= i < slots.len(),
    ensures
        occupied(slots.update(i, x)) + (if slots[i] is Some {
            1int
        } else {
            0int
        }) == occupied(slots) + (if x is Some {
            1int
        } else {
            0int
        }),
    decreases slots.len(),
{
    let updated = slots.update(i, x);
    if i < slots.len() - 1 {
        lemma_occupied_update(slots.drop_last(), i, x);
        assert(updated.drop_last() =~= slots.drop_last().update(i, x));
    } else {
        assert(updated.drop_last() =~= slots.drop_last());
    }
}

/// No more slots are occupied than there are slots, and all are when each is.
pub proof fn lemma_occupied_bound<T>(slots: Seq<Option<(u32, T)>>)
    ensures
        occupied(slots) <= slots.len(),
        (forall|j: int| 0 <= j < slots.len() ==> (#[trigger] slots[j]) is Some) ==> occupied(slots)
            == slots.len(),
    decreases slots.len(),
{
    if slots.len() > 0 {
        lemma_occupied_bound(slots.drop_last());
        if forall|j: int| 0 <= j < slots.len() ==> (#[trigger] slots[j]) is Some {
            assert forall|j: int| 0 <= j < slots.drop_last().len() implies (
            #[trigger] slots.drop_last()[j]) is Some by {
                assert(slots[j] is Some);
            }
        }
    }
}

/// With occupied slots forming a prefix, the first empty slot sits right after them.
pub proof fn lemma_occupied_first_empty<T>(slots: Seq<Option<(u32, T)>>, i: int)
    requires
        occupied_prefix(slots),
        0 <= i < slots.len(),
        slots[i] is None,
        forall|j: int| 0 <= j < i ==> (#[trigger] slots[j]) is Some,
    ensures
        occupied(slots) == i,
    decreases slots.len(),
{
    if i < slots.len() - 1 {
        assert(slots.last() is None);
        lemma_occupied_first_empty(slots.drop_last(), i);
    } else {
        assert forall|j: int| 0 <= j < slots.drop_last().len() implies (
        #[trigger] slots.drop_last()[j]) is Some by {
            assert(slots[j] is Some);
        }
        lemma_occupied_bound(slots.drop_last());
    }
}

/// With occupied slots forming a prefix, exactly the first `occupied` slots
/// are occupied.
pub proof fn lemma_occupied_prefix_len<T>(slots: Seq<Option<(u32, T)>>)
    requires
        occupied_prefix(slots),
    ensures
        forall|j: int| 0 <= j < slots.len() ==> ((#[trigger] slots[j]) is Some <==> j < occupied(
            slots,
        )),
    decreases slots.len(),
{
    if slots.len() > 0 {
        let rest = slots.drop_last();
        assert(occupied_prefix(rest)) by {
            assert forall|i: int, j: int|
                0 <= i < j < rest.len() && (#[trigger] rest[j]) is Some implies (
                #[trigger] rest[i]) is Some by {
                assert(slots[j] is Some);
            }
        }
        lemma_occupied_prefix_len(rest);
        if slots.last() is Some {
            assert forall|j: int| 0 <= j < slots.len() implies (#[trigger] slots[j]) is Some by {
                if j < slots.len() - 1 {
                    assert(slots[slots.len() - 1] is Some);
                }
            }
            lemma_occupied_bound(slots);
        } else {
            assert forall|j: int| 0 <= j < slots.len() implies ((#[trigger] slots[j]) is Some
                <==> j < occupied(slots)) by {
                if j < slots.len() - 1 {
                    assert(rest[j] == slots[j]);
                }
                lemma_occupied_bound(rest);
            }
        }
    }
}

/// Whether `i` is the first index holding the smallest of `priorities`.
pub open spec fn first_lowest(priorities: Seq<i16>, i: int) -> bool {
    &&& 0 <= i < priorities.len()
    &&& forall|j: int| 0 <= j < priorities.len() ==> priorities[i] <= #[trigger] priorities[j]
    &&& forall|j: int| 0 <= j < i ==> priorities[i] < #[trigger] priorities[j]
}

/// Whether `new_slots` is the full bucket `old_slots` with its entry of
/// lowest eviction priority, the first such one, replaced by `key` and
/// `data`; the priorities are those that the policy gives for the stored
/// values.
pub open spec fn evicts_lowest<T: Value, P: EvictionPolicy<T>>(
    old_slots: Seq<Option<(u32, T)>>,
    new_slots: Seq<Option<(u32, T)>>,
    key: u32,
    data: T,
) -> bool {
    exists|i: int, priorities: Seq<i16>|
        #![trigger first_lowest(priorities, i)]
        {
            &&& priorities.len() == old_slots.len()
            &&& forall|j: int|
                0 <= j < old_slots.len() ==> call_ensures(
                    P::priority,
                    (&(old_slots[j]->0).1,),
                    #[trigger] priorities[j],
                )
            &&& first_lowest(priorities, i)
            &&& new_slots == old_slots.update(i, Some((key, data)))
        }
}

/// Returns the first index holding the smallest priority.
pub fn lowest_priority_index(priorities: &[i16]) -> (index: usize)
    requires
        priorities@.len() > 0,
    ensures
        index < priorities@.len(),
        forall|j: int| 0 <= j < priorities@.len() ==> priorities@[index as int] <= #[trigger] priorities@[j],
        forall|j: int| 0 <= j < index ==> priorities@[index as int] < #[trigger] priorities@[j],
{
    let mut min_priority = i16::MAX;
    let mut min_priority_idx: usize = 0;
    let mut i: usize = 0;
    while i < priorities.len()
        invariant
            i <= priorities@.len(),
            min_priority_idx < priorities@.len(),
            i > 0 ==> min_priority_idx < i && min_priority == priorities@[min_priority_idx as int],
            i == 0 ==> min_priority_idx == 0 && min_priority == i16::MAX,
            forall|j: int| 0 <= j < i ==> min_priority <= #[trigger] priorities@[j],
            forall|j: int| 0 <= j < min_priority_idx ==> min_priority < #[trigger] priorities@[j],
        decreases priorities@.len() - i,
    {
        let priority = priorities[i];
        if priority < min_priority {
            min_priority = priority;
            min_priority_idx = i;
        }
        i = i + 1;
    }
    min_priority_idx
}

/// A fixed-size group of entries whose hashes share a bucket index.
///
/// Occupied slots always form a prefix of the bucket.
pub struct Bucket<T: Value, P: EvictionPolicy<T> = ValuePriority> {
    entries: Vec<Option<Entry<T>>>,
    _policy: PhantomData<P>,
}

impl<T: Value, P: EvictionPolicy<T>> View for Bucket<T, P> {
    type V = Seq<Option<(u32, T)>>;

    /// The slots, in order.
    closed spec fn view(&self) -> Seq<Option<(u32, T)>> {
        Seq::new(self.entries@.len(), |i: int| slot_view(self.entries@[i]))
    }
}

impl<T: Value, P: EvictionPolicy<T>> Bucket<T, P> {
    /// The bucket has its fixed number of slots, its occupied slots form a
    /// prefix and no key is held twice.
    pub open spec fn wf(&self) -> bool {
        &&& self@.len() == DEFAULT_CAPACITY
        &&& occupied_prefix(self@)
        &&& distinct_keys(self@)
    }

    /// The number of occupied slots.
    pub open spec fn count(&self) -> nat {
        occupied(self@)
    }

    /// The value stored under `key`, if any.
    pub open spec fn spec_get(&self, key: u32) -> Option<T> {
        lookup(self@, key)
    }

    /// The keys the bucket holds.
    pub open spec fn keys(&self) -> Set<u32> {
        Set::new(|key: u32| self.spec_get(key) is Some)
    }

    /// Each occupied slot's key reads back that slot's value, and every key
    /// the bucket holds sits in an occupied slot.
    pub proof fn lemma_present_keys(&self)
        requires
            self.wf(),
        ensures
            forall|i: int|
                0 <= i < self@.len() && (#[trigger] self@[i]) is Some ==> self.spec_get(
                    slot_key(self@[i]),
                ) == Some((self@[i]->0).1),
            forall|key: u32|
                #[trigger] self.spec_get(key) is Some ==> exists|i: int|
                    0 <= i < self@.len() && (#[trigger] self@[i]) is Some && slot_key(self@[i])
                        == key,
    {
        let slots = self@;
        assert forall|i: int| 0 <= i < slots.len() && (#[trigger] slots[i]) is Some implies lookup(
            slots,
            slot_key(slots[i]),
        ) == Some((slots[i]->0).1) by {
            assert forall|j: int| 0 <= j < i implies (#[trigger] slots[j]) is None || slot_key(
                slots[j],
            ) != slot_key(slots[i]) by {
                if slots[j] is Some {
                    assert(slot_key(slots[j]) != slot_key(slots[i]));
                }
            }
            assert(slots[i] == Some((slot_key(slots[i]), (slots[i]->0).1)));
            lemma_lookup_found(slots, slot_key(slots[i]), i, (slots[i]->0).1);
        }
        assert forall|key: u32| #[trigger] lookup(slots, key) is Some implies exists|i: int|
            0 <= i < slots.len() && (#[trigger] slots[i]) is Some && slot_key(slots[i]) == key by {
            if !(exists|i: int|
                0 <= i < slots.len() && (#[trigger] slots[i]) is Some && slot_key(slots[i]) == key) {
                lemma_lookup_all_missing(slots, key);
            }
        }
    }

    /// The bucket holds as many keys as it has occupied slots.
    pub proof fn lemma_count_is_keys(&self)
        requires
            self.wf(),
        ensures
            self.keys().finite(),
            self.keys().len() == self.count(),
    {
        let slots = self@;
        let n = occupied(slots);
        lemma_occupied_prefix_len(slots);
        lemma_occupied_bound(slots);
        self.lemma_present_keys();
        let ks = Seq::new(n, |j: int| slot_key(slots[j]));
        assert(ks.no_duplicates()) by {
            assert forall|a: int, b: int| 0 <= a < ks.len() && 0 <= b < ks.len() && a != b implies ks[a]
                != ks[b] by {
                assert(slots[a] is Some && slots[b] is Some);
                if a < b {
                    assert(slot_key(slots[a]) != slot_key(slots[b]));
                } else {
                    assert(slot_key(slots[b]) != slot_key(slots[a]));
                }
            }
        }
        assert(ks.to_set() =~= self.keys()) by {
            assert forall|key: u32| ks.to_set().contains(key) implies self.keys().contains(key) by {
                let j = choose|j: int| 0 <= j < ks.len() && ks[j] == key;
                assert(slots[j] is Some);
            }
            assert forall|key: u32| self.keys().contains(key) implies ks.to_set().contains(key) by {
                assert(self.spec_get(key) is Some);
                let i = choose|i: int|
                    0 <= i < slots.len() && (#[trigger] slots[i]) is Some && slot_key(slots[i]) == key;
                assert(ks[i] == key);
            }
        }
        ks.unique_seq_to_set();
        vstd::seq_lib::seq_to_set_is_finite(ks);
    }

    /// Creates an empty bucket.
    pub fn new() -> (bucket: Self)
        ensures
            bucket.wf(),
            bucket@ == Seq::new(DEFAULT_CAPACITY as nat, |i: int| None::<(u32, T)>),
            bucket.count() == 0,
    {
        let mut entries: Vec<Option<Entry<T>>> = Vec::new();
        let mut i: usize = 0;
        while i < DEFAULT_CAPACITY
            invariant
                i <= DEFAULT_CAPACITY,
                entries@.len() == i,
                forall|j: int| 0 <= j < i ==> (#[trigger] entries@[j]) is None,
            decreases DEFAULT_CAPACITY - i,
        {
            entries.push(None);
            i = i + 1;
        }
        let bucket = Bucket { entries, _policy: PhantomData };
        assert(bucket@ =~= Seq::new(DEFAULT_CAPACITY as nat, |i: int| None::<(u32, T)>));
        proof {
            lemma_occupied_first_empty(bucket@, 0);
        }
        bucket
    }

    /// Returns the value stored under `key`, if any.
    pub fn get(&self, key: u32) -> (data: Option<&T>)
        requires
            self.wf(),
        ensures
            match data {
                Some(d) => self.spec_get(key) == Some(*d),
                None => self.spec_get(key) is None,
            },
    {
        let ghost slots = self@;
        let mut i: usize = 0;
        while i < self.entries.len()
            invariant
                slots == self@,
                i <= slots.len(),
                self.entries@.len() == slots.len(),
                forall|j: int| 0 <= j < i ==> (#[trigger] slots[j]) is None || slot_key(slots[j]) != key,
            decreases slots.len() - i,
        {
            if let Some(entry) = &self.entries[i] {
                if entry.key() == key {
                    proof {
                        assert(slots[i as int] == Some(entry@));
                        lemma_lookup_found(slots, key, i as int, entry@.1);
                    }
                    return Some(entry.data());
                }
            }
            assert(slots[i as int] is None || slot_key(slots[i as int]) != key);
            i = i + 1;
        }
        proof {
            lemma_lookup_all_missing(slots, key);
        }
        None
    }

    /// Stores `data` under `key`.
    ///
    /// An existing entry for `key` is updated; otherwise the first empty slot
    /// is used; when every slot is taken, the entry with the lowest eviction
    /// priority is replaced.
    pub fn set(&mut self, key: u32, data: T) -> (result: SetResult)
        requires
            old(self).wf(),
        ensures
            final(self).wf(),
            final(self).spec_get(key) == Some(data),
            result == SetResult::Updated <==> old(self).spec_get(key) is Some,
            result == SetResult::Inserted <==> old(self).spec_get(key) is None && old(self).count()
                < DEFAULT_CAPACITY,
            result == SetResult::Evicted <==> old(self).spec_get(key) is None && old(self).count()
                == DEFAULT_CAPACITY,
            result != SetResult::Evicted ==> exists|i: int|
                stops_at(old(self)@, key, i) && final(self)@ == old(self)@.update(
                    i,
                    Some((key, data)),
                ),
            result == SetResult::Evicted ==> evicts_lowest::<T, P>(old(self)@, final(self)@, key, data),
            result == SetResult::Evicted ==> exists|i: int|
                #![trigger old(self)@[i]]
                {
                    &&& 0 <= i < old(self)@.len()
                    &&& old(self)@[i] is Some
                    &&& final(self)@ == old(self)@.update(i, Some((key, data)))
                    &&& final(self).spec_get(slot_key(old(self)@[i])) is None
                    &&& forall|other: u32|
                        other != key && other != slot_key(old(self)@[i])
                            ==> #[trigger] final(self).spec_get(other) == old(self).spec_get(other)
                },
            result != SetResult::Evicted ==> forall|other: u32|
                other != key ==> #[trigger] final(self).spec_get(other) == old(self).spec_get(other),
            final(self).count() == old(self).count() + if result == SetResult::Inserted {
                1nat
            } else {
                0nat
            },
    {
        let ghost slots = self@;
        proof {
            lemma_occupied_bound(slots);
        }
        let mut i: usize = 0;
        while i < self.entries.len()
            invariant
                slots == old(self)@,
                *self == *old(self),
                old(self).wf(),
                i <= slots.len(),
                self.entries@.len() == slots.len(),
                forall|j: int| 0 <= j < i ==> (#[trigger] slots[j]) is Some && slot_key(slots[j]) != key,
            decreases slots.len() - i,
        {
            match self.entries[i] {
                Some(entry) => {
                    if entry.key() == key {
                        let mut updated = entry;
                        updated.set(key, data);
                        self.entries.set(i, Some(updated));
                        proof {
                            assert(self@ =~= slots.update(i as int, Some((key, data))));
                            assert(stops_at(slots, key, i as int));
                            lemma_lookup_found(slots, key, i as int, entry@.1);
                            lemma_lookup_found(self@, key, i as int, data);
                            lemma_occupied_update(slots, i as int, Some((key, data)));
                            assert forall|other: u32| other != key implies #[trigger] lookup(
                                self@,
                                other,
                            ) == lookup(slots, other) by {
                                lemma_lookup_other(slots, i as int, key, data, other);
                            }
                        }
                        return SetResult::Updated;
                    }
                },
                None => {
                    self.entries.set(i, Some(Entry::new(key, data)));
                    proof {
                        assert(self@ =~= slots.update(i as int, Some((key, data))));
                        assert(stops_at(slots, key, i as int));
                        lemma_occupied_first_empty(slots, i as int);
                        assert forall|j: int| i < j < slots.len() implies (#[trigger] slots[j])
                            is None by {
                            if slots[j] is Some {
                                assert(slots[i as int] is Some);
                            }
                        }
                        lemma_lookup_skip(slots, key, i as int);
                        lemma_lookup_all_missing(slots.subrange(i as int, slots.len() as int), key);
                        lemma_lookup_found(self@, key, i as int, data);
                        lemma_occupied_update(slots, i as int, Some((key, data)));
                        assert forall|other: u32| other != key implies #[trigger] lookup(
                            self@,
                            other,
                        ) == lookup(slots, other) by {
                            lemma_lookup_other(slots, i as int, key, data, other);
                        }
                    }
                    return SetResult::Inserted;
                },
            }
            i = i + 1;
        }
        proof {
            lemma_lookup_all_missing(slots, key);
            lemma_occupied_bound(slots);
        }
        let mut priorities: Vec<i16> = Vec::new();
        let mut k: usize = 0;
        while k < self.entries.len()
            invariant
                slots == old(self)@,
                *self == *old(self),
                k <= slots.len(),
                self.entries@.len() == slots.len(),
                priorities@.len() == k,
                forall|j: int| 0 <= j < slots.len() ==> (#[trigger] slots[j]) is Some,
                forall|j: int|
                    0 <= j < k ==> call_ensures(
                        P::priority,
                        (&(slots[j]->0).1,),
                        #[trigger] priorities@[j],
                    ),
            decreases slots.len() - k,
        {
            match &self.entries[k] {
                Some(entry) => {
                    let value = entry.data();
                    let priority = P::priority(value);
                    assert((slots[k as int]->0).1 == *value);
                    priorities.push(priority);
                },
                None => {
                    assert(slots[k as int] is Some);
                },
            }
            k = k + 1;
        }
        let min_priority_idx = lowest_priority_index(priorities.as_slice());
        self.entries.set(min_priority_idx, Some(Entry::new(key, data)));
        proof {
            assert(self@ =~= slots.update(min_priority_idx as int, Some((key, data))));
            lemma_occupied_update(slots, min_priority_idx as int, Some((key, data)));
            assert forall|j: int| 0 <= j < self@.len() implies (#[trigger] self@[j]) is Some by {
                assert(slots[j] is Some);
            }
            assert forall|j: int| 0 <= j < min_priority_idx implies (#[trigger] self@[j]) is None
                || slot_key(self@[j]) != key by {
                assert(slots[j] is Some && slot_key(slots[j]) != key);
            }
            lemma_lookup_found(self@, key, min_priority_idx as int, data);
            assert(first_lowest(priorities@, min_priority_idx as int));
            let m = min_priority_idx as int;
            let evicted = slot_key(slots[m]);
            assert(slots[m] is Some);
            assert forall|j: int| 0 <= j < self@.len() implies (#[trigger] self@[j]) is None
                || slot_key(self@[j]) != evicted by {
                if j != m {
                    assert(slots[j] is Some);
                    if j < m {
                        assert(slot_key(slots[j]) != slot_key(slots[m]));
                    } else {
                        assert(slot_key(slots[m]) != slot_key(slots[j]));
                    }
                }
            }
            lemma_lookup_all_missing(self@, evicted);
            assert forall|other: u32| other != key && other != evicted implies #[trigger] lookup(
                self@,
                other,
            ) == lookup(slots, other) by {
                lemma_lookup_other(slots, m, key, data, other);
            }
            assert forall|a: int, b: int|
                0 <= a < b < self@.len() && (#[trigger] self@[a]) is Some && (
                #[trigger] self@[b]) is Some implies slot_key(self@[a]) != slot_key(self@[b]) by {
                assert(slots[a] is Some && slots[b] is Some);
            }
        }
        SetResult::Evicted
    }

    /// Empties every slot.
    pub fn clear(&mut self)
        requires
            old(self).wf(),
        ensures
            final(self).wf(),
            final(self)@ == Seq::new(DEFAULT_CAPACITY as nat, |i: int| None::<(u32, T)>),
            final(self).count() == 0,
            forall|key: u32| #[trigger] final(self).spec_get(key) is None,
    {
        let mut i: usize = 0;
        while i < self.entries.len()
            invariant
                i <= DEFAULT_CAPACITY,
                self.entries@.len() == DEFAULT_CAPACITY,
                forall|j: int| 0 <= j < i ==> (#[trigger] self.entries@[j]) is None,
            decreases DEFAULT_CAPACITY - i,
        {
            self.entries.set(i, None);
            i = i + 1;
        }
        assert(self@ =~= Seq::new(DEFAULT_CAPACITY as nat, |i: int| None::<(u32, T)>));
        proof {
            lemma_occupied_first_empty(self@, 0);
            assert forall|key: u32| #[trigger] lookup(self@, key) is None by {
                lemma_lookup_all_missing(self@, key);
            }
        }
    }

    /// Returns the bytes a bucket's slots take, clamped to `usize::MAX`.
    pub fn size_of_mem() -> (size: usize)
        ensures
            size == super::bucket_bytes::<T>(),
            size >= 4 * DEFAULT_CAPACITY,
    {
        super::saturating_mul(super::slot_size::<T>(), DEFAULT_CAPACITY)
    }

    /// Returns the number of slots a bucket holds.
    pub fn capacity() -> (capacity: usize)
        ensures
            capacity == DEFAULT_CAPACITY,
    {
        DEFAULT_CAPACITY
    }
}

} // verus!
