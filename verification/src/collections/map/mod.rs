use vstd::prelude::*;

pub mod bucket;
pub mod entry;

pub use bucket::{Bucket, SetResult};
pub use entry::Entry;

verus! {

/// A bucket index and verification tag produced by a map hasher.
#[derive(Debug, Clone, Copy, PartialEq, Eq, Structural)]
pub struct HashKey {
    /// Raw bucket index before reduction by the map's bucket count.
    pub index: usize,
    /// Compact key tag stored in the bucket entry.
    pub tag: u32,
}

/// Hashes a key into a raw bucket index and a key tag.
pub trait HashFn<K> {
    /// Returns the raw index and the tag for `key`.
    fn hash(key: &K) -> HashKey;
}

/// A type that can be stored in a map.
pub trait Value: Copy + Default {
    /// The value's own priority.
    fn priority(&self) -> i8;
}

/// Chooses which entry of a full bucket is evicted: lower priorities go first.
pub trait EvictionPolicy<V> {
    /// Returns the eviction priority of `value`.
    fn priority(value: &V) -> i16;
}

/// The default eviction policy, which uses the value's own priority.
#[derive(Debug, Clone, Copy, Default)]
pub struct ValuePriority;

impl<V: Value> EvictionPolicy<V> for ValuePriority {
    /// The value's own priority, widened.
    fn priority(value: &V) -> (priority: i16)
        ensures
            exists|own: i8| call_ensures(V::priority, (value,), own) && priority == own as i16,
    {
        let own = value.priority();
        own as i16
    }
}

} // verus!

verus! {

use bucket::{evicts_lowest, lookup, occupied, stops_at, lemma_occupied_bound, DEFAULT_CAPACITY};
use std::marker::PhantomData;

/// The number of bytes in one megabyte.
pub const MB_TO_BYTES: usize = 1024 * 1024;

/// `std::mem::size_of` for one bucket slot. A slot carries a `u32` key tag,
/// so it is at least four bytes wide.
#[verifier::external_body]
fn slot_size<T: Copy>() -> (size: usize)
    ensures
        size as nat == vstd::layout::size_of::<Option<Entry<T>>>(),
        size >= 4,
{
    std::mem::size_of::<Option<Entry<T>>>()
}

/// `a * b`, clamped to `usize::MAX`.
pub open spec fn saturating_product(a: nat, b: nat) -> nat {
    if a * b <= usize::MAX {
        a * b
    } else {
        usize::MAX as nat
    }
}

/// Multiplies, clamping the product to `usize::MAX`.
pub fn saturating_mul(a: usize, b: usize) -> (product: usize)
    ensures
        product == saturating_product(a as nat, b as nat),
{
    match a.checked_mul(b) {
        Some(product) => product,
        None => usize::MAX,
    }
}

/// The bytes taken by one bucket, clamped to `usize::MAX`.
pub open spec fn bucket_bytes<V: Copy>() -> nat {
    saturating_product(vstd::layout::size_of::<Option<Entry<V>>>(), DEFAULT_CAPACITY as nat)
}

/// The number of buckets that fit in `memory_size` megabytes.
pub open spec fn bucket_count_for<V: Copy>(memory_size: nat) -> nat {
    saturating_product(MB_TO_BYTES as nat / bucket_bytes::<V>(), memory_size)
}

/// The number of entries that fit in `memory_size` megabytes.
pub open spec fn capacity_for<V: Copy>(memory_size: nat) -> nat {
    saturating_product(bucket_count_for::<V>(memory_size), DEFAULT_CAPACITY as nat)
}

/// The total number of occupied slots over a sequence of buckets.
pub open spec fn total_occupied<V: Value, P: EvictionPolicy<V>>(buckets: Seq<Bucket<V, P>>) -> nat
    decreases buckets.len(),
{
    if buckets.len() == 0 {
        0
    } else {
        total_occupied(buckets.drop_last()) + buckets.last().count()
    }
}

/// Replacing one bucket changes the total occupied count by the change in
/// that bucket alone.
pub proof fn lemma_total_update<V: Value, P: EvictionPolicy<V>>(
    buckets: Seq<Bucket<V, P>>,
    i: int,
    bucket: Bucket<V, P>,
)
    requires
        0 <= i < buckets.len(),
    ensures
        total_occupied(buckets.update(i, bucket)) + buckets[i].count() == total_occupied(buckets)
            + bucket.count(),
    decreases buckets.len(),
{
    let updated = buckets.update(i, bucket);
    if i < buckets.len() - 1 {
        lemma_total_update(buckets.drop_last(), i, bucket);
        assert(updated.drop_last() =~= buckets.drop_last().update(i, bucket));
    } else {
        assert(updated.drop_last() =~= buckets.drop_last());
    }
}

/// Well-formed buckets hold no more entries than their slots.
pub proof fn lemma_total_bound<V: Value, P: EvictionPolicy<V>>(buckets: Seq<Bucket<V, P>>)
    requires
        forall|i: int| 0 <= i < buckets.len() ==> (#[trigger] buckets[i]).wf(),
    ensures
        total_occupied(buckets) <= buckets.len() * DEFAULT_CAPACITY,
    decreases buckets.len(),
{
    if buckets.len() > 0 {
        lemma_total_bound(buckets.drop_last());
        assert(buckets.drop_last().len() == buckets.len() - 1);
        assert(buckets.last().wf());
        lemma_occupied_bound(buckets.last()@);
        assert((buckets.len() - 1) * DEFAULT_CAPACITY + DEFAULT_CAPACITY == buckets.len()
            * DEFAULT_CAPACITY) by (nonlinear_arith);
    }
}

/// Buckets with no occupied slot hold no entry in total.
pub proof fn lemma_total_empty<V: Value, P: EvictionPolicy<V>>(buckets: Seq<Bucket<V, P>>)
    requires
        forall|i: int| 0 <= i < buckets.len() ==> (#[trigger] buckets[i]).count() == 0,
    ensures
        total_occupied(buckets) == 0,
    decreases buckets.len(),
{
    if buckets.len() > 0 {
        lemma_total_empty(buckets.drop_last());
    }
}

/// A hash map with bucket chaining of a fixed bucket length and a
/// priority-based eviction policy.
///
/// Keys are hashed into a raw bucket index and a 32-bit tag; only the tag is
/// stored. When a bucket is full, a new key replaces the entry with the
/// lowest eviction priority.
pub struct BucketMap<K, V: Value, Hasher: HashFn<K>, Policy: EvictionPolicy<V> = ValuePriority> {
    len: usize,
    capacity: usize,
    memory_size: usize,
    buckets: Vec<Bucket<V, Policy>>,
    _key: PhantomData<K>,
    _hasher: PhantomData<Hasher>,
    _policy: PhantomData<Policy>,
}

impl<K, V: Value, Hasher: HashFn<K>, Policy: EvictionPolicy<V>> BucketMap<K, V, Hasher, Policy> {
    /// The map's internal invariant: every bucket is well formed, the entry
    /// count matches the occupied slots, and the sizes match the memory size.
    pub closed spec fn wf(&self) -> bool {
        &&& forall|i: int|
            0 <= i < self.buckets@.len() ==> (#[trigger] self.buckets@[i]).wf()
        &&& self.len == total_occupied(self.buckets@)
        &&& self.buckets@.len() == bucket_count_for::<V>(self.memory_size as nat)
        &&& self.capacity == capacity_for::<V>(self.memory_size as nat)
    }

    /// The number of occupied entries.
    pub closed spec fn spec_len(&self) -> nat {
        self.len as nat
    }

    /// The total number of occupied slots over all buckets.
    pub closed spec fn occupied_entries(&self) -> nat {
        total_occupied(self.buckets@)
    }

    /// The maximum number of entries.
    pub closed spec fn spec_capacity(&self) -> nat {
        self.capacity as nat
    }

    /// The memory size, in megabytes, the map was created for.
    pub closed spec fn spec_memory_size(&self) -> nat {
        self.memory_size as nat
    }

    /// The number of buckets.
    pub closed spec fn bucket_count(&self) -> nat {
        self.buckets@.len()
    }

    /// The slots of bucket `i`.
    pub closed spec fn slots(&self, i: int) -> Seq<Option<(u32, V)>> {
        self.buckets@[i]@
    }

    /// The bucket that a raw hash index selects.
    pub open spec fn bucket_of(&self, index: usize) -> int {
        index as int % self.bucket_count() as int
    }

    /// The value stored under a hash key, if any.
    pub open spec fn spec_get_hashed(&self, hash_key: HashKey) -> Option<V> {
        if self.bucket_count() == 0 {
            None
        } else {
            lookup(self.slots(self.bucket_of(hash_key.index)), hash_key.tag)
        }
    }

    /// What `set_hashed(hash_key, data)` does to a map: nothing when the map
    /// is disabled; otherwise it stores `data` under the tag in the selected
    /// bucket exactly as `Bucket::set` does and leaves every other bucket alone.
    pub open spec fn set_effect(before: Self, after: Self, hash_key: HashKey, data: V) -> bool {
        &&& after.bucket_count() == before.bucket_count()
        &&& after.spec_capacity() == before.spec_capacity()
        &&& after.spec_memory_size() == before.spec_memory_size()
        &&& if before.bucket_count() == 0 {
            after.spec_len() == before.spec_len()
        } else {
            let b = before.bucket_of(hash_key.index);
            let old_slots = before.slots(b);
            let new_slots = after.slots(b);
            let inserted = lookup(old_slots, hash_key.tag) is None && occupied(old_slots)
                < DEFAULT_CAPACITY;
            let evicted = lookup(old_slots, hash_key.tag) is None && occupied(old_slots)
                == DEFAULT_CAPACITY;
            &&& forall|j: int|
                0 <= j < before.bucket_count() && j != b ==> #[trigger] after.slots(j)
                    == before.slots(j)
            &&& lookup(new_slots, hash_key.tag) == Some(data)
            &&& !evicted ==> exists|i: int|
                stops_at(old_slots, hash_key.tag, i) && new_slots == old_slots.update(
                    i,
                    Some((hash_key.tag, data)),
                )
            &&& evicted ==> evicts_lowest::<V, Policy>(old_slots, new_slots, hash_key.tag, data)
            &&& after.spec_len() == before.spec_len() + if inserted {
                1nat
            } else {
                0nat
            }
        }
    }

    /// Every valid map counts its entries by its occupied slots, never more
    /// than its capacity, and has the bucket count and capacity that its
    /// memory size gives. `set`, `clear` and `resize` keep the map valid and
    /// only `resize` changes the memory size, so over any sequence of calls the
    /// bucket count changes only through `resize` to another size.
    pub proof fn lemma_wf_len(&self)
        requires
            self.wf(),
        ensures
            self.spec_len() == self.occupied_entries(),
            self.spec_len() <= self.spec_capacity(),
            self.bucket_count() == bucket_count_for::<V>(self.spec_memory_size()),
            self.spec_capacity() == capacity_for::<V>(self.spec_memory_size()),
            forall|i: int|
                0 <= i < self.bucket_count() ==> (#[trigger] self.slots(i)).len()
                    == DEFAULT_CAPACITY,
    {
        lemma_total_bound(self.buckets@);
        assert forall|i: int| 0 <= i < self.bucket_count() implies (#[trigger] self.slots(
            i,
        )).len() == DEFAULT_CAPACITY by {
            assert(self.buckets@[i].wf());
        }
    }

    /// A read right after a write of the same key gives back the value
    /// written, in an enabled map; a key whose bucket differs reads what it
    /// read before the write. A disabled map reads nothing.
    pub proof fn lemma_get_after_set(
        before: Self,
        after: Self,
        hash_key: HashKey,
        data: V,
        other: HashKey,
    )
        requires
            before.wf(),
            Self::set_effect(before, after, hash_key, data),
        ensures
            before.bucket_count() > 0 ==> after.spec_get_hashed(hash_key) == Some(data),
            before.bucket_count() > 0 && before.bucket_of(other.index) != before.bucket_of(
                hash_key.index,
            ) ==> after.spec_get_hashed(other) == before.spec_get_hashed(other),
            before.bucket_count() == 0 ==> after.spec_get_hashed(hash_key) is None,
    {
        if before.bucket_count() > 0 {
            let b = before.bucket_of(other.index);
            assert(0 <= b < before.bucket_count());
            if b != before.bucket_of(hash_key.index) {
                assert(after.slots(b) == before.slots(b));
            }
        }
    }

    /// With a hasher that gives each key one hash key, `get` of a key right
    /// after `set` of that key in an enabled map gives back the value set.
    pub proof fn lemma_read_after_write(
        before: Self,
        after: Self,
        key: &K,
        data: V,
        written: HashKey,
    )
        requires
            before.wf(),
            before.bucket_count() > 0,
            forall|a: HashKey, b: HashKey|
                call_ensures(Hasher::hash, (key,), a) && call_ensures(Hasher::hash, (key,), b)
                    ==> a == b,
            call_ensures(Hasher::hash, (key,), written),
            Self::set_effect(before, after, written, data),
        ensures
            forall|read: HashKey|
                call_ensures(Hasher::hash, (key,), read) ==> after.spec_get_hashed(read) == Some(
                    data,
                ),
    {
        Self::lemma_get_after_set(before, after, written, data, written);
    }

    /// Returns the number of buckets and the number of entries that fit in
    /// `memory_size` megabytes.
    pub fn calculate_sizes(memory_size: usize) -> (sizes: (usize, usize))
        ensures
            sizes.0 == bucket_count_for::<V>(memory_size as nat),
            sizes.1 == capacity_for::<V>(memory_size as nat),
            bucket_bytes::<V>() >= 4 * DEFAULT_CAPACITY,
            sizes.0 > 0 <==> (memory_size > 0 && bucket_bytes::<V>() <= MB_TO_BYTES),
    {
        let bucket_bytes = saturating_mul(slot_size::<V>(), DEFAULT_CAPACITY);
        let buckets_per_mb = MB_TO_BYTES / bucket_bytes;
        assert(buckets_per_mb > 0 <==> bucket_bytes <= MB_TO_BYTES) by (nonlinear_arith)
            requires
                bucket_bytes > 0,
                buckets_per_mb == MB_TO_BYTES / bucket_bytes,
        ;
        let buckets = saturating_mul(buckets_per_mb, memory_size);
        assert(buckets > 0 <==> (buckets_per_mb > 0 && memory_size > 0)) by (nonlinear_arith)
            requires
                buckets == saturating_product(buckets_per_mb as nat, memory_size as nat),
        ;
        let capacity = saturating_mul(buckets, DEFAULT_CAPACITY);
        (buckets, capacity)
    }

    /// Creates a map sized for `memory_size` megabytes; a size of zero gives
    /// a disabled map that stores nothing.
    pub fn new(memory_size: usize) -> (map: Self)
        ensures
            map.wf(),
            map.spec_len() == 0,
            map.spec_memory_size() == memory_size,
            map.bucket_count() == bucket_count_for::<V>(memory_size as nat),
            map.spec_capacity() == capacity_for::<V>(memory_size as nat),
            forall|hash_key: HashKey| #[trigger] map.spec_get_hashed(hash_key) is None,
            map.bucket_count() > 0 <==> (memory_size > 0 && bucket_bytes::<V>() <= MB_TO_BYTES),
    {
        let (bucket_count, capacity) = Self::calculate_sizes(memory_size);
        let mut buckets: Vec<Bucket<V, Policy>> = Vec::new();
        let mut i: usize = 0;
        while i < bucket_count
            invariant
                i <= bucket_count,
                buckets@.len() == i,
                forall|j: int| 0 <= j < i ==> (#[trigger] buckets@[j]).wf() && buckets@[j].count()
                    == 0 && forall|tag: u32| #[trigger] buckets@[j].spec_get(tag) is None,
            decreases bucket_count - i,
        {
            let bucket = Bucket::new();
            proof {
                assert forall|tag: u32| #[trigger] bucket.spec_get(tag) is None by {
                    bucket::lemma_lookup_all_missing(bucket@, tag);
                }
            }
            buckets.push(bucket);
            i = i + 1;
        }
        proof {
            lemma_total_empty(buckets@);
        }
        let map = BucketMap {
            len: 0,
            capacity,
            memory_size,
            buckets,
            _key: PhantomData,
            _hasher: PhantomData,
            _policy: PhantomData,
        };
        assert forall|hash_key: HashKey| #[trigger] map.spec_get_hashed(hash_key) is None by {
            if map.bucket_count() > 0 {
                let b = map.bucket_of(hash_key.index);
                assert(map.buckets@[b].spec_get(hash_key.tag) is None);
            }
        }
        map
    }

    /// Returns the bucket selected by a raw hash index, or `None` when the
    /// map has no buckets.
    pub fn bucket_index(&self, index: usize) -> (bucket: Option<usize>)
        requires
            self.wf(),
        ensures
            self.bucket_count() == 0 ==> bucket is None,
            self.bucket_count() > 0 ==> bucket == Some(self.bucket_of(index) as usize),
    {
        if self.buckets.len() == 0 {
            return None;
        }
        Some(index % self.buckets.len())
    }

    /// Stores `data` under an already computed hash key.
    pub fn set_hashed(&mut self, hash_key: HashKey, data: V)
        requires
            old(self).wf(),
            old(self).spec_len() < usize::MAX,
        ensures
            final(self).wf(),
            Self::set_effect(*old(self), *final(self), hash_key, data),
    {
        let Some(bucket_idx) = self.bucket_index(hash_key.index) else {
            return ;
        };
        let ghost old_bucket = self.buckets@[bucket_idx as int];
        proof {
            assert(old_bucket.wf());
        }
        let result = self.buckets[bucket_idx].set(hash_key.tag, data);
        proof {
            lemma_total_update(old(self).buckets@, bucket_idx as int, self.buckets@[bucket_idx as int]);
            assert(self.buckets@ =~= old(self).buckets@.update(bucket_idx as int, self.buckets@[bucket_idx as int]));
        }
        if result == SetResult::Inserted {
            self.len = self.len + 1;
        }
        proof {
            assert forall|i: int| 0 <= i < self.buckets@.len() implies (#[trigger] self.buckets@[i]).wf() by {
                if i != bucket_idx {
                    assert(old(self).buckets@[i].wf());
                }
            }
        }
    }

    /// Stores `data` under `key`; a disabled map ignores the call.
    pub fn set(&mut self, key: &K, data: V)
        requires
            old(self).wf(),
            old(self).spec_len() < usize::MAX,
        ensures
            final(self).wf(),
            exists|hash_key: HashKey|
                call_ensures(Hasher::hash, (key,), hash_key) && Self::set_effect(
                    *old(self),
                    *final(self),
                    hash_key,
                    data,
                ),
    {
        let hash_key = Hasher::hash(key);
        self.set_hashed(hash_key, data);
    }

    /// Returns the value stored under an already computed hash key.
    pub fn get_hashed(&self, hash_key: HashKey) -> (data: Option<&V>)
        requires
            self.wf(),
        ensures
            match data {
                Some(d) => self.spec_get_hashed(hash_key) == Some(*d),
                None => self.spec_get_hashed(hash_key) is None,
            },
    {
        let bucket_idx = match self.bucket_index(hash_key.index) {
            Some(idx) => idx,
            None => return None,
        };
        proof {
            assert(self.buckets@[bucket_idx as int].wf());
        }
        self.buckets[bucket_idx].get(hash_key.tag)
    }

    /// Returns the value stored under `key`, if any.
    pub fn get(&self, key: &K) -> (data: Option<&V>)
        requires
            self.wf(),
        ensures
            exists|hash_key: HashKey|
                call_ensures(Hasher::hash, (key,), hash_key) && match data {
                    Some(d) => self.spec_get_hashed(hash_key) == Some(*d),
                    None => self.spec_get_hashed(hash_key) is None,
                },
    {
        let hash_key = Hasher::hash(key);
        self.get_hashed(hash_key)
    }

    /// Returns whether the map has any buckets.
    pub fn is_enabled(&self) -> (enabled: bool)
        requires
            self.wf(),
        ensures
            enabled == (self.bucket_count() > 0),
    {
        self.buckets.len() != 0
    }

    /// Returns the maximum number of entries.
    pub fn capacity(&self) -> (capacity: usize)
        ensures
            capacity == self.spec_capacity(),
    {
        self.capacity
    }

    /// Returns the number of occupied entries.
    pub fn len(&self) -> (len: usize)
        ensures
            len == self.spec_len(),
    {
        self.len
    }

    /// Returns whether no entry is occupied.
    pub fn is_empty(&self) -> (empty: bool)
        ensures
            empty == (self.spec_len() == 0),
    {
        self.len == 0
    }

    /// Returns the number of buckets.
    pub fn buckets(&self) -> (count: usize)
        ensures
            count == self.bucket_count(),
    {
        self.buckets.len()
    }

    /// Removes every entry, keeping the buckets.
    pub fn clear(&mut self)
        requires
            old(self).wf(),
        ensures
            final(self).wf(),
            final(self).spec_len() == 0,
            final(self).bucket_count() == old(self).bucket_count(),
            final(self).spec_capacity() == old(self).spec_capacity(),
            final(self).spec_memory_size() == old(self).spec_memory_size(),
            forall|hash_key: HashKey| #[trigger] final(self).spec_get_hashed(hash_key) is None,
    {
        let n = self.buckets.len();
        let mut i: usize = 0;
        while i < n
            invariant
                n == self.buckets@.len(),
                n == old(self).buckets@.len(),
                self.memory_size == old(self).memory_size,
                self.capacity == old(self).capacity,
                i <= n,
                forall|j: int| 0 <= j < n ==> (#[trigger] self.buckets@[j]).wf(),
                forall|j: int| 0 <= j < i ==> (#[trigger] self.buckets@[j]).count() == 0 && forall|tag: u32| #[trigger] self.buckets@[j].spec_get(tag) is None,
            decreases n - i,
        {
            self.buckets[i].clear();
            i = i + 1;
        }
        self.len = 0;
        proof {
            lemma_total_empty(self.buckets@);
        }
        assert forall|hash_key: HashKey| #[trigger] self.spec_get_hashed(hash_key) is None by {
            if self.bucket_count() > 0 {
                let b = self.bucket_of(hash_key.index);
                assert(self.buckets@[b].spec_get(hash_key.tag) is None);
            }
        }
    }

    /// Empties the map; a different memory size also re-sizes it.
    pub fn resize(&mut self, memory_size: usize)
        requires
            old(self).wf(),
        ensures
            final(self).wf(),
            final(self).spec_len() == 0,
            final(self).spec_memory_size() == memory_size,
            final(self).bucket_count() == bucket_count_for::<V>(memory_size as nat),
            final(self).spec_capacity() == capacity_for::<V>(memory_size as nat),
            forall|hash_key: HashKey| #[trigger] final(self).spec_get_hashed(hash_key) is None,
    {
        if self.memory_size == memory_size {
            self.clear();
            return ;
        }
        *self = Self::new(memory_size);
    }

    /// Returns the share of the capacity in use, scaled to `base`.
    pub fn usage(&self, base: u16) -> (usage: u16)
        requires
            self.wf(),
            self.spec_len() * base <= usize::MAX,
        ensures
            usage == if self.bucket_count() == 0 || self.spec_capacity() == 0 {
                0
            } else {
                (self.spec_len() * base) as int / self.spec_capacity() as int
            },
            usage <= base,
    {
        if !self.is_enabled() || self.capacity == 0 {
            return 0;
        }
        proof {
            self.lemma_wf_len();
            let l = self.len as int;
            let c = self.capacity as int;
            let b = base as int;
            assert(l * b / c <= b) by (nonlinear_arith)
                requires
                    0 <= l <= c,
                    0 < c,
                    0 <= b,
            {
                assert(l * b <= c * b);
                vstd::arithmetic::div_mod::lemma_div_is_ordered(l * b, c * b, c);
                vstd::arithmetic::div_mod::lemma_div_by_multiple(b, c);
            }
        }
        (self.len * base as usize / self.capacity) as u16
    }
}

} // verus!
