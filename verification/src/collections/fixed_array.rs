use vstd::prelude::*;
use std::collections::VecDeque;
use vstd::std_specs::iter::IteratorSpec;


verus! {

/// The items of `items` whose matching entry in `keep` is `true`, in order.
pub open spec fn filter_by<T>(items: Seq<T>, keep: Seq<bool>) -> Seq<T>
    recommends
        items.len() == keep.len(),
    decreases items.len(),
{
    if items.len() == 0 || keep.len() == 0 {
        Seq::empty()
    } else {
        let rest = filter_by(items.drop_last(), keep.drop_last());
        if keep.last() {
            rest.push(items.last())
        } else {
            rest
        }
    }
}

/// Filtering never yields more items than it was given.
pub proof fn lemma_filter_by_len<T>(items: Seq<T>, keep: Seq<bool>)
    requires
        items.len() == keep.len(),
    ensures
        filter_by(items, keep).len() <= items.len(),
    decreases items.len(),
{
    if items.len() > 0 {
        lemma_filter_by_len(items.drop_last(), keep.drop_last());
    }
}

/// Keeping every item yields the items unchanged.
pub proof fn lemma_filter_by_all<T>(items: Seq<T>, keep: Seq<bool>)
    requires
        items.len() == keep.len(),
        forall|i: int| 0 <= i < keep.len() ==> #[trigger] keep[i],
    ensures
        filter_by(items, keep) == items,
    decreases items.len(),
{
    if items.len() > 0 {
        lemma_filter_by_all(items.drop_last(), keep.drop_last());
        assert(filter_by(items, keep) =~= items);
    }
}

/// Removing the item just inserted at an index gives back that item and
/// the items as they were before the insertion.
pub proof fn lemma_remove_undoes_insert<T>(items: Seq<T>, index: int, item: T)
    requires
        0 <= index <= items.len(),
    ensures
        items.insert(index, item)[index] == item,
        items.insert(index, item).remove(index) == items,
{
    assert(items.insert(index, item).remove(index) =~= items);
}

/// Filtering keeps the kept items in their order: an item that comes before
/// another in the result came before it in the input.
pub proof fn lemma_filter_by_subsequence<T>(items: Seq<T>, keep: Seq<bool>)
    requires
        items.len() == keep.len(),
    ensures
        exists|index: Seq<int>|
            #![trigger index.len()]
            {
                &&& index.len() == filter_by(items, keep).len()
                &&& forall|k: int|
                    0 <= k < index.len() ==> 0 <= #[trigger] index[k] < items.len() && keep[index[k]]
                        && filter_by(items, keep)[k] == items[index[k]]
                &&& forall|a: int, b: int|
                    0 <= a < b < index.len() ==> #[trigger] index[a] < #[trigger] index[b]
            },
    decreases items.len(),
{
    if items.len() == 0 {
        let index = Seq::<int>::empty();
        assert(index.len() == filter_by(items, keep).len());
    } else {
        lemma_filter_by_subsequence(items.drop_last(), keep.drop_last());
        let rest = filter_by(items.drop_last(), keep.drop_last());
        let prev = choose|index: Seq<int>|
            #![trigger index.len()]
            {
                &&& index.len() == rest.len()
                &&& forall|k: int|
                    0 <= k < index.len() ==> 0 <= #[trigger] index[k] < items.drop_last().len()
                        && keep.drop_last()[index[k]] && rest[k] == items.drop_last()[index[k]]
                &&& forall|a: int, b: int|
                    0 <= a < b < index.len() ==> #[trigger] index[a] < #[trigger] index[b]
            };
        if keep.last() {
            let index = prev.push(items.len() - 1);
            assert(index.len() == filter_by(items, keep).len());
            assert forall|k: int| 0 <= k < index.len() implies 0 <= #[trigger] index[k]
                < items.len() && keep[index[k]] && filter_by(items, keep)[k] == items[index[k]] by {
                if k < prev.len() {
                    assert(index[k] == prev[k]);
                }
            }
            assert forall|a: int, b: int| 0 <= a < b < index.len() implies #[trigger] index[a]
                < #[trigger] index[b] by {
                if b < prev.len() {
                    assert(index[a] == prev[a] && index[b] == prev[b]);
                } else {
                    assert(index[a] == prev[a]);
                }
            }
        } else {
            let index = prev;
            assert(index.len() == filter_by(items, keep).len());
            assert forall|k: int| 0 <= k < index.len() implies 0 <= #[trigger] index[k]
                < items.len() && keep[index[k]] && filter_by(items, keep)[k] == items[index[k]] by {
            }
        }
    }
}

/// Retain is implemented by collections that can remove items in place
/// while preserving the order of the items that remain.
pub trait Retain<T> {
    /// Removes every item for which `predicate` returns `false`.
    fn retain(&mut self, predicate: impl Fn(&T) -> bool)
        requires
            forall|item: &T| #[trigger] predicate.requires((item,)),
    ;
}

/// A fixed-capacity vector: it never holds more than `N` items.
#[derive(Clone, Debug, PartialEq, Eq, Hash, PartialOrd, Ord)]
pub struct FixedArray<T, const N: usize> {
    items: Vec<T>,
}

impl<T, const N: usize> View for FixedArray<T, N> {
    type V = Seq<T>;

    /// The items, in order.
    closed spec fn view(&self) -> Seq<T> {
        self.items@
    }
}

impl<T, const N: usize> FixedArray<T, N> {
    /// The array never holds more than its capacity.
    pub open spec fn wf(&self) -> bool {
        self@.len() <= N
    }

    /// Creates an empty array.
    pub fn new() -> (array: Self)
        ensures
            array.wf(),
            array@ == Seq::<T>::empty(),
    {
        FixedArray { items: Vec::new() }
    }

    /// Returns the number of items.
    pub fn len(&self) -> (len: usize)
        ensures
            len == self@.len(),
    {
        self.items.len()
    }

    /// Returns the fixed capacity.
    pub fn capacity(&self) -> (capacity: usize)
        ensures
            capacity == N,
    {
        N
    }

    /// Returns how many more items fit.
    pub fn remaining_capacity(&self) -> (remaining: usize)
        requires
            self.wf(),
        ensures
            remaining == N - self@.len(),
    {
        N - self.items.len()
    }

    /// Returns whether the array holds no items.
    pub fn is_empty(&self) -> (empty: bool)
        ensures
            empty == (self@.len() == 0),
    {
        self.items.len() == 0
    }

    /// Returns whether the array has reached its capacity.
    pub fn is_full(&self) -> (full: bool)
        ensures
            full == (self@.len() == N),
    {
        self.items.len() == N
    }

    /// Appends an item; the array must not be full.
    pub fn push(&mut self, item: T)
        requires
            old(self).wf(),
            old(self)@.len() < N,
        ensures
            final(self).wf(),
            final(self)@ == old(self)@.push(item),
    {
        self.push_unchecked(item)
    }

    /// Appends an item, or hands it back when the array is full.
    pub fn try_push(&mut self, item: T) -> (result: Result<(), T>)
        requires
            old(self).wf(),
        ensures
            final(self).wf(),
            old(self)@.len() < N ==> result is Ok && final(self)@ == old(self)@.push(item),
            old(self)@.len() == N ==> result == Err::<(), T>(item) && final(self)@ == old(self)@,
    {
        if self.is_full() {
            return Err(item);
        }
        self.push_unchecked(item);
        Ok(())
    }

    /// Appends an item; the caller guarantees the array is not full.
    pub fn push_unchecked(&mut self, item: T)
        requires
            old(self).wf(),
            old(self)@.len() < N,
        ensures
            final(self).wf(),
            final(self)@ == old(self)@.push(item),
    {
        self.items.push(item);
    }

    /// Inserts an item at `index`, shifting later items to the right.
    pub fn insert(&mut self, index: usize, item: T)
        requires
            old(self).wf(),
            index <= old(self)@.len(),
            old(self)@.len() < N,
        ensures
            final(self).wf(),
            final(self)@ == old(self)@.insert(index as int, item),
    {
        self.insert_unchecked(index, item)
    }

    /// Inserts an item at `index`; the caller guarantees the index is at
    /// most the length and the array is not full.
    pub fn insert_unchecked(&mut self, index: usize, item: T)
        requires
            old(self).wf(),
            index <= old(self)@.len(),
            old(self)@.len() < N,
        ensures
            final(self).wf(),
            final(self)@ == old(self)@.insert(index as int, item),
    {
        self.items.insert(index, item);
    }

    /// Removes and returns the last item, if any.
    pub fn pop(&mut self) -> (item: Option<T>)
        requires
            old(self).wf(),
        ensures
            final(self).wf(),
            old(self)@.len() == 0 ==> item is None && final(self)@ == old(self)@,
            old(self)@.len() > 0 ==> item == Some(old(self)@.last()) && final(self)@ == old(
                self,
            )@.drop_last(),
    {
        let item = self.items.pop();
        proof {
            if old(self)@.len() > 0 {
                assert(self@ =~= old(self)@.drop_last());
            }
        }
        item
    }

    /// Removes and returns the item at `index`, shifting later items left.
    pub fn remove(&mut self, index: usize) -> (item: T)
        requires
            old(self).wf(),
            index < old(self)@.len(),
        ensures
            final(self).wf(),
            item == old(self)@[index as int],
            final(self)@ == old(self)@.remove(index as int),
    {
        self.remove_unchecked(index)
    }

    /// Removes the item at `index`; the caller guarantees it is in bounds.
    pub fn remove_unchecked(&mut self, index: usize) -> (item: T)
        requires
            old(self).wf(),
            index < old(self)@.len(),
        ensures
            final(self).wf(),
            item == old(self)@[index as int],
            final(self)@ == old(self)@.remove(index as int),
    {
        self.items.remove(index)
    }

    /// Removes the item at `index`, putting the last item in its place.
    pub fn swap_remove(&mut self, index: usize) -> (item: T)
        requires
            old(self).wf(),
            index < old(self)@.len(),
        ensures
            final(self).wf(),
            item == old(self)@[index as int],
            index == old(self)@.len() - 1 ==> final(self)@ == old(self)@.drop_last(),
            index < old(self)@.len() - 1 ==> final(self)@ == old(self)@.drop_last().update(
                index as int,
                old(self)@.last(),
            ),
    {
        let item = self.items.swap_remove(index);
        proof {
            if index == old(self)@.len() - 1 {
                assert(self@ =~= old(self)@.drop_last());
            } else {
                assert(self@ =~= old(self)@.drop_last().update(index as int, old(self)@.last()));
            }
        }
        item
    }

    /// Shortens the array to `new_len` items; a longer `new_len` changes nothing.
    pub fn truncate(&mut self, new_len: usize)
        requires
            old(self).wf(),
        ensures
            final(self).wf(),
            new_len >= old(self)@.len() ==> final(self)@ == old(self)@,
            new_len < old(self)@.len() ==> final(self)@ == old(self)@.subrange(0, new_len as int),
    {
        if new_len >= self.items.len() {
            return ;
        }
        self.items.truncate(new_len);
    }

    /// Removes every item.
    pub fn clear(&mut self)
        requires
            old(self).wf(),
        ensures
            final(self).wf(),
            final(self)@ == Seq::<T>::empty(),
    {
        self.truncate(0);
        assert(self@ =~= Seq::<T>::empty());
    }

    /// Returns the items as a slice.
    pub fn as_slice(&self) -> (items: &[T])
        ensures
            items@ == self@,
    {
        self.items.as_slice()
    }

    /// Returns a double-ended iterator over the items, front to back.
    pub fn iter(&self) -> (iter: std::slice::Iter<'_, T>)
        ensures
            iter.remaining() == self@.as_ref(),
    {
        broadcast use vstd::std_specs::slice::axiom_spec_slice_iter;

        self.items.as_slice().iter()
    }

    /// Returns the items as a mutable slice.
    pub fn as_mut_slice(&mut self) -> (items: &mut [T])
        ensures
            items@ == old(self)@,
            final(self)@ == final(items)@,
    {
        self.items.as_mut_slice()
    }

    /// Returns an iterator that yields the items by value, front to back.
    pub fn into_iter(self) -> (iter: FixedArrayIntoIter<T, N>)
        ensures
            iter@ == self@,
    {
        FixedArrayIntoIter { items: self.items }
    }

    /// Creates an array holding `items` in order.
    pub fn from_vec(items: Vec<T>) -> (array: Self)
        requires
            items@.len() <= N,
        ensures
            array.wf(),
            array@ == items@,
    {
        FixedArray { items }
    }
}

impl<T, const N: usize> Retain<T> for FixedArray<T, N> {
    /// Keeps exactly the items for which `predicate` returns `true`, in their
    /// former order; `predicate` is called once per item, front to back.
    fn retain(&mut self, predicate: impl Fn(&T) -> bool)
        ensures
            old(self).wf() ==> final(self).wf(),
            final(self)@.len() <= old(self)@.len(),
            exists|keep: Seq<bool>|
                keep.len() == old(self)@.len() && (forall|i: int|
                    0 <= i < keep.len() ==> #[trigger] predicate.ensures((&old(self)@[i],), keep[i]))
                    && final(self)@ == filter_by(old(self)@, keep),
    {
        let mut source: Vec<T> = Vec::new();
        std::mem::swap(&mut source, &mut self.items);
        let ghost items_before = source@;
        let total = source.len();
        assert(items_before.len() == total);
        let mut pending: VecDeque<T> = VecDeque::new();
        while source.len() > 0
            invariant
                items_before == source@ + pending@,
            decreases source@.len(),
        {
            let ghost before = source@;
            let item = source.pop().unwrap();
            pending.push_front(item);
            assert(before == source@.push(item));
            assert(source@ + pending@ =~= before + pending@.drop_first());
        }
        assert(pending@ =~= items_before);
        let ghost mut keep: Seq<bool> = Seq::empty();
        let mut kept: Vec<T> = Vec::new();
        let mut processed: usize = 0;
        while pending.len() > 0
            invariant
                items_before.len() == total,
                processed + pending@.len() == items_before.len(),
                pending@ == items_before.subrange(processed as int, items_before.len() as int),
                keep.len() == processed,
                forall|item: &T| #[trigger] predicate.requires((item,)),
                forall|i: int|
                    0 <= i < processed ==> #[trigger] predicate.ensures((&items_before[i],), keep[i]),
                kept@ == filter_by(items_before.subrange(0, processed as int), keep),
            decreases pending@.len(),
        {
            let item = pending.pop_front().unwrap();
            assert(item == items_before[processed as int]);
            let retained = predicate(&item);
            proof {
                let prefix = items_before.subrange(0, processed as int + 1);
                let keep2 = keep.push(retained);
                assert(prefix.drop_last() =~= items_before.subrange(0, processed as int));
                assert(keep2.drop_last() =~= keep);
                keep = keep2;
            }
            if retained {
                kept.push(item);
            }
            processed = processed + 1;
            assert(pending@ =~= items_before.subrange(processed as int, items_before.len() as int));
        }
        assert(items_before.subrange(0, processed as int) =~= items_before);
        proof {
            lemma_filter_by_len(items_before, keep);
        }
        self.items = kept;
    }
}

/// An iterator that yields the items of a `FixedArray` by value.
pub struct FixedArrayIntoIter<T, const N: usize> {
    items: Vec<T>,
}

impl<T, const N: usize> View for FixedArrayIntoIter<T, N> {
    type V = Seq<T>;

    /// The items not yet yielded, front first.
    closed spec fn view(&self) -> Seq<T> {
        self.items@
    }
}

impl<T, const N: usize> FixedArrayIntoIter<T, N> {
    /// Yields the front item, if any.
    pub fn next(&mut self) -> (item: Option<T>)
        ensures
            old(self)@.len() == 0 ==> item is None && final(self)@ == old(self)@,
            old(self)@.len() > 0 ==> item == Some(old(self)@[0]) && final(self)@ == old(
                self,
            )@.drop_first(),
    {
        if self.items.len() == 0 {
            return None;
        }
        let item = self.items.remove(0);
        assert(self@ =~= old(self)@.drop_first());
        Some(item)
    }

    /// Yields the back item, if any.
    pub fn next_back(&mut self) -> (item: Option<T>)
        ensures
            old(self)@.len() == 0 ==> item is None && final(self)@ == old(self)@,
            old(self)@.len() > 0 ==> item == Some(old(self)@.last()) && final(self)@ == old(
                self,
            )@.drop_last(),
    {
        let item = self.items.pop();
        proof {
            if old(self)@.len() > 0 {
                assert(self@ =~= old(self)@.drop_last());
            }
        }
        item
    }

    /// Returns the items not yet yielded, front first.
    pub fn as_slice(&self) -> (items: &[T])
        ensures
            items@ == self@,
    {
        self.items.as_slice()
    }

    /// Returns the items not yet yielded, front first, for in-place
    /// modification.
    pub fn as_mut_slice(&mut self) -> (items: &mut [T])
        ensures
            items@ == old(self)@,
            final(self)@ == final(items)@,
    {
        self.items.as_mut_slice()
    }

    /// Returns the number of items not yet yielded.
    pub fn len(&self) -> (len: usize)
        ensures
            len == self@.len(),
    {
        self.items.len()
    }

    /// Returns the `(lower, upper)` bounds on the remaining items: both exact.
    pub fn size_hint(&self) -> (hint: (usize, Option<usize>))
        ensures
            hint == (self@.len() as usize, Some(self@.len() as usize)),
    {
        let len = self.len();
        (len, Some(len))
    }

    /// Consumes the iterator and returns how many items it had left.
    pub fn count(self) -> (count: usize)
        ensures
            count == self@.len(),
    {
        self.len()
    }
}

} // verus!
