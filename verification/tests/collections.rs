use std::cell::Cell;
use std::rc::Rc;

use chess_kit::collections::{
    Bucket, BucketMap, Copyable, Entry, FixedArray, HashFn, HashKey, Retain, SetResult, Stack, Value,
};

#[derive(Clone, Debug, PartialEq, Eq)]
struct ArrayItem(u8);

struct DropItem(Rc<Cell<usize>>, u8);

impl Drop for DropItem {
    fn drop(&mut self) {
        self.0.set(self.0.get() + 1);
    }
}

fn assert_hints<I>(iter: I)
where
    I: DoubleEndedIterator + ExactSizeIterator + std::iter::FusedIterator,
{
    assert_eq!(iter.len(), 3);
}

#[test]
fn supports_vector_operations() {
    let mut items = FixedArray::<ArrayItem, 4>::new();

    assert_eq!(items.capacity(), 4);
    assert_eq!(items.remaining_capacity(), 4);
    assert!(items.is_empty());

    items.push(ArrayItem(1));
    assert!(items.try_push(ArrayItem(3)).is_ok());
    items.insert(1, ArrayItem(2));
    items.push(ArrayItem(4));

    assert!(items.is_full());
    assert_eq!(
        items.as_slice(),
        &[ArrayItem(1), ArrayItem(2), ArrayItem(3), ArrayItem(4)]
    );
    assert_eq!(items.remove(1), ArrayItem(2));
    assert_eq!(items.swap_remove(0), ArrayItem(1));
    assert_eq!(items.pop(), Some(ArrayItem(3)));
    assert_eq!(items.as_slice(), &[ArrayItem(4)]);
}

#[test]
fn slice_and_collection_traits_are_available() {
    let mut items: FixedArray<u8, 4> = FixedArray::from_vec(vec![3, 1, 2]);
    items.as_mut_slice().sort_unstable();
    items.as_mut_slice()[1] = 4;

    let clone = items.clone();
    assert_eq!(items.as_slice(), &[1, 4, 3]);
    assert_eq!(clone, items);
    assert_eq!(items.debug_text(), "[1, 4, 3]");
}

#[test]
fn borrowed_iterators_have_slice_iterator_hints() {
    let items: FixedArray<u8, 3> = FixedArray::from_vec(vec![1, 2, 3]);
    assert_hints(items.iter());
    assert_eq!(items.iter().rev().copied().collect::<Vec<_>>(), [3, 2, 1]);
}

#[test]
fn owning_iterator_is_exact_size_double_ended_and_drops_the_remainder() {
    let drops = Rc::new(Cell::new(0));
    let mut items = FixedArray::<DropItem, 3>::new();
    for value in 1..=3 {
        items.push(DropItem(drops.clone(), value));
    }

    let mut iter = items.into_iter();
    assert_eq!(iter.len(), 3);
    assert_eq!(iter.next().unwrap().1, 1);
    assert_eq!(iter.next_back().unwrap().1, 3);
    assert_eq!(iter.as_slice()[0].1, 2);
    assert_eq!(drops.get(), 2);

    drop(iter);
    assert_eq!(drops.get(), 3);
}

#[test]
fn retain_preserves_order_and_uses_the_all_kept_fast_path() {
    let mut items: FixedArray<ArrayItem, 5> = FixedArray::from_vec((0..5).map(ArrayItem).collect());

    items.retain(|_| true);
    assert_eq!(
        items.as_slice(),
        &[
            ArrayItem(0),
            ArrayItem(1),
            ArrayItem(2),
            ArrayItem(3),
            ArrayItem(4)
        ]
    );

    items.retain(|item| item.0 % 2 == 0);
    assert_eq!(items.as_slice(), &[ArrayItem(0), ArrayItem(2), ArrayItem(4)]);
}

#[test]
fn clear_remove_and_drop_drop_each_element_once() {
    let drops = Rc::new(Cell::new(0));
    let mut items = FixedArray::<DropItem, 3>::new();
    for value in 0..3 {
        items.push(DropItem(drops.clone(), value));
    }

    drop(items.remove(1));
    items.clear();
    assert_eq!(drops.get(), 3);
}

#[test]
fn fixed_arrays_compare_by_their_items() {
    let a: FixedArray<u8, 3> = FixedArray::from_vec(vec![1, 2]);
    let b: FixedArray<u8, 3> = FixedArray::from_vec(vec![1, 3]);
    assert!(a < b);
    assert_eq!(a.clone(), a);
}

#[test]
fn fixed_array_insert_then_remove_restores_the_items() {
    let mut items: FixedArray<u8, 4> = FixedArray::from_vec(vec![1, 2, 3]);
    items.insert(1, 9);
    assert_eq!(items.as_slice(), &[1, 9, 2, 3]);
    assert_eq!(items.remove(1), 9);
    assert_eq!(items.as_slice(), &[1, 2, 3]);
}

#[test]
fn fixed_array_try_push_hands_back_the_item_when_full() {
    let mut items: FixedArray<u8, 1> = FixedArray::new();
    assert!(items.try_push(1).is_ok());
    assert_eq!(items.try_push(2), Err(2));
    assert_eq!(items.as_slice(), &[1]);
}

#[test]
fn fixed_array_truncate_and_swap_remove() {
    let mut items: FixedArray<u8, 5> = FixedArray::from_vec(vec![1, 2, 3, 4, 5]);
    assert_eq!(items.swap_remove(1), 2);
    assert_eq!(items.as_slice(), &[1, 5, 3, 4]);
    items.truncate(10);
    assert_eq!(items.len(), 4);
    items.truncate(2);
    assert_eq!(items.as_slice(), &[1, 5]);
    assert_eq!(items.pop(), Some(5));
    assert_eq!(items.pop(), Some(1));
    assert_eq!(items.pop(), None);
}

#[test]
fn fixed_array_owning_iterator_counts_what_is_left() {
    let items: FixedArray<u8, 4> = FixedArray::from_vec(vec![4, 5, 6]);
    let mut iter = items.into_iter();
    assert_eq!(iter.size_hint(), (3, Some(3)));
    assert_eq!(iter.next(), Some(4));
    assert_eq!(iter.count(), 2);
}

#[derive(Clone, Copy, Default, Debug, PartialEq, Eq)]
struct TestValue(i8);

impl Value for TestValue {
    fn priority(&self) -> i8 {
        self.0
    }
}

struct TestHasher;

impl HashFn<u64> for TestHasher {
    fn hash(key: &u64) -> HashKey {
        HashKey {
            index: (*key >> 32) as usize,
            tag: *key as u32,
        }
    }
}

#[test]
fn get_ignores_empty_entries_with_matching_default_key() {
    let bucket = Bucket::<TestValue>::new();

    assert_eq!(bucket.get(0), None);
}

#[test]
fn set_updates_existing_key_before_eviction() {
    let mut bucket = Bucket::<TestValue>::new();

    assert_eq!(bucket.set(1, TestValue(1)), SetResult::Inserted);
    assert_eq!(bucket.set(2, TestValue(2)), SetResult::Inserted);
    assert_eq!(bucket.set(3, TestValue(3)), SetResult::Inserted);
    assert_eq!(bucket.set(1, TestValue(9)), SetResult::Updated);

    assert_eq!(bucket.get(1), Some(&TestValue(9)));
    assert_eq!(bucket.get(2), Some(&TestValue(2)));
    assert_eq!(bucket.get(3), Some(&TestValue(3)));
}

#[test]
fn set_uses_empty_slots_before_comparing_priorities() {
    let mut bucket = Bucket::<TestValue>::new();

    assert_eq!(bucket.set(1, TestValue(9)), SetResult::Inserted);
    assert_eq!(bucket.set(2, TestValue(8)), SetResult::Inserted);

    assert_eq!(bucket.get(1), Some(&TestValue(9)));
    assert_eq!(bucket.get(2), Some(&TestValue(8)));
}

#[test]
fn set_evicts_lowest_priority_when_full() {
    let mut bucket = Bucket::<TestValue>::new();

    bucket.set(1, TestValue(9));
    bucket.set(2, TestValue(1));
    bucket.set(3, TestValue(5));
    assert_eq!(bucket.set(4, TestValue(7)), SetResult::Evicted);

    assert_eq!(bucket.get(1), Some(&TestValue(9)));
    assert_eq!(bucket.get(2), None);
    assert_eq!(bucket.get(3), Some(&TestValue(5)));
    assert_eq!(bucket.get(4), Some(&TestValue(7)));
}

#[test]
fn bucket_clear_forgets_every_entry() {
    let mut bucket = Bucket::<TestValue>::new();
    bucket.set(5, TestValue(3));
    bucket.clear();
    assert_eq!(bucket.get(5), None);
    assert_eq!(Bucket::<TestValue>::capacity(), 3);
    assert_eq!(
        Bucket::<TestValue>::size_of_mem(),
        std::mem::size_of::<Option<Entry<TestValue>>>() * 3
    );
}

#[test]
fn disabled_map_ignores_set_and_get() {
    let mut map = BucketMap::<u64, TestValue, TestHasher>::new(0);

    map.set(&0, TestValue(1));

    assert!(!map.is_enabled());
    assert!(map.is_empty());
    assert_eq!(map.capacity(), 0);
    assert_eq!(map.get(&0), None);
    assert_eq!(map.usage(1000), 0);
}

#[test]
fn get_does_not_return_default_value_for_zero_tag() {
    let map = BucketMap::<u64, TestValue, TestHasher>::new(1);

    assert_eq!(map.get(&0), None);
}

#[test]
fn len_tracks_insert_update_and_eviction() {
    let mut map = BucketMap::<u64, TestValue, TestHasher>::new(1);

    map.set(&1, TestValue(1));
    map.set(&2, TestValue(2));
    map.set(&3, TestValue(3));
    assert_eq!(map.len(), 3);

    map.set(&1, TestValue(9));
    assert_eq!(map.len(), 3);
    assert_eq!(map.get(&1), Some(&TestValue(9)));

    map.set(&4, TestValue(4));
    assert_eq!(map.len(), 3);
}

#[test]
fn map_reads_back_what_was_written_and_clear_empties_it() {
    let mut map = BucketMap::<u64, TestValue, TestHasher>::new(1);
    map.set(&((7u64 << 32) | 11), TestValue(4));
    assert_eq!(map.get(&((7u64 << 32) | 11)), Some(&TestValue(4)));
    assert_eq!(map.len(), 1);
    assert!(map.usage(1000) <= 1000);
    map.clear();
    assert!(map.is_empty());
    assert_eq!(map.get(&((7u64 << 32) | 11)), None);
}

#[test]
fn map_resize_to_zero_disables_it() {
    let mut map = BucketMap::<u64, TestValue, TestHasher>::new(1);
    assert!(map.is_enabled());
    assert!(map.capacity() > 0);
    assert_eq!(map.capacity(), map.buckets() * 3);
    map.set(&1, TestValue(1));
    map.resize(0);
    assert!(!map.is_enabled());
    assert!(map.is_empty());
    assert_eq!(map.get(&1), None);
}

#[derive(Clone, Copy, Default, Debug, PartialEq, Eq)]
struct TestItem(u8);

impl Copyable for TestItem {
    fn copy_from(&mut self, other: &Self) {
        *self = *other;
    }
}

#[test]
fn push_uses_all_capacity() {
    let mut stack = Stack::<TestItem, 3>::new();

    stack.push(TestItem(1));
    stack.push(TestItem(2));
    stack.push(TestItem(3));

    assert!(stack.is_full());
    assert_eq!(stack.size(), 3);
    assert_eq!(stack.top(), &TestItem(3));
    assert_eq!(stack.as_slice(), &[TestItem(1), TestItem(2), TestItem(3)]);
}

#[test]
fn push_next_copies_top_item_to_next_slot() {
    let mut stack = Stack::<TestItem, 3>::new();
    stack.push(TestItem(7));

    let next = stack.push_next();
    next.0 += 1;

    assert_eq!(stack.as_slice(), &[TestItem(7), TestItem(8)]);
}

#[test]
fn pop_updates_top_and_empty_state() {
    let mut stack = Stack::<TestItem, 2>::new();
    stack.push(TestItem(1));
    stack.push(TestItem(2));

    stack.pop();
    assert_eq!(stack.top(), &TestItem(1));

    stack.pop();
    stack.pop();
    assert!(stack.is_empty());
}

#[test]
fn iterator_supports_full_forward_and_reverse_iteration() {
    let mut stack = Stack::<TestItem, 4>::new();
    for value in 1..=4 {
        stack.push(TestItem(value));
    }

    let forward: Vec<_> = stack.iter().copied().collect();
    let reverse: Vec<_> = stack.iter().rev().copied().collect();

    assert_eq!(
        forward,
        vec![TestItem(1), TestItem(2), TestItem(3), TestItem(4)]
    );
    assert_eq!(
        reverse,
        vec![TestItem(4), TestItem(3), TestItem(2), TestItem(1)]
    );
}

#[test]
fn stack_pop_undoes_push_and_clear_empties() {
    let mut stack = Stack::<TestItem, 3>::new();
    stack.push(TestItem(5));
    stack.push(TestItem(6));
    stack.pop();
    assert_eq!(stack.as_slice(), &[TestItem(5)]);
    stack.top_mut().0 = 9;
    assert_eq!(stack.top(), &TestItem(9));
    stack.as_mut_slice()[0] = TestItem(2);
    assert_eq!(stack.as_slice(), &[TestItem(2)]);
    stack.clear();
    assert!(stack.is_empty());
    assert_eq!(stack.size(), 0);
}

#[test]
fn debug_text_lists_items_between_brackets() {
    let empty: FixedArray<u32, 2> = FixedArray::new();
    assert_eq!(empty.debug_text(), "[]");
    let one: FixedArray<u64, 2> = FixedArray::from_vec(vec![1234567890123]);
    assert_eq!(one.debug_text(), "[1234567890123]");
    let two: FixedArray<u16, 2> = FixedArray::from_vec(vec![0, 65535]);
    assert_eq!(two.debug_text(), "[0, 65535]");
}
