use vstd::prelude::*;
use vstd::std_specs::iter::IteratorSpec;

verus! {

/// Copyable describes items that can derive their contents from another
/// item of the same type, separately from the language-level `Copy`.
pub trait Copyable: Default + Copy + Clone {
    /// What this item holds after `copy_from(other)`: by default an exact
    /// copy of `other`; a type with its own way of copying states it here.
    open spec fn copied(self, other: Self) -> Self {
        other
    }

    /// Copies the contents of `other` into this item.
    fn copy_from(&mut self, other: &Self)
        ensures
            *final(self) == old(self).copied(*other),
    ;
}

/// A fixed-capacity stack of copyable items whose storage is initialised
/// with default values up front.
///
/// The active items are the first `size()` slots of the storage.
pub struct Stack<T: Copyable, const N: usize> {
    current: usize,
    items: Vec<T>,
}

impl<T: Copyable, const N: usize> View for Stack<T, N> {
    type V = Seq<T>;

    /// The active items, bottom first.
    closed spec fn view(&self) -> Seq<T> {
        self.items@.subrange(0, self.current as int)
    }
}

impl<T: Copyable, const N: usize> Stack<T, N> {
    /// The storage always holds exactly `N` slots and the number of active
    /// items never exceeds it.
    pub closed spec fn wf(&self) -> bool {
        &&& self.items@.len() == N
        &&& self.current <= N
    }

    /// The item in storage slot `i`, active or not.
    pub closed spec fn slot(&self, i: int) -> T {
        self.items@[i]
    }

    /// The number of active items.
    pub closed spec fn spec_size(&self) -> nat {
        self.current as nat
    }

    /// The active items number `size()`, at most the capacity.
    pub proof fn lemma_view_len(&self)
        requires
            self.wf(),
        ensures
            self@.len() == self.spec_size(),
            self.spec_size() <= N,
    {
    }

    /// Creates an empty stack with every slot holding `T::default()`.
    pub fn new() -> (stack: Self)
        ensures
            stack.wf(),
            stack@ == Seq::<T>::empty(),
            stack.spec_size() == 0,
    {
        let mut items: Vec<T> = Vec::new();
        let mut i: usize = 0;
        while i < N
            invariant
                i <= N,
                items@.len() == i,
            decreases N - i,
        {
            items.push(T::default());
            i = i + 1;
        }
        Stack { current: 0, items }
    }

    /// Pushes `item` on top of the stack.
    pub fn push(&mut self, item: T)
        requires
            old(self).wf(),
            old(self).spec_size() < N,
        ensures
            final(self).wf(),
            final(self)@ == old(self)@.push(item),
            final(self).spec_size() == old(self).spec_size() + 1,
    {
        self.items.set(self.current, item);
        self.current = self.current + 1;
        assert(self@ =~= old(self)@.push(item));
    }

    /// Pushes a new item derived with `copy_from` from the current top item
    /// and returns a mutable reference to it.
    ///
    /// The new item is the slot above the top after `copy_from` ran on it;
    /// every item below it is unchanged.
    pub fn push_next(&mut self) -> (next: &mut T)
        requires
            old(self).wf(),
            0 < old(self).spec_size() < N,
        ensures
            final(self).wf(),
            final(self).spec_size() == old(self).spec_size() + 1,
            final(self)@.subrange(0, old(self)@.len() as int) == old(self)@,
            final(self)@.last() == *final(next),
            *next == old(self).slot(old(self).spec_size() as int).copied(old(self)@.last()),
    {
        let src_item = self.items[self.current - 1];
        let dst_idx = self.current;
        self.current = self.current + 1;
        let slot = &mut self.items[dst_idx];
        slot.copy_from(&src_item);
        slot
    }

    /// Removes the top item; an empty stack is left unchanged.
    pub fn pop(&mut self)
        requires
            old(self).wf(),
        ensures
            final(self).wf(),
            old(self).spec_size() == 0 ==> final(self)@ == old(self)@,
            old(self).spec_size() > 0 ==> final(self)@ == old(self)@.drop_last(),
            final(self).spec_size() == if old(self).spec_size() == 0 {
                0
            } else {
                old(self).spec_size() - 1
            },
    {
        if self.current == 0 {
            return;
        }
        self.current = self.current - 1;
        assert(self@ =~= old(self)@.drop_last());
    }

    /// Returns the top item.
    pub fn top(&self) -> (top: &T)
        requires
            self.wf(),
            self.spec_size() > 0,
        ensures
            *top == self@.last(),
    {
        &self.items[self.current - 1]
    }

    /// Returns a mutable reference to the top item.
    pub fn top_mut(&mut self) -> (top: &mut T)
        requires
            old(self).wf(),
            old(self).spec_size() > 0,
        ensures
            *top == old(self)@.last(),
            final(self).wf(),
            final(self).spec_size() == old(self).spec_size(),
            final(self)@ == old(self)@.update(old(self)@.len() - 1, *final(top)),
    {
        let idx = self.current - 1;
        &mut self.items[idx]
    }

    /// Returns the number of active items.
    pub fn size(&self) -> (size: usize)
        requires
            self.wf(),
        ensures
            size == self.spec_size(),
            size == self@.len(),
    {
        self.current
    }

    /// Returns whether the stack has no active items.
    pub fn is_empty(&self) -> (empty: bool)
        requires
            self.wf(),
        ensures
            empty == (self@.len() == 0),
    {
        self.current == 0
    }

    /// Returns whether every slot is active.
    pub fn is_full(&self) -> (full: bool)
        requires
            self.wf(),
        ensures
            full == (self@.len() == N),
    {
        self.current == N
    }

    /// Removes every item.
    pub fn clear(&mut self)
        requires
            old(self).wf(),
        ensures
            final(self).wf(),
            final(self)@ == Seq::<T>::empty(),
            final(self).spec_size() == 0,
    {
        self.current = 0;
        assert(self@ =~= Seq::<T>::empty());
    }

    /// Returns the active items, bottom first.
    pub fn as_slice(&self) -> (items: &[T])
        requires
            self.wf(),
        ensures
            items@ == self@,
    {
        let (active, _) = self.items.as_slice().split_at(self.current);
        active
    }

    /// Returns the active items, bottom first, for in-place modification.
    pub fn as_mut_slice(&mut self) -> (items: &mut [T])
        requires
            old(self).wf(),
        ensures
            items@ == old(self)@,
            final(self).spec_size() == old(self).spec_size(),
            final(items)@.len() == items@.len() ==> final(self).wf() && final(self)@ == final(items)@,
    {
        let current = self.current;
        let (active, rest) = self.items.as_mut_slice().split_at_mut(current);
        assert(final(rest)@ == rest@);

        active
    }

    /// Returns a double-ended iterator over the active items, bottom first.
    pub fn iter(&self) -> (iter: std::slice::Iter<'_, T>)
        requires
            self.wf(),
        ensures
            iter.remaining() == self@.as_ref(),
    {
        broadcast use vstd::std_specs::slice::axiom_spec_slice_iter;

        self.as_slice().iter()
    }
}

impl<T: Copyable, const N: usize> Default for Stack<T, N> {
    fn default() -> (stack: Self)
        ensures
            stack.wf(),
            stack@ == Seq::<T>::empty(),
    {
        Self::new()
    }
}

/// A pushed item is the top until it is popped, and popping it gives back
/// the stack as it was before the push.
pub proof fn lemma_pop_undoes_push<T>(items: Seq<T>, item: T)
    ensures
        items.push(item).last() == item,
        items.push(item).drop_last() == items,
        items.push(item).len() == items.len() + 1,
{
    assert(items.push(item).drop_last() =~= items);
}

} // verus!
