use vstd::prelude::*;

use super::fixed_array::FixedArray;
use crate::uci::number::{decimal_digits, push_decimal};
use crate::uci::text::string_of;

verus! {

/// An item that writes its own debug text, the text that `{:?}` shows.
pub trait DebugText {
    /// The item's debug text.
    spec fn debug_chars(&self) -> Seq<char>;

    /// Appends the item's debug text to `out`.
    fn push_debug_text(&self, out: &mut Vec<char>)
        ensures
            final(out)@ == old(out)@ + self.debug_chars(),
    ;
}

impl DebugText for u8 {
    open spec fn debug_chars(&self) -> Seq<char> {
        decimal_digits(*self as nat)
    }

    fn push_debug_text(&self, out: &mut Vec<char>) {
        push_decimal(out, *self as u64);
    }
}

impl DebugText for u16 {
    open spec fn debug_chars(&self) -> Seq<char> {
        decimal_digits(*self as nat)
    }

    fn push_debug_text(&self, out: &mut Vec<char>) {
        push_decimal(out, *self as u64);
    }
}

impl DebugText for u32 {
    open spec fn debug_chars(&self) -> Seq<char> {
        decimal_digits(*self as nat)
    }

    fn push_debug_text(&self, out: &mut Vec<char>) {
        push_decimal(out, *self as u64);
    }
}

impl DebugText for u64 {
    open spec fn debug_chars(&self) -> Seq<char> {
        decimal_digits(*self as nat)
    }

    fn push_debug_text(&self, out: &mut Vec<char>) {
        push_decimal(out, *self);
    }
}

/// The parts joined by `", "`.
pub open spec fn comma_joined(parts: Seq<Seq<char>>) -> Seq<char>
    decreases parts.len(),
{
    if parts.len() == 0 {
        Seq::empty()
    } else if parts.len() == 1 {
        parts[0]
    } else {
        comma_joined(parts.drop_last()) + seq![',', ' '] + parts.last()
    }
}

/// The debug text of a list whose items have the texts `parts`: the texts
/// joined by `", "` between square brackets.
pub open spec fn debug_list(parts: Seq<Seq<char>>) -> Seq<char> {
    seq!['['] + comma_joined(parts) + seq![']']
}

/// The debug texts of `items`, in order.
pub open spec fn debug_parts<T: DebugText>(items: Seq<T>) -> Seq<Seq<char>> {
    items.map_values(|item: T| item.debug_chars())
}

impl<T: DebugText, const N: usize> FixedArray<T, N> {
    /// Returns the array's debug text: its items as a list, as a slice shows
    /// them.
    pub fn debug_text(&self) -> (text: String)
        ensures
            text@ == debug_list(debug_parts(self@)),
    {
        let items = self.as_slice();
        let mut out: Vec<char> = Vec::new();
        out.push('[');
        let mut i: usize = 0;
        while i < items.len()
            invariant
                i <= items@.len(),
                items@ == self@,
                out@ == seq!['['] + comma_joined(debug_parts(items@.subrange(0, i as int))),
            decreases items@.len() - i,
        {
            let ghost before = out@;
            let ghost done = debug_parts(items@.subrange(0, i as int));
            let ghost next = debug_parts(items@.subrange(0, i + 1));
            assert(next.drop_last() =~= done);
            assert(next.last() == items@[i as int].debug_chars());
            if i > 0 {
                out.push(',');
                out.push(' ');
            }
            items[i].push_debug_text(&mut out);
            if i == 0 {
                assert(next.len() == 1);
                assert(out@ =~= seq!['['] + comma_joined(next));
            } else {
                assert(out@ =~= before + seq![',', ' '] + next.last());
                assert(out@ =~= seq!['['] + comma_joined(next));
            }
            i = i + 1;
        }
        out.push(']');
        assert(items@.subrange(0, i as int) =~= items@);
        assert(out@ =~= debug_list(debug_parts(self@)));
        string_of(out.as_slice())
    }
}

} // verus!
