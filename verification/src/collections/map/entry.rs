use vstd::prelude::*;

verus! {

/// A key tag together with the value stored under it.
#[derive(Clone, Copy)]
pub struct Entry<T: Copy> {
    key: u32,
    data: T,
}

impl<T: Copy> View for Entry<T> {
    type V = (u32, T);

    closed spec fn view(&self) -> (u32, T) {
        (self.key, self.data)
    }
}

impl<T: Copy> Entry<T> {
    /// Creates an entry holding `data` under `key`.
    pub fn new(key: u32, data: T) -> (entry: Self)
        ensures
            entry@ == (key, data),
    {
        Entry { key, data }
    }

    /// Returns the key tag.
    pub fn key(&self) -> (key: u32)
        ensures
            key == self@.0,
    {
        self.key
    }

    /// Returns the stored value.
    pub fn data(&self) -> (data: &T)
        ensures
            *data == self@.1,
    {
        &self.data
    }

    /// Replaces both the key tag and the value.
    pub fn set(&mut self, key: u32, data: T)
        ensures
            final(self)@ == (key, data),
    {
        self.key = key;
        self.data = data;
    }
}

} // verus!
