//! A growing list of borrowed values.
use vstd::prelude::*;

verus! {

pub struct Storage<'a, T> {
    inner: Vec<&'a T>,
}

impl<'a, T> View for Storage<'a, T> {
    type V = Seq<&'a T>;

    closed spec fn view(&self) -> Seq<&'a T> {
        self.inner@
    }
}

impl<'a, T> Storage<'a, T> {
    /// An empty storage.
    pub fn new() -> (s: Self)
        ensures
            s@ == Seq::<&'a T>::empty(),
    {
        Self { inner: Vec::new() }
    }

    /// The value at `index`, if there is one.
    pub fn get(&self, index: usize) -> (r: Option<&'a T>)
        ensures
            index < self@.len() ==> r == Some(self@[index as int]),
            index >= self@.len() ==> r is None,
    {
        if index < self.inner.len() {
            Some(self.inner[index])
        } else {
            None
        }
    }

    /// Adds `value` at the end.
    pub fn push(&mut self, value: &'a T)
        ensures
            final(self)@ == old(self)@.push(value),
    {
        self.inner.push(value);
    }
}

} // verus!
