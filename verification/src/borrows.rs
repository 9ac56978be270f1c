//! Functions and a struct that hand out borrowed numbers.
use vstd::prelude::*;

verus! {

/// The `n`-th element of `data`.
pub fn nth_item<'a>(data: &'a [usize], n: &usize) -> (r: &'a usize)
    requires
        *n < data@.len(),
    ensures
        *r == data@[*n as int],
{
    &data[*n]
}

/// Adds the first element of `data` to `n` and hands `n` back.
pub fn increased_by_first_item<'a>(data: &[usize], n: &'a mut usize) -> (r: &'a mut usize)
    requires
        data@.len() > 0,
        *old(n) + data@[0] <= usize::MAX,
    ensures
        *r == *old(n) + data@[0],
        *final(n) == *final(r),
{
    *n = *n + data[0];
    n
}

/// Two borrowed numbers.
pub struct TwoValues<'a> {
    first: &'a usize,
    second: &'a usize,
}

impl<'a> TwoValues<'a> {
    pub closed spec fn first_value(&self) -> usize {
        *self.first
    }

    pub closed spec fn second_value(&self) -> usize {
        *self.second
    }

    pub fn new(first: &'a usize, second: &'a usize) -> (v: Self)
        ensures
            v.first_value() == *first,
            v.second_value() == *second,
    {
        Self { first, second }
    }

    pub fn get_first(&self) -> (r: &usize)
        ensures
            *r == self.first_value(),
    {
        self.first
    }

    pub fn get_second(&self) -> (r: &'a usize)
        ensures
            *r == self.second_value(),
    {
        self.second
    }
}

} // verus!
