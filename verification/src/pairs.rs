//! Pairs of `i32` added component-wise or all together.
use vstd::prelude::*;

verus! {

pub type Pair = (i32, i32);

/// Whether the component-wise sum fits in `i32`.
pub open spec fn vector_sum_fits(a: Pair, b: Pair) -> bool {
    &&& i32::MIN <= a.0 + b.0 <= i32::MAX
    &&& i32::MIN <= a.1 + b.1 <= i32::MAX
}

/// Whether every running sum of `a.0 + a.1 + b.0 + b.1`, left to right,
/// fits in `i32`.
pub open spec fn scalar_sum_fits(a: Pair, b: Pair) -> bool {
    &&& i32::MIN <= a.0 + a.1 <= i32::MAX
    &&& i32::MIN <= a.0 + a.1 + b.0 <= i32::MAX
    &&& i32::MIN <= a.0 + a.1 + b.0 + b.1 <= i32::MAX
}

/// The pair `(0, 0)`.
pub fn default_pair() -> (p: Pair)
    ensures
        p == (0i32, 0i32),
{
    (0, 0)
}

/// The component-wise sum.
pub fn pair_vector_sum(a: Pair, b: Pair) -> (c: Pair)
    requires
        vector_sum_fits(a, b),
    ensures
        c.0 == a.0 + b.0,
        c.1 == a.1 + b.1,
{
    (a.0 + b.0, a.1 + b.1)
}

/// The sum of all four numbers.
pub fn pair_scalar_sum(a: Pair, b: Pair) -> (s: i32)
    requires
        scalar_sum_fits(a, b),
    ensures
        s == a.0 + a.1 + b.0 + b.1,
{
    a.0 + a.1 + b.0 + b.1
}

/// The same operations as methods of a pair.
pub trait PairOps: Sized {
    /// Whether adding `b` into `self` stays within `i32`.
    spec fn can_add(&self, b: Pair) -> bool;

    /// Whether summing all numbers of `self` and `b` stays within `i32`.
    spec fn can_sum_all(&self, b: Pair) -> bool;

    fn default_pair() -> Self;

    fn pair_vector_sum(&mut self, b: Pair) -> &Pair
        requires
            old(self).can_add(b),
    ;

    fn pair_scalar_sum(self, b: Pair) -> i32
        requires
            self.can_sum_all(b),
    ;
}

impl PairOps for Pair {
    open spec fn can_add(&self, b: Pair) -> bool {
        vector_sum_fits(*self, b)
    }

    open spec fn can_sum_all(&self, b: Pair) -> bool {
        scalar_sum_fits(*self, b)
    }

    /// The pair `(0, 0)`.
    fn default_pair() -> (p: Pair)
        ensures
            p == (0i32, 0i32),
    {
        (0, 0)
    }

    /// Adds `b` into `self` and hands back the updated pair.
    fn pair_vector_sum(&mut self, b: Pair) -> (r: &Pair)
        ensures
            final(self).0 == old(self).0 + b.0,
            final(self).1 == old(self).1 + b.1,
            *r == *final(self),
    {
        self.0 = self.0 + b.0;
        self.1 = self.1 + b.1;
        self
    }

    /// The sum of all four numbers.
    fn pair_scalar_sum(self, b: Pair) -> (s: i32)
        ensures
            s == self.0 + self.1 + b.0 + b.1,
    {
        self.0 + self.1 + b.0 + b.1
    }
}

} // verus!
