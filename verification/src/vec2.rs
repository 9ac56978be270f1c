//! Two-component vectors over any number type with `+` and unary `-`.
use vstd::prelude::*;
use std::ops::{Add, Neg};
use vstd::std_specs::ops::{AddSpec, AddSpecImpl, NegSpec, NegSpecImpl};

verus! {

#[derive(Debug, Clone, Copy, PartialEq)]
pub struct Vec2<T> {
    pub x: T,
    pub y: T,
}

impl<T: Add<Output = T>> Add for Vec2<T> {
    type Output = Self;

    /// The component-wise sum.
    fn add(self, other: Self) -> (sum: Self)
        ensures
            T::obeys_add_spec() ==> sum.x == self.x.add_spec(other.x) && sum.y == self.y.add_spec(
                other.y,
            ),
    {
        Self { x: self.x + other.x, y: self.y + other.y }
    }
}

impl<T: Add<Output = T>> AddSpecImpl for Vec2<T> {
    open spec fn obeys_add_spec() -> bool {
        T::obeys_add_spec()
    }

    open spec fn add_req(self, rhs: Self) -> bool {
        self.x.add_req(rhs.x) && self.y.add_req(rhs.y)
    }

    open spec fn add_spec(self, rhs: Self) -> Self {
        Vec2 { x: self.x.add_spec(rhs.x), y: self.y.add_spec(rhs.y) }
    }
}

impl<T: Neg<Output = T>> Neg for Vec2<T> {
    type Output = Self;

    /// Both components negated.
    fn neg(self) -> (n: Self)
        ensures
            T::obeys_neg_spec() ==> n.x == self.x.neg_spec() && n.y == self.y.neg_spec(),
    {
        Self { x: self.x.neg(), y: self.y.neg() }
    }
}

impl<T: Neg<Output = T>> NegSpecImpl for Vec2<T> {
    open spec fn obeys_neg_spec() -> bool {
        T::obeys_neg_spec()
    }

    open spec fn neg_req(self) -> bool {
        self.x.neg_req() && self.y.neg_req()
    }

    open spec fn neg_spec(self) -> Self {
        Vec2 { x: self.x.neg_spec(), y: self.y.neg_spec() }
    }
}

} // verus!
