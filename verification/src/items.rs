//! The three positions of a three-element container.
use vstd::prelude::*;

verus! {

pub enum Item {
    First,
    Second,
    Third,
}

impl Item {
    /// The position counted from 0.
    pub fn index(&self) -> (i: usize)
        ensures
            i == match self {
                Item::First => 0usize,
                Item::Second => 1usize,
                Item::Third => 2usize,
            },
    {
        match self {
            Item::First => 0,
            Item::Second => 1,
            Item::Third => 2,
        }
    }
}

} // verus!
