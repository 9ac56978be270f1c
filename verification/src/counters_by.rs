//! Counters that step up or down by a given amount.
use vstd::prelude::*;

verus! {

pub type SignedCounter = isize;

pub type UnsignedCounter = usize;

pub struct SignedCounterOps {
    counter: SignedCounter,
}

pub struct UnsignedCounterOps {
    counter: UnsignedCounter,
}

pub trait CounterOps<T>: Sized {
    /// Whether stepping up by `amount` stays within the counter's type.
    spec fn can_step_up(&self, amount: T) -> bool;

    /// Whether stepping down by `amount` stays within the counter's type.
    spec fn can_step_down(&self, amount: T) -> bool;

    fn default() -> Self;

    fn next(&mut self, increment: T) -> T
        requires
            old(self).can_step_up(increment),
    ;

    fn prev(&mut self, decrement: T) -> T
        requires
            old(self).can_step_down(decrement),
    ;
}

impl SignedCounterOps {
    pub closed spec fn count(&self) -> int {
        self.counter as int
    }

    /// The current count.
    pub fn counter(&self) -> (c: SignedCounter)
        ensures
            c == self.count(),
    {
        self.counter
    }
}

impl CounterOps<SignedCounter> for SignedCounterOps {
    open spec fn can_step_up(&self, amount: SignedCounter) -> bool {
        isize::MIN <= self.count() + amount <= isize::MAX
    }

    open spec fn can_step_down(&self, amount: SignedCounter) -> bool {
        isize::MIN <= self.count() - amount <= isize::MAX
    }

    /// A counter at zero.
    fn default() -> (c: SignedCounterOps)
        ensures
            c.count() == 0,
    {
        SignedCounterOps { counter: 0 }
    }

    /// Adds `increment` and returns the new count.
    fn next(&mut self, increment: SignedCounter) -> (c: SignedCounter)
        ensures
            final(self).count() == old(self).count() + increment,
            c == final(self).count(),
    {
        self.counter = self.counter + increment;
        self.counter
    }

    /// Subtracts `decrement` and returns the new count.
    fn prev(&mut self, decrement: SignedCounter) -> (c: SignedCounter)
        ensures
            final(self).count() == old(self).count() - decrement,
            c == final(self).count(),
    {
        self.counter = self.counter - decrement;
        self.counter
    }
}

impl UnsignedCounterOps {
    pub closed spec fn count(&self) -> nat {
        self.counter as nat
    }

    /// The current count.
    pub fn counter(&self) -> (c: UnsignedCounter)
        ensures
            c == self.count(),
    {
        self.counter
    }
}

impl CounterOps<UnsignedCounter> for UnsignedCounterOps {
    open spec fn can_step_up(&self, amount: UnsignedCounter) -> bool {
        self.count() + amount <= usize::MAX
    }

    open spec fn can_step_down(&self, amount: UnsignedCounter) -> bool {
        true
    }

    /// A counter at zero.
    fn default() -> (c: UnsignedCounterOps)
        ensures
            c.count() == 0,
    {
        UnsignedCounterOps { counter: 0 }
    }

    /// Adds `increment` and returns the new count.
    fn next(&mut self, increment: UnsignedCounter) -> (c: UnsignedCounter)
        ensures
            final(self).count() == old(self).count() + increment,
            c == final(self).count(),
    {
        self.counter = self.counter + increment;
        self.counter
    }

    /// Subtracts `decrement`, stopping at zero, and returns the new count.
    fn prev(&mut self, decrement: UnsignedCounter) -> (c: UnsignedCounter)
        ensures
            old(self).count() >= decrement ==> final(self).count() == old(self).count()
                - decrement,
            old(self).count() < decrement ==> final(self).count() == 0,
            c == final(self).count(),
    {
        self.counter = self.counter.saturating_sub(decrement);
        self.counter
    }
}

} // verus!
