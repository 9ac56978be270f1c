//! Counters that step up or down by one.
use vstd::prelude::*;

verus! {

pub type SignedCounter = isize;

pub type UnsignedCounter = usize;

pub struct SignedCounterOps {
    counter: SignedCounter,
}

pub struct UnsignedCounterOps {
    counter: UnsignedCounter,
}

pub trait CounterOps {
    type Output;

    /// Whether stepping up stays within the counter's type.
    spec fn can_step_up(&self) -> bool;

    /// Whether stepping down stays within the counter's type.
    spec fn can_step_down(&self) -> bool;

    fn next(&mut self) -> Self::Output
        requires
            old(self).can_step_up(),
    ;

    fn prev(&mut self) -> Self::Output
        requires
            old(self).can_step_down(),
    ;
}

impl SignedCounterOps {
    pub closed spec fn count(&self) -> int {
        self.counter as int
    }

    /// The current count.
    pub fn counter(&self) -> (c: SignedCounter)
        ensures
            c == self.count(),
    {
        self.counter
    }
}

impl Default for SignedCounterOps {
    /// A counter at zero.
    fn default() -> (c: Self)
        ensures
            c.count() == 0,
    {
        SignedCounterOps { counter: 0 }
    }
}

impl CounterOps for SignedCounterOps {
    type Output = SignedCounter;

    open spec fn can_step_up(&self) -> bool {
        self.count() < isize::MAX
    }

    open spec fn can_step_down(&self) -> bool {
        self.count() > isize::MIN
    }

    /// Counts one up and returns the new count.
    fn next(&mut self) -> (c: SignedCounter)
        ensures
            final(self).count() == old(self).count() + 1,
            c == final(self).count(),
    {
        self.counter = self.counter + 1;
        self.counter
    }

    /// Counts one down and returns the new count.
    fn prev(&mut self) -> (c: SignedCounter)
        ensures
            final(self).count() == old(self).count() - 1,
            c == final(self).count(),
    {
        self.counter = self.counter - 1;
        self.counter
    }
}

impl UnsignedCounterOps {
    pub closed spec fn count(&self) -> nat {
        self.counter as nat
    }

    /// The current count.
    pub fn counter(&self) -> (c: UnsignedCounter)
        ensures
            c == self.count(),
    {
        self.counter
    }
}

impl Default for UnsignedCounterOps {
    /// A counter at zero.
    fn default() -> (c: Self)
        ensures
            c.count() == 0,
    {
        UnsignedCounterOps { counter: 0 }
    }
}

impl CounterOps for UnsignedCounterOps {
    type Output = UnsignedCounter;

    open spec fn can_step_up(&self) -> bool {
        self.count() < usize::MAX
    }

    open spec fn can_step_down(&self) -> bool {
        true
    }

    /// Counts one up and returns the new count.
    fn next(&mut self) -> (c: UnsignedCounter)
        ensures
            final(self).count() == old(self).count() + 1,
            c == final(self).count(),
    {
        self.counter = self.counter + 1;
        self.counter
    }

    /// Counts one down, stopping at zero, and returns the new count.
    fn prev(&mut self) -> (c: UnsignedCounter)
        ensures
            old(self).count() == 0 ==> final(self).count() == 0,
            old(self).count() > 0 ==> final(self).count() == old(self).count() - 1,
            c == final(self).count(),
    {
        self.counter = self.counter.saturating_sub(1);
        self.counter
    }
}

} // verus!
