//! A counter that reports each step of a task of known size.
use vstd::prelude::*;

verus! {

/// Counts steps and calls `callback(current, total)` after each one.
pub struct CounterProgress<T: Fn(usize, usize)> {
    current: usize,
    total: usize,
    callback: T,
}

impl<T: Fn(usize, usize)> CounterProgress<T> {
    pub closed spec fn current(&self) -> nat {
        self.current as nat
    }

    pub closed spec fn total(&self) -> nat {
        self.total as nat
    }

    pub closed spec fn callback(&self) -> T {
        self.callback
    }

    /// A counter at zero for a task of `total` steps.
    pub fn new(total: usize, callback: T) -> (r: Self)
        ensures
            r.current() == 0,
            r.total() == total,
            r.callback() == callback,
    {
        CounterProgress { current: 0, total, callback }
    }

    /// Counts one step and reports the new count.
    pub fn tick(&mut self)
        requires
            old(self).current() < usize::MAX,
            old(self).callback().requires(((old(self).current() + 1) as usize, old(self).total() as usize)),
        ensures
            final(self).current() == old(self).current() + 1,
            final(self).total() == old(self).total(),
            final(self).callback() == old(self).callback(),
            old(self).callback().ensures(((old(self).current() + 1) as usize, old(self).total() as usize), ()),
    {
        self.current = self.current + 1;
        (self.callback)(self.current, self.total);
    }
}

} // verus!
