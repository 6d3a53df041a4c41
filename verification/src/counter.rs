//! The sequence counter: a source of strictly increasing integers.
//!
//! One counter per process hands out enemy identifiers and the stamps of
//! outgoing datagrams.  It starts at zero and is never reset while the
//! process lives.

use vstd::prelude::*;

verus! {

/// Monotonic integer state.  `count` is the value most recently handed out,
/// or zero when none has been.
#[derive(Debug)]
pub struct Counter {
    pub count: i32,
}

impl Counter {
    /// Whether `next` can still be called: the counter has no wraparound.
    pub open spec fn has_next(self) -> bool {
        self.count < i32::MAX
    }

    /// What one call of `next` does: the counter afterwards, and the value
    /// returned.
    pub open spec fn spec_next(self) -> (Counter, i32) {
        (Counter { count: (self.count + 1) as i32 }, (self.count + 1) as i32)
    }

    /// The counter after `k` calls of `next`.
    pub open spec fn after(self, k: nat) -> Counter
        decreases k,
    {
        if k == 0 {
            self
        } else {
            self.after((k - 1) as nat).spec_next().0
        }
    }

    /// The value that call number `k` of `next` returns, counting from zero.
    pub open spec fn nth(self, k: nat) -> i32 {
        self.after(k).spec_next().1
    }

    /// A counter that has handed out nothing.
    pub fn init() -> (c: Counter)
        ensures
            c.count == 0,
    {
        Counter { count: 0 }
    }

    /// Advances the counter by one and returns the new value.
    pub fn next(&mut self) -> (n: i32)
        requires
            old(self).has_next(),
        ensures
            (*final(self), n) == old(self).spec_next(),
            n == old(self).count + 1,
            final(self).count == n,
    {
        self.count += 1;
        self.count
    }

    /// After `k` calls the count has grown by exactly `k`, as long as the
    /// counter is not exhausted on the way.
    pub proof fn lemma_after(self, k: nat)
        requires
            self.count + k <= i32::MAX,
        ensures
            self.after(k).count == self.count + k,
        decreases k,
    {
        if k > 0 {
            self.lemma_after((k - 1) as nat);
        }
    }

    /// Every value handed out is strictly greater than every value handed out
    /// before it.
    pub proof fn lemma_next_strictly_increasing(self, i: nat, j: nat)
        requires
            i < j,
            self.count + j < i32::MAX,
        ensures
            self.nth(i) < self.nth(j),
            self.nth(j) == self.count + j + 1,
    {
        self.lemma_after(i);
        self.lemma_after(j);
    }
}

} // verus!
