use vstd::prelude::*;

verus! {

/// The Fibonacci numbers: 0, 1, 1, 2, 3, 5, ...
pub open spec fn fib(n: nat) -> nat
    decreases n,
{
    if n == 0 {
        0
    } else if n == 1 {
        1
    } else {
        fib((n - 2) as nat) + fib((n - 1) as nat)
    }
}

/// The Fibonacci number before the `n`-th, taking 1 before `fib(0)`.
pub open spec fn fib_before(n: nat) -> nat {
    if n == 0 { 1 } else { fib((n - 1) as nat) }
}

/// Each Fibonacci number is the sum of the two before it, starting from 0
/// and 1.
pub proof fn lemma_fib_recurrence(n: nat)
    ensures
        fib(0) == 0,
        fib(1) == 1,
        fib(n + 2) == fib(n + 1) + fib(n),
{
}

/// The Fibonacci numbers grow.
pub proof fn lemma_fib_monotonic(i: nat, j: nat)
    requires
        i <= j,
    ensures
        fib(i) <= fib(j),
    decreases j - i,
{
    if j < 2 {
    } else if i == j {
    } else if i == j - 1 {
    } else {
        lemma_fib_monotonic(i, (j - 1) as nat);
        lemma_fib_monotonic(i, (j - 2) as nat);
    }
}

/// A computation of the `count`-th Fibonacci number that takes one step
/// per poll.
pub struct FibonacciFuture {
    predecessor: usize,
    successor: usize,
    index: usize,
    count: usize,
}

impl FibonacciFuture {
    #[verifier::type_invariant]
    spec fn wf(self) -> bool {
        &&& self.index <= self.count
        &&& self.predecessor == fib(self.index as nat)
        &&& self.successor == fib_before(self.index as nat)
    }

    /// How many steps have been taken.
    pub closed spec fn spec_index(&self) -> nat {
        self.index as nat
    }

    /// Which Fibonacci number is computed.
    pub closed spec fn spec_count(&self) -> nat {
        self.count as nat
    }

    /// The computation of the `count`-th Fibonacci number, not started.
    pub fn new(count: usize) -> (f: Self)
        ensures
            f.spec_index() == 0,
            f.spec_count() == count,
    {
        FibonacciFuture { predecessor: 0, successor: 1, index: 0, count }
    }

    /// Whether the next poll can take its step without overflow.
    pub fn next_fits(&self) -> (r: bool)
        ensures
            r == (self.spec_index() < self.spec_count() ==> fib(self.spec_index() + 1) <= usize::MAX),
    {
        proof {
            use_type_invariant(self);
        }
        if self.index == self.count {
            return true;
        }
        proof {
            assert(fib(self.index as nat + 1) == fib(self.index as nat) + fib_before(self.index as nat));
        }
        self.predecessor.checked_add(self.successor).is_some()
    }

    /// One poll: once `count` steps are taken, the result, `fib(count)`;
    /// before that, one more step and `None` (pending; the caller wakes the
    /// task again). The step must not overflow.
    pub fn poll(&mut self) -> (r: Option<usize>)
        requires
            old(self).spec_index() < old(self).spec_count() ==> fib(old(self).spec_index() + 1) <= usize::MAX,
        ensures
            final(self).spec_count() == old(self).spec_count(),
            old(self).spec_index() == old(self).spec_count() ==> r == Some(fib(old(self).spec_count()) as usize)
                && final(self).spec_index() == old(self).spec_index(),
            old(self).spec_index() < old(self).spec_count() ==> r is None
                && final(self).spec_index() == old(self).spec_index() + 1,
    {
        proof {
            use_type_invariant(&*self);
        }
        if self.index == self.count {
            Some(self.predecessor)
        } else {
            proof {
                assert(fib(self.index as nat + 1) == fib(self.index as nat) + fib_before(self.index as nat));
            }
            let tmp = self.predecessor;
            let next = self.predecessor + self.successor;
            proof {
                assert(fib_before(self.index as nat + 1) == fib(self.index as nat));
            }
            *self = FibonacciFuture { predecessor: next, successor: tmp, index: self.index + 1, count: self.count };
            None
        }
    }
}

/// Polling a `FibonacciFuture::new(count)` to the end gives `fib(count)`,
/// and no step overflows when `fib(count)` fits: every poll before the
/// last needs `fib(index + 1) <= fib(count)`.
pub proof fn lemma_poll_fits(index: nat, count: nat)
    requires
        index < count,
        fib(count) <= usize::MAX,
    ensures
        fib(index + 1) <= usize::MAX,
{
    lemma_fib_monotonic(index + 1, count);
}

} // verus!
