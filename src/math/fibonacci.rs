//! Fibonacci sequence

use vstd::prelude::*;
use crate::math::integer::Integer;

verus! {

/// The `n`th Fibonacci number: `fib(0) == 0`, `fib(1) == 1`, and each later
/// number is the sum of the two before it.
pub open spec fn fib(n: nat) -> nat
    decreases n,
{
    if n == 0 {
        0
    } else if n == 1 {
        1
    } else {
        fib((n - 2) as nat) + fib((n - 1) as nat)
    }
}

/// An iterative Fibonacci sequence over an integer type `T`.
///
/// Each call of `next` yields the following Fibonacci number, starting from
/// `fib(1)`, for as long as the number after it fits in `T`.
pub struct FibonacciSequence<T> {
    current: T,
    next: T,
    index: Ghost<nat>,
}

impl<T: Integer> FibonacciSequence<T> {
    /// How many numbers the sequence has yielded.
    pub closed spec fn index(&self) -> nat {
        self.index@
    }

    /// The two numbers held are the Fibonacci numbers at `index` and after it.
    pub closed spec fn wf(&self) -> bool {
        &&& self.current.value() == fib(self.index@)
        &&& self.next.value() == fib(self.index@ + 1)
    }

    /// A sequence that has yielded nothing yet.
    pub fn new() -> (r: Self)
        ensures
            r.wf(),
            r.index() == 0,
    {
        FibonacciSequence { current: T::zero(), next: T::one(), index: Ghost(0) }
    }

    /// Yields `fib(index + 1)`, or `None`, leaving the sequence as it is,
    /// where `fib(index + 2)` does not fit in `T`.
    pub fn next(&mut self) -> (r: Option<T>)
        requires
            old(self).wf(),
        ensures
            final(self).wf(),
            fib(old(self).index() + 2) <= T::max_value() ==> {
                &&& r is Some
                &&& r->Some_0.value() == fib(old(self).index() + 1)
                &&& final(self).index() == old(self).index() + 1
            },
            fib(old(self).index() + 2) > T::max_value() ==> r is None && *final(self) == *old(self),
    {
        proof {
            T::lemma_value(self.current, self.next);
            assert(fib(self.index@ + 2) == fib(self.index@) + fib(self.index@ + 1));
        }
        match self.current.add_checked(&self.next) {
            Some(new_next) => {
                proof {
                    T::lemma_value(new_next, new_next);
                }
                self.current = self.next;
                self.next = new_next;
                self.index = Ghost(self.index@ + 1);
                Some(self.current)
            },
            None => None,
        }
    }
}

} // verus!
