use vstd::prelude::*;

verus! {

/// The Fibonacci numbers: 0, 1, 1, 2, 3, 5, ...
pub open spec fn fib(n: nat) -> nat
    decreases n,
{
    if n == 0 {
        0
    } else if n == 1 {
        1
    } else {
        fib((n - 1) as nat) + fib((n - 2) as nat)
    }
}

/// The position that `next` moves a sequence at position `k` to.
pub open spec fn position_after_next(k: nat) -> nat {
    k + 1
}

/// The position that `previous` moves a sequence at position `k` to: one back, but never
/// before the first position.
pub open spec fn position_after_previous(k: nat) -> nat {
    if k > 1 {
        (k - 1) as nat
    } else {
        1
    }
}

/// A Fibonacci sequence that can be walked forward and backward, never below its first
/// value. At position `k` it holds `fib(k)` and `fib(k + 1)`, the latter being its current
/// value.
pub struct FibonacciSequence {
    current: u64,
    previous: u64,
    position: Ghost<nat>,
}

impl FibonacciSequence {
    #[verifier::type_invariant]
    spec fn holds_consecutive_values(self) -> bool {
        &&& self.position@ >= 1
        &&& self.previous == fib(self.position@)
        &&& self.current == fib(self.position@ + 1)
    }

    /// The position of the sequence: its current value is `fib(position + 1)`.
    pub closed spec fn position(self) -> nat {
        self.position@
    }

    /// A sequence at its first position, whose current value is 1.
    pub fn new() -> (s: FibonacciSequence)
        ensures
            s.position() == 1,
    {
        proof {
            reveal_with_fuel(fib, 3);
        }
        FibonacciSequence { current: 1, previous: 1, position: Ghost(1) }
    }

    /// Moves one value forward and returns the new current value.
    pub fn next(&mut self) -> (r: u64)
        requires
            fib(old(self).position() + 2) <= u64::MAX,
        ensures
            final(self).position() == position_after_next(old(self).position()),
            final(self).position() >= 1,
            r == fib(final(self).position() + 1),
            r >= 1,
    {
        proof {
            use_type_invariant(&*self);
            lemma_consecutive_values(self.position@ + 1);
        }
        let new_previous = self.current;
        let k = self.position;
        let new_current = self.current + self.previous;
        *self = FibonacciSequence {
            current: new_current,
            previous: new_previous,
            position: Ghost(k@ + 1),
        };
        self.current
    }

    /// Moves one value back, unless the sequence is at its first position, and returns the
    /// current value.
    pub fn previous(&mut self) -> (r: u64)
        ensures
            final(self).position() == position_after_previous(old(self).position()),
            final(self).position() >= 1,
            r == fib(final(self).position() + 1),
            r >= 1,
    {
        proof {
            use_type_invariant(&*self);
            lemma_fib_at_least_two(self.position@ + 1);
            lemma_consecutive_values(self.position@);
            if self.position@ > 1 {
                lemma_consecutive_values((self.position@ - 1) as nat);
            }
        }
        if self.current > 1 {
            let k = self.position;
            let new_previous = self.current - self.previous;
            let new_current = self.previous;
            *self = FibonacciSequence {
                current: new_current,
                previous: new_previous,
                position: Ghost((k@ - 1) as nat),
            };
        }
        self.current
    }

    /// The current value.
    pub fn current(&self) -> (r: u64)
        ensures
            self.position() >= 1,
            r == fib(self.position() + 1),
            r >= 1,
    {
        proof {
            use_type_invariant(self);
            lemma_consecutive_values(self.position@);
        }
        self.current
    }
}

/// From the third on, the Fibonacci numbers are at least 2; before it they are at most 1.
pub proof fn lemma_fib_at_least_two(n: nat)
    ensures
        n >= 3 ==> fib(n) >= 2,
        n < 3 ==> fib(n) <= 1,
    decreases n,
{
    reveal_with_fuel(fib, 4);
    if n >= 4 {
        lemma_fib_at_least_two((n - 1) as nat);
        lemma_fib_at_least_two((n - 2) as nat);
    }
}

/// The Fibonacci numbers never decrease.
pub proof fn lemma_fib_monotonic(i: nat, j: nat)
    requires
        i <= j,
    ensures
        fib(i) <= fib(j),
    decreases j - i,
{
    if i < j {
        lemma_fib_monotonic(i, (j - 1) as nat);
        if j >= 2 {
            assert(fib(j) == fib((j - 1) as nat) + fib((j - 2) as nat));
        }
    }
}

/// `previous` undoes `next`: moving forward and then back returns to the same position.
pub proof fn lemma_previous_undoes_next(k: nat)
    requires
        k >= 1,
    ensures
        position_after_previous(position_after_next(k)) == k,
{
}

/// `next` never shortens the current value and `previous` never lengthens it: forward is
/// slower, back is faster.
pub proof fn lemma_next_grows_previous_shrinks(k: nat)
    requires
        k >= 1,
    ensures
        fib(position_after_next(k) + 1) >= fib(k + 1),
        fib(position_after_previous(k) + 1) <= fib(k + 1),
{
    lemma_fib_monotonic(k + 1, position_after_next(k) + 1);
    lemma_fib_monotonic(position_after_previous(k) + 1, k + 1);
}

/// From the first position on, the sequence holds two Fibonacci numbers that are at least 1,
/// the earlier no greater than the later.
pub proof fn lemma_consecutive_values(k: nat)
    requires
        k >= 1,
    ensures
        1 <= fib(k) <= fib(k + 1),
{
    reveal_with_fuel(fib, 3);
    lemma_fib_monotonic(1, k);
    lemma_fib_monotonic(k, k + 1);
}

} // verus!
