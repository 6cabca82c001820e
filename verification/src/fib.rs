//! The Fibonacci computation served by the demonstration endpoint.

use vstd::prelude::*;

verus! {

/// The Fibonacci sequence: 0, 1, 1, 2, 3, 5, ...
pub open spec fn fib_spec(n: nat) -> nat
    decreases n,
{
    if n == 0 {
        0
    } else if n == 1 {
        1
    } else {
        fib_spec((n - 1) as nat) + fib_spec((n - 2) as nat)
    }
}

/// The Fibonacci sequence never decreases as its index grows.
pub proof fn lemma_fib_monotone(i: nat, j: nat)
    requires
        i <= j,
    ensures
        fib_spec(i) <= fib_spec(j),
    decreases j - i,
{
    if i < j {
        lemma_fib_monotone(i, (j - 1) as nat);
    }
}

/// Computes the `n`-th Fibonacci number, for indices whose value fits in `u64`.
pub fn fib(n: u64) -> (r: u64)
    requires
        fib_spec(n as nat) <= u64::MAX,
    ensures
        r == fib_spec(n as nat),
    decreases n,
{
    if n <= 1 {
        return n;
    }
    proof {
        lemma_fib_monotone((n - 1) as nat, n as nat);
        lemma_fib_monotone((n - 2) as nat, n as nat);
    }
    let a: u64 = fib(n - 1);
    let b: u64 = fib(n - 2);
    a + b
}

} // verus!
