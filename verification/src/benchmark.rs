//! The function that the benchmark times.
use vstd::prelude::*;

verus! {

/// The Fibonacci numbers: 0, 1, 1, 2, 3, 5, ...
pub open spec fn fib_spec(n: nat) -> nat
    decreases n,
{
    if n < 2 {
        n
    } else {
        fib_spec((n - 2) as nat) + fib_spec((n - 1) as nat)
    }
}

/// The `n`-th Fibonacci number, computed by the naive double recursion.
pub fn fib(n: usize) -> (r: usize)
    requires
        fib_spec(n as nat) <= usize::MAX,
    ensures
        r == fib_spec(n as nat),
    decreases n,
{
    if n < 2 {
        return n;
    }
    fib(n - 2) + fib(n - 1)
}

} // verus!
