//! Micro-benchmark harness library: naive and optimized forms of two toy
//! numeric functions, and a dual-frame scratch buffer for feeding bit
//! patterns to an externally supplied jet computation.

pub mod frame;
pub mod rng;

use vstd::prelude::*;

verus! {

/// The Fibonacci-style sequence both benchmark implementations compute:
/// `fib(0) == fib(1) == 1`, and each later value is the sum of the two before it.
pub open spec fn fib(n: nat) -> nat
    decreases n,
{
    if n == 0 {
        1
    } else if n == 1 {
        1
    } else {
        fib((n - 1) as nat) + fib((n - 2) as nat)
    }
}

/// The sequence never decreases, so a bound on `fib(j)` bounds every earlier value.
pub proof fn lemma_fib_monotone(i: nat, j: nat)
    requires
        i <= j,
    ensures
        fib(i) <= fib(j),
    decreases j,
{
    if i < j {
        lemma_fib_monotone(i, (j - 1) as nat);
    }
}

/// Naive doubly-recursive Fibonacci.
pub fn bad_fibonacci(n: u64) -> (r: u64)
    requires
        fib(n as nat) <= u64::MAX,
    ensures
        r == fib(n as nat),
    decreases n,
{
    if n == 0 || n == 1 {
        1
    } else {
        proof {
            lemma_fib_monotone((n - 1) as nat, n as nat);
            lemma_fib_monotone((n - 2) as nat, n as nat);
        }
        bad_fibonacci(n - 1) + bad_fibonacci(n - 2)
    }
}

/// Linear-time Fibonacci over a running pair.
pub fn better_fibonacci(n: u64) -> (r: u64)
    requires
        fib(n as nat) <= u64::MAX,
    ensures
        r == fib(n as nat),
{
    let mut a: u64 = 0;
    let mut b: u64 = 1;

    match n {
        0 => b,
        _ => {
            for i in 0..n
                invariant
                    b == fib(i as nat),
                    a + b == fib((i + 1) as nat),
                    fib(n as nat) <= u64::MAX,
            {
                proof {
                    lemma_fib_monotone((i + 1) as nat, n as nat);
                }
                let c = a + b;
                a = b;
                b = c;
            }
            b
        },
    }
}

/// Naive addition by repeated increment.
pub fn bad_add(a: u64, b: u64) -> (r: u64)
    requires
        a + b <= u64::MAX,
    ensures
        r == a + b,
    decreases a,
{
    match a {
        0 => b,
        _ => bad_add(a - 1, b) + 1,
    }
}

/// Machine addition.
pub fn better_add(a: u64, b: u64) -> (r: u64)
    requires
        a + b <= u64::MAX,
    ensures
        r == a + b,
{
    a + b
}

} // verus!
