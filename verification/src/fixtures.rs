//! Reference semantics of the sample guest module the test suite uploads:
//! an iterative Fibonacci that answers zero instead of overflowing.

use vstd::prelude::*;

verus! {

/// The Fibonacci numbers.
pub open spec fn fib(n: nat) -> nat
    decreases n,
{
    if n == 0 {
        0
    } else if n == 1 {
        1
    } else {
        fib((n - 1) as nat) + fib((n - 2) as nat)
    }
}

/// Fibonacci is weakly increasing.
proof fn lemma_fib_monotone(a: nat, b: nat)
    requires
        a <= b,
    ensures
        fib(a) <= fib(b),
    decreases b,
{
    if a < b {
        if b >= 2 {
            lemma_fib_monotone(a, (b - 1) as nat);
        } else {
            assert(b == 1 && a == 0);
        }
    }
}

/// Iterative Fibonacci over signed 64-bit integers: an argument below two
/// comes back unchanged, a result that reaches the integer's range comes
/// back as zero.
pub fn calc_fibonacci(n: i64) -> (r: i64)
    ensures
        n <= 1 ==> r == n,
        n > 1 && fib(n as nat) < i64::MAX ==> r == fib(n as nat),
        n > 1 && fib(n as nat) >= i64::MAX ==> r == 0,
{
    if n <= 1 {
        return n;
    }
    let mut a: i64 = 0;
    let mut b: i64 = 1;
    let mut i: i64 = 0;
    while i < n - 1
        invariant
            2 <= n,
            0 <= i <= n - 1,
            a == fib(i as nat),
            b == fib((i + 1) as nat),
            b < i64::MAX,
        decreases n - 1 - i,
    {
        let temp = a;
        a = b;
        if i64::MAX - b <= temp {
            proof {
                lemma_fib_monotone((i + 2) as nat, n as nat);
            }
            return 0;
        }
        b = temp + b;
        i = i + 1;
    }
    b
}

} // verus!
