//! The function served by the request/reply pattern.

use vstd::prelude::*;

verus! {

/// The Fibonacci numbers: 0, 1, 1, 2, 3, 5, 8, ...
pub open spec fn fib_of(n: nat) -> nat
    decreases n,
{
    if n == 0 {
        0
    } else if n == 1 {
        1
    } else {
        fib_of((n - 1) as nat) + fib_of((n - 2) as nat)
    }
}

/// The largest argument whose Fibonacci number fits in an `i32`.
pub const FIB_MAX_ARG: i32 = 46;

/// A larger argument never gives a smaller Fibonacci number.
pub proof fn lemma_fib_monotonic(i: nat, j: nat)
    requires
        i <= j,
    ensures
        fib_of(i) <= fib_of(j),
    decreases j,
{
    if i < j {
        if j >= 2 {
            if i < j - 1 {
                lemma_fib_monotonic(i, (j - 1) as nat);
            }
        }
    }
}

/// The last Fibonacci number that fits in an `i32`, and the first that does not.
pub proof fn lemma_fib_limits()
    ensures
        fib_of(46) == 1836311903,
        fib_of(47) == 2971215073,
{
    assert(fib_of(0) == 0);
    assert(fib_of(1) == 1);
    assert(fib_of(2) == 1);
    assert(fib_of(3) == 2);
    assert(fib_of(4) == 3);
    assert(fib_of(5) == 5);
    assert(fib_of(6) == 8);
    assert(fib_of(7) == 13);
    assert(fib_of(8) == 21);
    assert(fib_of(9) == 34);
    assert(fib_of(10) == 55);
    assert(fib_of(11) == 89);
    assert(fib_of(12) == 144);
    assert(fib_of(13) == 233);
    assert(fib_of(14) == 377);
    assert(fib_of(15) == 610);
    assert(fib_of(16) == 987);
    assert(fib_of(17) == 1597);
    assert(fib_of(18) == 2584);
    assert(fib_of(19) == 4181);
    assert(fib_of(20) == 6765);
    assert(fib_of(21) == 10946);
    assert(fib_of(22) == 17711);
    assert(fib_of(23) == 28657);
    assert(fib_of(24) == 46368);
    assert(fib_of(25) == 75025);
    assert(fib_of(26) == 121393);
    assert(fib_of(27) == 196418);
    assert(fib_of(28) == 317811);
    assert(fib_of(29) == 514229);
    assert(fib_of(30) == 832040);
    assert(fib_of(31) == 1346269);
    assert(fib_of(32) == 2178309);
    assert(fib_of(33) == 3524578);
    assert(fib_of(34) == 5702887);
    assert(fib_of(35) == 9227465);
    assert(fib_of(36) == 14930352);
    assert(fib_of(37) == 24157817);
    assert(fib_of(38) == 39088169);
    assert(fib_of(39) == 63245986);
    assert(fib_of(40) == 102334155);
    assert(fib_of(41) == 165580141);
    assert(fib_of(42) == 267914296);
    assert(fib_of(43) == 433494437);
    assert(fib_of(44) == 701408733);
    assert(fib_of(45) == 1134903170);
    assert(fib_of(46) == 1836311903);
    assert(fib_of(47) == 2971215073);
}

/// The `n`-th Fibonacci number, for every `n` whose result fits in an `i32`.
pub fn fib(n: i32) -> (r: i32)
    requires
        0 <= n <= FIB_MAX_ARG,
    ensures
        r == fib_of(n as nat),
{
    if n == 0 {
        return 0;
    }
    let mut prev: i32 = 0;
    let mut cur: i32 = 1;
    let mut i: i32 = 1;
    while i < n
        invariant
            1 <= i <= n <= FIB_MAX_ARG,
            prev == fib_of((i - 1) as nat),
            cur == fib_of(i as nat),
        decreases n - i,
    {
        proof {
            lemma_fib_limits();
            lemma_fib_monotonic((i + 1) as nat, 46);
        }
        let next: i32 = prev + cur;
        prev = cur;
        cur = next;
        i = i + 1;
    }
    cur
}

/// The `n`-th Fibonacci number where it exists and fits in an `i32`.
pub fn fib_checked(n: i32) -> (r: Option<i32>)
    ensures
        r == (if 0 <= n <= FIB_MAX_ARG {
            Some(fib_of(n as nat) as i32)
        } else {
            None
        }),
{
    if 0 <= n && n <= FIB_MAX_ARG {
        Some(fib(n))
    } else {
        None
    }
}

} // verus!
