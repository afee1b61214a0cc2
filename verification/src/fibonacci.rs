//! The sum of the odd Fibonacci numbers below a threshold.

use vstd::prelude::*;

verus! {

/// The greatest threshold for which the sum and every Fibonacci number met on the way to
/// it fit in 32 bits: the 46th Fibonacci number.
pub const MAX_THRESHOLD: u32 = 1836311903;

/// The Fibonacci numbers: 0, 1, 1, 2, 3, 5, ...
pub open spec fn fib(n: nat) -> nat
    decreases n,
{
    if n == 0 {
        0
    } else if n == 1 {
        1
    } else {
        fib((n - 1) as nat) + fib((n - 2) as nat)
    }
}

/// The sum of the odd ones among `fib(i)`, `fib(i + 1)`, ... as far as they stay below
/// `threshold`. Both ones at the start of the sequence, `fib(1)` and `fib(2)`, count.
pub open spec fn odd_fib_sum_from(i: nat, threshold: nat) -> nat
    decreases threshold + 2 - i,
{
    if i == 0 || fib(i) >= threshold {
        0
    } else {
        proof {
            lemma_fib_grows(i);
        }
        odd_fib_sum_from(i + 1, threshold) + if fib(i) % 2 == 1 {
            fib(i)
        } else {
            0
        }
    }
}

/// The sum of the odd Fibonacci numbers below `threshold`, from `fib(1)` on.
pub open spec fn odd_fib_sum_below(threshold: nat) -> nat {
    odd_fib_sum_from(1, threshold)
}

/// From the first on, a Fibonacci number is at least its index less one.
pub proof fn lemma_fib_grows(n: nat)
    ensures
        fib(n) + 1 >= n,
    decreases n,
{
    if n >= 2 {
        lemma_fib_grows((n - 1) as nat);
        lemma_fib_grows((n - 2) as nat);
        if n >= 3 {
            lemma_fib_positive((n - 2) as nat);
        }
    }
}

/// From the first on, the Fibonacci numbers are positive.
pub proof fn lemma_fib_positive(n: nat)
    requires
        n >= 1,
    ensures
        fib(n) >= 1,
    decreases n,
{
    assert(fib(0) == 0 && fib(1) == 1);
    if n >= 3 {
        lemma_fib_positive((n - 1) as nat);
    }
}

/// The Fibonacci numbers never decrease.
pub proof fn lemma_fib_monotonic(i: nat, j: nat)
    requires
        i <= j,
    ensures
        fib(i) <= fib(j),
    decreases j,
{
    if i < j {
        lemma_fib_monotonic(i, (j - 1) as nat);
    }
}

/// The 46th and the 47th Fibonacci number.
proof fn lemma_fib_46_47()
    ensures
        fib(46) == 1836311903,
        fib(47) == 2971215073,
{
    assert(fib(0) == 0);
    assert(fib(1) == 1);
    assert(fib(2) == 1);
    assert(fib(3) == 2);
    assert(fib(4) == 3);
    assert(fib(5) == 5);
    assert(fib(6) == 8);
    assert(fib(7) == 13);
    assert(fib(8) == 21);
    assert(fib(9) == 34);
    assert(fib(10) == 55);
    assert(fib(11) == 89);
    assert(fib(12) == 144);
    assert(fib(13) == 233);
    assert(fib(14) == 377);
    assert(fib(15) == 610);
    assert(fib(16) == 987);
    assert(fib(17) == 1597);
    assert(fib(18) == 2584);
    assert(fib(19) == 4181);
    assert(fib(20) == 6765);
    assert(fib(21) == 10946);
    assert(fib(22) == 17711);
    assert(fib(23) == 28657);
    assert(fib(24) == 46368);
    assert(fib(25) == 75025);
    assert(fib(26) == 121393);
    assert(fib(27) == 196418);
    assert(fib(28) == 317811);
    assert(fib(29) == 514229);
    assert(fib(30) == 832040);
    assert(fib(31) == 1346269);
    assert(fib(32) == 2178309);
    assert(fib(33) == 3524578);
    assert(fib(34) == 5702887);
    assert(fib(35) == 9227465);
    assert(fib(36) == 14930352);
    assert(fib(37) == 24157817);
    assert(fib(38) == 39088169);
    assert(fib(39) == 63245986);
    assert(fib(40) == 102334155);
    assert(fib(41) == 165580141);
    assert(fib(42) == 267914296);
    assert(fib(43) == 433494437);
    assert(fib(44) == 701408733);
    assert(fib(45) == 1134903170);
    assert(fib(46) == 1836311903);
    assert(fib(47) == 2971215073);
}

/// The sum of the odd Fibonacci numbers below `threshold`.
pub fn odd_fibnacci_sum(threshold: u32) -> (sum: u32)
    requires
        threshold <= MAX_THRESHOLD,
    ensures
        sum == odd_fib_sum_below(threshold as nat),
{
    let mut sum: u32 = 0;
    let mut a: u32 = 1;
    let mut b: u32 = 1;
    let ghost mut k: nat = 1;
    proof {
        assert(fib(0) == 0 && fib(1) == 1 && fib(2) == 1);
    }
    while a < threshold
        invariant
            threshold <= MAX_THRESHOLD,
            k >= 1,
            a == fib(k),
            b == fib(k + 1),
            sum < b,
            sum + odd_fib_sum_from(k, threshold as nat) == odd_fib_sum_below(threshold as nat),
        decreases threshold + 2 - k,
    {
        proof {
            lemma_fib_46_47();
            if k >= 46 {
                lemma_fib_monotonic(46, k);
            }
            lemma_fib_monotonic(k + 2, 47);
            lemma_fib_grows(k);
        }
        if a % 2 != 0 {
            sum += a;
        }
        let next = a + b;
        a = b;
        b = next;
        proof {
            k = k + 1;
        }
    }
    sum
}

} // verus!
