//! Divisibility, primes and greatest common divisors over the natural numbers.

use vstd::arithmetic::div_mod::{
    lemma_add_mod_noop, lemma_fundamental_div_mod, lemma_mod_multiples_basic,
    lemma_mul_mod_noop_left, lemma_small_mod, lemma_sub_mod_noop,
};
use vstd::arithmetic::power2::{lemma_pow2_pos, lemma_pow2_unfold, pow2};
use vstd::prelude::*;

verus! {

/// `d` divides `n`. Nothing is divisible by zero.
pub open spec fn divides(d: nat, n: nat) -> bool {
    d > 0 && n % d == 0
}

/// `p` is at least two and has no divisor strictly between one and itself.
pub open spec fn is_prime(p: nat) -> bool {
    p >= 2 && forall|d: nat| 1 < d < p ==> !#[trigger] divides(d, p)
}

/// `p` is a prime divisor of `n`, and no prime divisor of `n` is larger.
pub open spec fn is_largest_prime_factor(p: nat, n: nat) -> bool {
    &&& is_prime(p)
    &&& divides(p, n)
    &&& forall|q: nat| is_prime(q) && #[trigger] divides(q, n) ==> q <= p
}

/// The greatest common divisor, by Euclid's recurrence; it is zero only for two zeros.
pub open spec fn greatest_common_divisor(a: nat, b: nat) -> nat
    decreases b,
{
    if b == 0 {
        a
    } else {
        greatest_common_divisor(b, a % b)
    }
}

/// `g` divides both `a` and `b`, and no common divisor is larger; for two zeros, `g` is zero.
pub open spec fn is_greatest_common_divisor(g: nat, a: nat, b: nat) -> bool {
    if a == 0 && b == 0 {
        g == 0
    } else {
        &&& divides(g, a)
        &&& divides(g, b)
        &&& forall|e: nat| #[trigger] divides(e, a) && divides(e, b) ==> e <= g
    }
}

/// A divisor times its quotient gives the number back.
pub proof fn lemma_divides_quotient(d: nat, n: nat)
    requires
        divides(d, n),
    ensures
        n == d * (n / d),
{
    lemma_fundamental_div_mod(n as int, d as int);
}

/// Every multiple of `d` is divisible by `d`.
pub proof fn lemma_divides_multiple(d: nat, k: nat)
    requires
        d > 0,
    ensures
        divides(d, d * k),
        divides(d, k * d),
{
    lemma_mod_multiples_basic(k as int, d as int);
    assert(d * k == k * d) by (nonlinear_arith);
}

/// A divisor of `a` divides every multiple of `a`.
pub proof fn lemma_divides_product(d: nat, a: nat, k: nat)
    requires
        divides(d, a),
    ensures
        divides(d, a * k),
        divides(d, k * a),
{
    lemma_mul_mod_noop_left(a as int, k as int, d as int);
    let r = (a as int) % (d as int);
    assert(r * (k as int) == 0) by (nonlinear_arith)
        requires
            r == 0,
    ;
    lemma_small_mod(0, d);
    assert(a * k == k * a) by (nonlinear_arith);
}

/// A common divisor of two numbers divides their sum.
pub proof fn lemma_divides_sum(d: nat, a: nat, b: nat)
    requires
        divides(d, a),
        divides(d, b),
    ensures
        divides(d, a + b),
{
    lemma_add_mod_noop(a as int, b as int, d as int);
    lemma_small_mod(0, d);
}

/// A common divisor of two numbers divides their difference.
pub proof fn lemma_divides_difference(d: nat, a: nat, b: nat)
    requires
        divides(d, a),
        divides(d, b),
        a >= b,
    ensures
        divides(d, (a - b) as nat),
{
    lemma_sub_mod_noop(a as int, b as int, d as int);
    lemma_small_mod(0, d);
}

/// Divisibility is transitive.
pub proof fn lemma_divides_transitive(a: nat, b: nat, c: nat)
    requires
        divides(a, b),
        divides(b, c),
    ensures
        divides(a, c),
{
    lemma_divides_quotient(b, c);
    lemma_divides_product(a, b, c / b);
}

/// A divisor of a positive number is no larger than it.
pub proof fn lemma_divisor_bound(d: nat, n: nat)
    requires
        divides(d, n),
        n > 0,
    ensures
        d <= n,
{
    if d > n {
        lemma_small_mod(n, d);
    }
}

/// The quotient by a divisor is itself a divisor, and it is smaller than the number when the
/// divisor exceeds one.
pub proof fn lemma_cofactor(d: nat, n: nat)
    requires
        divides(d, n),
        n > 0,
    ensures
        n / d >= 1,
        divides(n / d, n),
        d > 1 ==> n / d < n,
        d < n ==> n / d > 1,
{
    lemma_divides_quotient(d, n);
    let k = n / d;
    assert(k >= 1) by (nonlinear_arith)
        requires
            n == d * k,
            n > 0,
            d > 0,
    ;
    lemma_divides_multiple(k, d);
    assert(d > 1 ==> k < n) by (nonlinear_arith)
        requires
            n == d * k,
            k >= 1,
    ;
    assert(d < n ==> k > 1) by (nonlinear_arith)
        requires
            n == d * k,
            k >= 1,
    ;
}

/// Euclid's lemma: a prime that divides a product divides one of the two factors.
pub proof fn lemma_prime_divides_product(p: nat, a: nat, b: nat)
    requires
        is_prime(p),
        divides(p, a * b),
    ensures
        divides(p, a) || divides(p, b),
    decreases a,
{
    if divides(p, a) {
    } else if a >= p {
        let r = a % p;
        let q = a / p;
        lemma_fundamental_div_mod(a as int, p as int);
        assert(a * b == p * (q * b) + r * b) by (nonlinear_arith)
            requires
                a == p * q + r,
        ;
        lemma_divides_multiple(p, q * b);
        lemma_divides_difference(p, a * b, p * (q * b));
        assert((a * b - p * (q * b)) as nat == r * b);
        lemma_prime_divides_product(p, r, b);
        lemma_small_mod(r, p);
    } else if a == 1 {
        assert(a * b == b) by (nonlinear_arith)
            requires
                a == 1,
        ;
    } else {
        assert(a > 1);
        let s = p % a;
        let q = p / a;
        lemma_fundamental_div_mod(p as int, a as int);
        assert(!divides(a, p));
        assert(p * b == q * (a * b) + s * b) by (nonlinear_arith)
            requires
                p == a * q + s,
        ;
        lemma_divides_multiple(p, b);
        lemma_divides_product(p, a * b, q);
        lemma_divides_difference(p, p * b, q * (a * b));
        assert((p * b - q * (a * b)) as nat == s * b);
        lemma_prime_divides_product(p, s, b);
        lemma_small_mod(s, p);
    }
}

/// A prime that divides a prime is that prime.
pub proof fn lemma_prime_divides_prime(q: nat, p: nat)
    requires
        is_prime(q),
        is_prime(p),
        divides(q, p),
    ensures
        q == p,
{
    lemma_divisor_bound(q, p);
}

/// Every number from two on has a prime divisor; the lemma returns one.
pub proof fn lemma_prime_divisor_exists(n: nat) -> (p: nat)
    requires
        n >= 2,
    ensures
        is_prime(p),
        divides(p, n),
    decreases n,
{
    if is_prime(n) {
        assert(n % n == 0) by (nonlinear_arith)
            requires
                n > 0,
        ;
        n
    } else {
        let d = choose|d: nat| 1 < d < n && divides(d, n);
        let p = lemma_prime_divisor_exists(d);
        lemma_divides_transitive(p, d, n);
        p
    }
}

/// The least divisor above one is prime.
pub proof fn lemma_least_divisor_is_prime(d: nat, n: nat)
    requires
        d >= 2,
        divides(d, n),
        forall|e: nat| 2 <= e < d ==> !#[trigger] divides(e, n),
    ensures
        is_prime(d),
{
    assert forall|e: nat| 1 < e < d implies !#[trigger] divides(e, d) by {
        if divides(e, d) {
            lemma_divides_transitive(e, d, n);
        }
    }
}

/// A number from two on with no divisor `e >= 2` such that `e * e <= n` is prime.
pub proof fn lemma_no_small_divisor_is_prime(n: nat, bound: nat)
    requires
        n >= 2,
        bound * bound > n,
        forall|e: nat| 2 <= e < bound ==> !#[trigger] divides(e, n),
    ensures
        is_prime(n),
{
    assert forall|d: nat| 1 < d < n implies !#[trigger] divides(d, n) by {
        if divides(d, n) {
            lemma_cofactor(d, n);
            lemma_divides_quotient(d, n);
            let k = n / d;
            assert(d < bound || k < bound) by (nonlinear_arith)
                requires
                    n == d * k,
                    bound * bound > n,
            ;
            assert(!divides(k, n) || !divides(d, n));
        }
    }
}

/// The greatest common divisor of two numbers, not both zero, is positive and divides both.
pub proof fn lemma_gcd_divides(a: nat, b: nat)
    requires
        a > 0 || b > 0,
    ensures
        divides(greatest_common_divisor(a, b), a),
        divides(greatest_common_divisor(a, b), b),
    decreases b,
{
    if b == 0 {
        assert(a % a == 0) by (nonlinear_arith)
            requires
                a > 0,
        ;
    } else {
        let g = greatest_common_divisor(a, b);
        lemma_gcd_divides(b, a % b);
        lemma_fundamental_div_mod(a as int, b as int);
        lemma_divides_product(g, b, a / b);
        lemma_divides_sum(g, b * (a / b), a % b);
    }
}

/// Every common divisor of two numbers, not both zero, divides their greatest common divisor.
pub proof fn lemma_common_divisor_divides_gcd(e: nat, a: nat, b: nat)
    requires
        divides(e, a),
        divides(e, b),
        a > 0 || b > 0,
    ensures
        divides(e, greatest_common_divisor(a, b)),
    decreases b,
{
    if b != 0 {
        lemma_fundamental_div_mod(a as int, b as int);
        lemma_divides_product(e, b, a / b);
        lemma_divides_difference(e, a, b * (a / b));
        assert((a - b * (a / b)) as nat == a % b);
        lemma_common_divisor_divides_gcd(e, b, a % b);
    }
}

/// Euclid's recurrence yields the greatest common divisor.
pub proof fn lemma_gcd_is_greatest(a: nat, b: nat)
    ensures
        is_greatest_common_divisor(greatest_common_divisor(a, b), a, b),
{
    let g = greatest_common_divisor(a, b);
    if a == 0 && b == 0 {
    } else {
        lemma_gcd_divides(a, b);
        assert forall|e: nat| #[trigger] divides(e, a) && divides(e, b) implies e <= g by {
            lemma_common_divisor_divides_gcd(e, a, b);
            lemma_divisor_bound(e, g);
        }
    }
}

/// The largest prime factor of `n`; one for zero and one, which have no prime factor.
pub open spec fn largest_prime_factor(n: nat) -> nat {
    if n < 2 {
        1
    } else {
        choose|p: nat| is_largest_prime_factor(p, n)
    }
}

/// The largest prime divisor of `n` among the numbers up to `bound`; zero if there is none.
pub open spec fn largest_prime_factor_up_to(n: nat, bound: nat) -> nat
    decreases bound,
{
    if bound < 2 {
        0
    } else if is_prime(bound) && divides(bound, n) {
        bound
    } else {
        largest_prime_factor_up_to(n, (bound - 1) as nat)
    }
}

/// The search downwards from `bound` finds the largest prime divisor of `n` up to `bound`,
/// if there is one.
pub proof fn lemma_largest_prime_factor_up_to(n: nat, bound: nat)
    ensures
        ({
            let r = largest_prime_factor_up_to(n, bound);
            &&& r <= bound
            &&& r != 0 ==> is_prime(r) && divides(r, n)
            &&& forall|q: nat| is_prime(q) && #[trigger] divides(q, n) && q <= bound ==> q <= r
        }),
    decreases bound,
{
    if bound >= 2 && !(is_prime(bound) && divides(bound, n)) {
        lemma_largest_prime_factor_up_to(n, (bound - 1) as nat);
    }
}

/// A number has at most one largest prime factor: the one that `largest_prime_factor` names.
pub proof fn lemma_largest_prime_factor_unique(p: nat, n: nat)
    requires
        n >= 2,
        is_largest_prime_factor(p, n),
    ensures
        p == largest_prime_factor(n),
{
    let q = largest_prime_factor(n);
    assert(is_largest_prime_factor(q, n));
    assert(divides(p, n));
    assert(divides(q, n));
}

/// Every number from two on has a largest prime factor.
pub proof fn lemma_largest_prime_factor_exists(n: nat)
    requires
        n >= 2,
    ensures
        is_largest_prime_factor(largest_prime_factor(n), n),
{
    let r = largest_prime_factor_up_to(n, n);
    lemma_largest_prime_factor_up_to(n, n);
    let q = lemma_prime_divisor_exists(n);
    lemma_divisor_bound(q, n);
    assert(divides(q, n));
    assert forall|q: nat| is_prime(q) && #[trigger] divides(q, n) implies q <= r by {
        lemma_divisor_bound(q, n);
    }
    assert(is_largest_prime_factor(r, n));
}

/// A prime is its own largest prime factor.
pub proof fn lemma_largest_prime_factor_of_prime(n: nat)
    requires
        is_prime(n),
    ensures
        is_largest_prime_factor(n, n),
        largest_prime_factor(n) == n,
{
    assert(n % n == 0) by (nonlinear_arith)
        requires
            n > 0,
    ;
    assert forall|q: nat| is_prime(q) && #[trigger] divides(q, n) implies q <= n by {
        lemma_divisor_bound(q, n);
    }
    lemma_largest_prime_factor_unique(n, n);
}

/// The only prime that divides a power of two is two.
pub proof fn lemma_prime_divisor_of_power_of_two(q: nat, k: nat)
    requires
        is_prime(q),
        divides(q, pow2(k)),
    ensures
        q == 2,
    decreases k,
{
    if k == 0 {
        assert(pow2(0) == 1) by {
            vstd::arithmetic::power2::lemma2_to64();
        }
        lemma_divisor_bound(q, 1);
    } else {
        lemma_pow2_unfold(k);
        lemma_prime_divides_product(q, 2, pow2((k - 1) as nat));
        if divides(q, 2) {
            lemma_divisor_bound(q, 2);
        } else {
            lemma_prime_divisor_of_power_of_two(q, (k - 1) as nat);
        }
    }
}

/// The largest prime factor of a power of two, from two itself on, is two.
pub proof fn lemma_largest_prime_factor_of_power_of_two(k: nat)
    requires
        k >= 1,
    ensures
        is_largest_prime_factor(2, pow2(k)),
        largest_prime_factor(pow2(k)) == 2,
{
    let n = pow2(k);
    lemma_pow2_unfold(k);
    lemma_pow2_pos((k - 1) as nat);
    lemma_divides_multiple(2, pow2((k - 1) as nat));
    assert forall|q: nat| is_prime(q) && #[trigger] divides(q, n) implies q <= 2 by {
        lemma_prime_divisor_of_power_of_two(q, k);
    }
    lemma_largest_prime_factor_unique(2, n);
}

/// What is left of `n` once `p` has been divided out of it as often as it goes evenly.
pub open spec fn divide_out(n: nat, p: nat) -> nat
    decreases n,
{
    if p >= 2 && n >= 1 && n % p == 0 {
        proof {
            assert(n / p < n) by (nonlinear_arith)
                requires
                    p >= 2,
                    n >= 1,
            ;
        }
        divide_out(n / p, p)
    } else {
        n
    }
}

/// What is left of `n` once its largest prime factor has been divided out of it for good,
/// then the largest prime factor of what was left out of that, and so on for as long as
/// this makes the number smaller.
pub open spec fn divide_out_largest_prime_factors(n: nat) -> nat
    decreases n,
{
    if n < 2 {
        n
    } else {
        let rest = divide_out(n, largest_prime_factor(n));
        if rest < n {
            divide_out_largest_prime_factors(rest)
        } else {
            n
        }
    }
}

/// Dividing a number out of a positive number leaves a positive number that is no larger,
/// and a smaller one if the number divided out is a divisor above one.
pub proof fn lemma_divide_out_bounds(n: nat, p: nat)
    requires
        n >= 1,
    ensures
        1 <= divide_out(n, p) <= n,
        p >= 2 && divides(p, n) ==> divide_out(n, p) < n,
        p >= 2 ==> !divides(p, divide_out(n, p)),
    decreases n,
{
    if p >= 2 && n % p == 0 {
        lemma_cofactor(p, n);
        lemma_divide_out_bounds(n / p, p);
    }
}

/// Factoring in full: dividing out the largest prime factor, again and again, reduces every
/// positive number to one.
pub proof fn lemma_factoring_reaches_one(n: nat)
    requires
        n >= 1,
    ensures
        divide_out_largest_prime_factors(n) == 1,
    decreases n,
{
    if n >= 2 {
        lemma_largest_prime_factor_exists(n);
        let p = largest_prime_factor(n);
        lemma_divide_out_bounds(n, p);
        lemma_factoring_reaches_one(divide_out(n, p));
    }
}

/// `d` is the least divisor of `n` above one.
pub open spec fn is_least_divisor(d: nat, n: nat) -> bool {
    &&& d >= 2
    &&& divides(d, n)
    &&& forall|e: nat| 2 <= e < d ==> !#[trigger] divides(e, n)
}

/// The least divisor of `n` above one, for `n` from two on.
pub open spec fn least_divisor(n: nat) -> nat {
    choose|d: nat| is_least_divisor(d, n)
}

/// A number has one least divisor above one at most: the one that `least_divisor` names.
pub proof fn lemma_least_divisor_unique(d: nat, n: nat)
    requires
        is_least_divisor(d, n),
    ensures
        d == least_divisor(n),
{
    let other = least_divisor(n);
    assert(is_least_divisor(other, n));
    assert(divides(d, n));
    assert(divides(other, n));
}

} // verus!
