//! The largest prime factor of a number of up to 128 bits: factors of two are divided out
//! first, then prime factors found by Pollard's rho are divided out of what is left, with
//! trial division standing in wherever the rho search does not deliver.

use crate::bignat::BigNat;
use crate::number_theory::{
    divides, greatest_common_divisor, is_greatest_common_divisor, is_largest_prime_factor,
    is_least_divisor, is_prime, largest_prime_factor, least_divisor, lemma_cofactor,
    lemma_divides_quotient,
    lemma_divides_transitive, lemma_divisor_bound, lemma_gcd_is_greatest,
    lemma_largest_prime_factor_unique, lemma_least_divisor_is_prime, lemma_least_divisor_unique,
    lemma_no_small_divisor_is_prime, lemma_prime_divides_prime, lemma_prime_divides_product,
    lemma_prime_divisor_exists,
};
use num_bigint::BigUint;
use rand::Rng;
use vstd::prelude::*;

verus! {

/// The least start value and increment that a random rho search is given.
pub const RHO_CONSTANT_MIN: u32 = 2;

/// The greatest start value and increment that a random rho search is given.
pub const RHO_CONSTANT_MAX: u32 = 1000;

/// How many rho searches, each with fresh random constants, are made on one number before
/// trial division takes over.
pub const RHO_ATTEMPTS: usize = 16;

/// How many steps one rho search takes before it gives up.
pub const RHO_MAX_STEPS: u64 = 0x1_0000_0000;

/// The input has no prime factorisation: it is zero.
#[derive(Debug, Clone, Copy, PartialEq, Eq, Structural)]
pub struct InvalidInputError;

/// What a primality test found.
#[derive(Debug, Clone, Copy, PartialEq, Eq, Structural)]
enum Primality {
    /// Proved prime.
    Yes,
    /// Found composite by the test.
    No,
    /// Passed probabilistic tests only.
    Probable,
}

/// `num_prime::nt_funcs::is_prime` with its default configuration. Its answer `Yes` comes from
/// a deterministic test and is taken as proof that the number is prime; of the other two
/// answers nothing is claimed.
#[verifier::external_body]
fn primality(n: &BigNat) -> (r: Primality)
    ensures
        r == Primality::Yes ==> is_prime(n@),
{
    match num_prime::nt_funcs::is_prime(&BigUint::from_slice(n.digits()), None) {
        num_prime::Primality::Yes => Primality::Yes,
        num_prime::Primality::No => Primality::No,
        num_prime::Primality::Probable(_) => Primality::Probable,
    }
}

/// `rand::Rng::gen_range` on the thread's generator, which panics on an empty range: some
/// value of the inclusive range, a different one from call to call.
#[verifier::external_body]
fn random_in_range(low: u32, high: u32) -> (r: u32)
    requires
        low <= high,
    ensures
        low <= r <= high,
{
    rand::thread_rng().gen_range(low..=high)
}

/// One step of the rho iteration: `x * x + c` modulo `n`.
pub open spec fn rho_step(x: nat, c: nat, n: nat) -> nat {
    (x * x + c) % n
}

/// The distance between two numbers.
pub open spec fn distance(a: nat, b: nat) -> nat {
    if a > b {
        (a - b) as nat
    } else {
        (b - a) as nat
    }
}

/// What a rho search of at most `steps` steps finds modulo `n >= 1`, with the slow value at
/// `x`, the fast value at `y` and the increment `c`. In each step the slow value advances
/// once and the fast value twice; the search ends with the first greatest common divisor of
/// their distance and `n` that is not one.
pub open spec fn rho_search(x: nat, y: nat, c: nat, n: nat, steps: nat) -> Option<nat>
    decreases steps,
{
    if steps == 0 {
        None
    } else {
        let x1 = rho_step(x, c, n);
        let y1 = rho_step(rho_step(y, c, n), c, n);
        let d = greatest_common_divisor(distance(x1, y1), n);
        if d != 1 {
            Some(d)
        } else {
            rho_search(x1, y1, c, n, (steps - 1) as nat)
        }
    }
}

/// Modulo one a rho search finds nothing.
pub proof fn lemma_rho_search_modulo_one(x: nat, y: nat, c: nat, steps: nat)
    ensures
        rho_search(x, y, c, 1, steps) is None,
    decreases steps,
{
    if steps > 0 {
        let x1 = rho_step(x, c, 1);
        let y1 = rho_step(rho_step(y, c, 1), c, 1);
        assert(x1 == 0 && y1 == 0);
        assert(greatest_common_divisor(0, 1) == 1) by {
            reveal_with_fuel(greatest_common_divisor, 3);
        }
        lemma_rho_search_modulo_one(x1, y1, c, (steps - 1) as nat);
    }
}

/// Whatever a rho search modulo `n >= 1` finds is a divisor of `n` other than one.
pub proof fn lemma_rho_search_finds_divisor(x: nat, y: nat, c: nat, n: nat, steps: nat)
    requires
        n >= 1,
    ensures
        rho_search(x, y, c, n, steps) matches Some(d) ==> d >= 2 && divides(d, n),
    decreases steps,
{
    if steps > 0 {
        let x1 = rho_step(x, c, n);
        let y1 = rho_step(rho_step(y, c, n), c, n);
        lemma_gcd_is_greatest(distance(x1, y1), n);
        lemma_rho_search_finds_divisor(x1, y1, c, n, (steps - 1) as nat);
    }
}

/// The greatest common divisor of two numbers, by Euclid's recurrence.
pub fn gcd(a: BigNat, b: BigNat) -> (g: BigNat)
    ensures
        g@ == greatest_common_divisor(a@, b@),
        is_greatest_common_divisor(g@, a@, b@),
    decreases b@,
{
    proof {
        lemma_gcd_is_greatest(a@, b@);
    }
    if b.is_zero() {
        a
    } else {
        let r = a.rem(&b);
        gcd(b, r)
    }
}

/// One run of the rho search for a divisor of `n`, from the start value `start`, with the
/// increment `increment`, for at most `max_steps` steps. What it finds is a divisor of `n`
/// other than one, possibly `n` itself.
pub fn rho_run(n: &BigNat, start: u32, increment: u32, max_steps: u64) -> (r: Option<BigNat>)
    requires
        n@ >= 1,
    ensures
        r matches Some(d) ==> rho_search(
            start as nat,
            start as nat,
            increment as nat,
            n@,
            max_steps as nat,
        ) == Some(d@) && d@ >= 2 && divides(d@, n@),
        r is None ==> rho_search(
            start as nat,
            start as nat,
            increment as nat,
            n@,
            max_steps as nat,
        ) is None,
{
    if n.is_one() {
        proof {
            lemma_rho_search_modulo_one(
                start as nat,
                start as nat,
                increment as nat,
                max_steps as nat,
            );
        }
        return None;
    }
    let c = BigNat::from_u128(increment as u128);
    let mut x = BigNat::from_u128(start as u128);
    let mut y = x.clone();
    let mut steps: u64 = 0;
    while steps < max_steps
        invariant
            n@ >= 1,
            c@ == increment,
            steps <= max_steps,
            rho_search(start as nat, start as nat, increment as nat, n@, max_steps as nat)
                == rho_search(x@, y@, increment as nat, n@, (max_steps - steps) as nat),
        decreases max_steps - steps,
    {
        x = x.mul(&x).add(&c).rem(n);
        y = y.mul(&y).add(&c).rem(n);
        y = y.mul(&y).add(&c).rem(n);
        let diff = if x.gt(&y) {
            x.sub(&y)
        } else {
            y.sub(&x)
        };
        let d = gcd(diff, n.clone());
        if !d.is_one() {
            proof {
                lemma_rho_search_finds_divisor(
                    start as nat,
                    start as nat,
                    increment as nat,
                    n@,
                    max_steps as nat,
                );
            }
            return Some(d);
        }
        steps = steps + 1;
    }
    None
}

/// The least divisor of `n` above one, by trial division. It is prime, and it is `n` itself
/// exactly when `n` is prime.
pub fn smallest_divisor(n: &BigNat) -> (d: BigNat)
    requires
        n@ >= 2,
    ensures
        2 <= d@ <= n@,
        is_least_divisor(d@, n@),
        d@ == least_divisor(n@),
        is_prime(d@),
{
    let one = BigNat::from_u128(1);
    let mut i = BigNat::from_u128(2);
    loop
        invariant
            n@ >= 2,
            one@ == 1,
            2 <= i@ <= n@,
            forall|e: nat| 2 <= e < i@ ==> !#[trigger] divides(e, n@),
        decreases n@ - i@,
    {
        if i.mul(&i).gt(n) {
            proof {
                lemma_no_small_divisor_is_prime(n@, i@);
                assert(n@ % n@ == 0) by (nonlinear_arith)
                    requires
                        n@ > 0,
                ;
                lemma_least_divisor_unique(n@, n@);
            }
            return n.clone();
        }
        if n.rem(&i).is_zero() {
            proof {
                lemma_least_divisor_is_prime(i@, n@);
                lemma_least_divisor_unique(i@, n@);
            }
            return i;
        }
        proof {
            let k = i@;
            let m = n@;
            assert(k + 1 <= m) by (nonlinear_arith)
                requires
                    k >= 2,
                    k * k <= m,
            ;
        }
        i = i.add(&one);
    }
}

/// The divisor of `n >= 2` that Pollard's rho finds with the pairs of start value and
/// increment from the one at `from` on: what the first run finds that is less than `n`, or
/// the least divisor above one if no run finds such a divisor.
pub open spec fn rho_divisor(n: nat, constants: Seq<(u32, u32)>, max_steps: nat, from: nat) -> nat
    decreases constants.len() - from,
{
    if from >= constants.len() {
        least_divisor(n)
    } else {
        let start = constants[from as int].0 as nat;
        let increment = constants[from as int].1 as nat;
        let found = rho_search(start, start, increment, n, max_steps);
        if found is Some && found->0 < n {
            found->0
        } else {
            rho_divisor(n, constants, max_steps, from + 1)
        }
    }
}

/// Pollard's rho: a divisor of `n` above one, and below `n` unless `n` is prime. One run
/// of the search is made with each of the given pairs of start value and increment, in
/// order, until one finds a divisor below `n`; a run that finds nothing or `n` itself is
/// followed by the next. Where no run delivers, trial division gives the least divisor. For
/// one the result is one.
pub fn pollards_rho(n: &BigNat, constants: &Vec<(u32, u32)>, max_steps: u64) -> (d: BigNat)
    requires
        n@ >= 1,
    ensures
        n@ == 1 ==> d@ == 1,
        n@ >= 2 ==> d@ == rho_divisor(n@, constants@, max_steps as nat, 0),
        n@ >= 2 ==> 2 <= d@ <= n@ && divides(d@, n@),
        n@ >= 2 && d@ == n@ ==> is_prime(n@),
{
    if n.is_one() {
        return n.clone();
    }
    let mut attempt: usize = 0;
    while attempt < constants.len()
        invariant
            n@ >= 2,
            attempt <= constants.len(),
            rho_divisor(n@, constants@, max_steps as nat, 0) == rho_divisor(
                n@,
                constants@,
                max_steps as nat,
                attempt as nat,
            ),
        decreases constants.len() - attempt,
    {
        let (start, increment) = constants[attempt];
        match rho_run(n, start, increment, max_steps) {
            Some(d) => {
                if n.gt(&d) {
                    return d;
                }
            },
            None => {},
        }
        attempt = attempt + 1;
    }
    smallest_divisor(n)
}

/// A prime divisor of `n`: divisors are split until one is prime.
fn prime_divisor(n: &BigNat, constants: &Vec<(u32, u32)>, max_steps: u64) -> (p: BigNat)
    requires
        n@ >= 2,
    ensures
        is_prime(p@),
        divides(p@, n@),
{
    let mut d = n.clone();
    proof {
        assert(n@ % n@ == 0) by (nonlinear_arith)
            requires
                n@ > 0,
        ;
    }
    loop
        invariant
            d@ >= 2,
            divides(d@, n@),
        decreases d@,
    {
        match primality(&d) {
            Primality::Yes => {
                return d;
            },
            _ => {},
        }
        let e = pollards_rho(&d, constants, max_steps);
        if !d.gt(&e) {
            return d;
        }
        proof {
            lemma_divides_transitive(e@, d@, n@);
        }
        d = e;
    }
}

/// What holds while the prime factors of `n` are divided out: `cofactor` is what is left of
/// `n`, `max_prime` is one or a prime factor of `n`, and every prime factor of `n` that
/// exceeds `max_prime` is still in `cofactor`.
pub open spec fn factoring_state(n: nat, cofactor: nat, max_prime: nat) -> bool {
    &&& cofactor >= 1
    &&& divides(cofactor, n)
    &&& (max_prime == 1 || (is_prime(max_prime) && divides(max_prime, n)))
    &&& forall|q: nat|
        is_prime(q) && #[trigger] divides(q, n) ==> q <= max_prime || divides(q, cofactor)
}

/// Dividing a prime factor out of the cofactor, and recording it if it is the largest so
/// far, keeps the factoring state and makes the cofactor smaller.
proof fn lemma_factoring_step(n: nat, cofactor: nat, max_prime: nat, p: nat)
    requires
        factoring_state(n, cofactor, max_prime),
        is_prime(p),
        divides(p, cofactor),
    ensures
        factoring_state(
            n,
            cofactor / p,
            if p > max_prime {
                p
            } else {
                max_prime
            },
        ),
        cofactor / p < cofactor,
{
    let rest = cofactor / p;
    let record = if p > max_prime {
        p
    } else {
        max_prime
    };
    lemma_cofactor(p, cofactor);
    lemma_divides_transitive(rest, cofactor, n);
    lemma_divides_transitive(p, cofactor, n);
    lemma_divides_quotient(p, cofactor);
    assert forall|q: nat| is_prime(q) && #[trigger] divides(q, n) implies q <= record || divides(
        q,
        rest,
    ) by {
        if q > max_prime {
            assert(divides(q, cofactor));
            lemma_prime_divides_product(q, p, rest);
            if divides(q, p) {
                lemma_prime_divides_prime(q, p);
            }
        }
    }
}

/// Once the cofactor is one, the recorded prime is the largest prime factor.
proof fn lemma_factoring_done(n: nat, max_prime: nat)
    requires
        n >= 1,
        factoring_state(n, 1, max_prime),
    ensures
        max_prime == largest_prime_factor(n),
        n >= 2 ==> is_largest_prime_factor(max_prime, n),
        1 <= max_prime <= n,
{
    assert forall|q: nat| is_prime(q) && #[trigger] divides(q, n) implies q <= max_prime by {
        if divides(q, 1) {
            lemma_divisor_bound(q, 1);
        }
    }
    if n >= 2 {
        let q = lemma_prime_divisor_exists(n);
        assert(divides(q, n));
        assert(is_largest_prime_factor(max_prime, n));
        lemma_largest_prime_factor_unique(max_prime, n);
    }
    if max_prime != 1 {
        lemma_divisor_bound(max_prime, n);
    }
}

/// The largest prime factor of `n`, with the rho searches run on the given pairs of start
/// value and increment, each for at most `max_steps` steps. Zero has no prime factor and is
/// refused; for one, which has none either, the result is one. The result does not depend on
/// the pairs or on the step limit: they only decide how the factors are found.
pub fn find_max_prime_factor_with(n: u128, constants: &Vec<(u32, u32)>, max_steps: u64) -> (r:
    Result<u128, InvalidInputError>)
    ensures
        n == 0 ==> r == Err::<u128, InvalidInputError>(InvalidInputError),
        n >= 1 ==> r == Ok::<u128, InvalidInputError>(largest_prime_factor(n as nat) as u128),
        n >= 1 ==> largest_prime_factor(n as nat) <= n,
        n >= 2 ==> is_largest_prime_factor(largest_prime_factor(n as nat), n as nat),
{
    if n == 0 {
        return Err(InvalidInputError);
    }
    let one = BigNat::from_u128(1);
    let two = BigNat::from_u128(2);
    let mut cofactor = BigNat::from_u128(n);
    let mut max_prime = BigNat::from_u128(1);
    proof {
        assert((n as nat) % (n as nat) == 0) by (nonlinear_arith)
            requires
                n > 0,
        ;
    }
    while cofactor.rem(&two).is_zero()
        invariant
            two@ == 2,
            max_prime@ <= 2,
            factoring_state(n as nat, cofactor@, max_prime@),
        decreases cofactor@,
    {
        proof {
            lemma_factoring_step(n as nat, cofactor@, max_prime@, 2);
        }
        max_prime = BigNat::from_u128(2);
        cofactor = cofactor.div(&two);
    }
    while cofactor.gt(&one)
        invariant
            one@ == 1,
            factoring_state(n as nat, cofactor@, max_prime@),
        decreases cofactor@,
    {
        let p = prime_divisor(&cofactor, constants, max_steps);
        proof {
            lemma_factoring_step(n as nat, cofactor@, max_prime@, p@);
        }
        if p.gt(&max_prime) {
            max_prime = p.clone();
        }
        cofactor = cofactor.div(&p);
    }
    proof {
        lemma_factoring_done(n as nat, max_prime@);
    }
    Ok(max_prime.to_u128().unwrap())
}

/// As many random pairs of start value and increment as asked for, each value drawn from
/// `RHO_CONSTANT_MIN` to `RHO_CONSTANT_MAX`.
pub fn random_constants(count: usize) -> (constants: Vec<(u32, u32)>)
    ensures
        constants.len() == count,
        forall|i: int|
            0 <= i < count ==> {
                &&& RHO_CONSTANT_MIN <= (#[trigger] constants[i]).0 <= RHO_CONSTANT_MAX
                &&& RHO_CONSTANT_MIN <= constants[i].1 <= RHO_CONSTANT_MAX
            },
{
    let mut constants: Vec<(u32, u32)> = Vec::new();
    while constants.len() < count
        invariant
            constants.len() <= count,
            forall|i: int|
                0 <= i < constants.len() ==> {
                    &&& RHO_CONSTANT_MIN <= (#[trigger] constants[i]).0 <= RHO_CONSTANT_MAX
                    &&& RHO_CONSTANT_MIN <= constants[i].1 <= RHO_CONSTANT_MAX
                },
        decreases count - constants.len(),
    {
        let start = random_in_range(RHO_CONSTANT_MIN, RHO_CONSTANT_MAX);
        let increment = random_in_range(RHO_CONSTANT_MIN, RHO_CONSTANT_MAX);
        constants.push((start, increment));
    }
    constants
}

/// The largest prime factor of `n`, with the rho searches run on random constants. Zero has
/// no prime factor and is refused; for one, which has none either, the result is one.
pub fn find_max_prime_factor(n: u128) -> (r: Result<u128, InvalidInputError>)
    ensures
        n == 0 ==> r == Err::<u128, InvalidInputError>(InvalidInputError),
        n >= 1 ==> r == Ok::<u128, InvalidInputError>(largest_prime_factor(n as nat) as u128),
        n >= 1 ==> largest_prime_factor(n as nat) <= n,
        n >= 2 ==> is_largest_prime_factor(largest_prime_factor(n as nat), n as nat),
{
    let constants = random_constants(RHO_ATTEMPTS);
    find_max_prime_factor_with(n, &constants, RHO_MAX_STEPS)
}

} // verus!
