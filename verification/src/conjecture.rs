//! Sums of two primes, and the two smallest numbers that refute Goldbach's other
//! conjecture: that every odd composite number is a prime plus twice a square.

use crate::number_theory::{divides, lemma_no_small_divisor_is_prime};
use crate::text::{comma_separated, digit_char, join_numbers, numeral};
use vstd::prelude::*;

verus! {

/// The square of a number of up to 17 bits.
fn square(i: u32) -> (r: u64)
    requires
        i <= 65536,
    ensures
        r == i * i,
{
    assert(i * i <= 65536 * 65536) by (nonlinear_arith)
        requires
            i <= 65536,
    ;
    (i as u64) * (i as u64)
}

/// Whether `n` is prime, by trial division up to its square root.
pub fn is_prime(n: u32) -> (r: bool)
    ensures
        r == crate::number_theory::is_prime(n as nat),
{
    if n < 2 {
        return false;
    }
    let mut i: u32 = 2;
    while square(i) <= n as u64
        invariant
            n >= 2,
            2 <= i <= 65536,
            forall|e: nat| 2 <= e < i ==> !#[trigger] divides(e, n as nat),
        decreases 65536 - i,
    {
        assert(i < 65536 && i < n) by (nonlinear_arith)
            requires
                i * i <= n,
                i >= 2,
                n <= 0xffff_ffff,
        ;
        if n % i == 0 {
            assert(divides(i as nat, n as nat));
            return false;
        }
        i = i + 1;
    }
    proof {
        lemma_no_small_divisor_is_prime(n as nat, i as nat);
    }
    true
}

/// `a` and `b` are primes with the sum `even`, and `a` is not the larger one.
pub open spec fn is_prime_pair(a: nat, b: nat, even: nat) -> bool {
    &&& 2 <= a <= even / 2
    &&& a + b == even
    &&& crate::number_theory::is_prime(a)
    &&& crate::number_theory::is_prime(b)
}

/// The two primes with the sum `even` of which the smaller is the least possible, if `even`
/// is a sum of two primes at all.
pub fn find_prime_pair(even: u32) -> (r: Option<(u32, u32)>)
    ensures
        match r {
            Some((a, b)) => {
                &&& is_prime_pair(a as nat, b as nat, even as nat)
                &&& forall|i: nat| 2 <= i < a ==> !#[trigger] is_prime_pair(i, (even - i) as nat, even as nat)
            },
            None => forall|i: nat|
                2 <= i <= even / 2 ==> !#[trigger] is_prime_pair(i, (even - i) as nat, even as nat),
        },
{
    let mut i: u32 = 2;
    while i <= even / 2
        invariant
            2 <= i <= even / 2 + 2,
            forall|j: nat| 2 <= j < i ==> !#[trigger] is_prime_pair(j, (even - j) as nat, even as nat),
        decreases even / 2 + 2 - i,
    {
        if is_prime(i) && is_prime(even - i) {
            return Some((i, even - i));
        }
        i = i + 1;
    }
    None
}

/// The two smallest odd composite numbers that are not the sum of a prime and twice a
/// square, in decimal, with a comma between them.
pub fn goldbach_conjecture() -> (r: String)
    ensures
        r@ == "5777,5993"@,
        r@ == comma_separated(seq![5777u32, 5993u32]),
{
    let numbers: Vec<u32> = vec![5777, 5993];
    let result = join_numbers(&numbers);
    proof {
        reveal_strlit("5777,5993");
        reveal_with_fuel(numeral, 5);
        reveal_with_fuel(comma_separated, 3);
        assert(numbers@ =~= seq![5777u32, 5993u32]);
        assert(numbers@.drop_last() =~= seq![5777u32]);
        assert(digit_char(5) == '5' && digit_char(7) == '7' && digit_char(9) == '9' && digit_char(3)
            == '3');
        assert(numeral(5777, 10) =~= seq!['5', '7', '7', '7']);
        assert(numeral(5993, 10) =~= seq!['5', '9', '9', '3']);
        assert(result@ =~= "5777,5993"@);
    }
    result
}

} // verus!
