use exercises::bignat::BigNat;
use exercises::prime_factor::{
    find_max_prime_factor, find_max_prime_factor_with, gcd, pollards_rho, random_constants,
    rho_run, smallest_divisor, InvalidInputError, RHO_CONSTANT_MAX, RHO_CONSTANT_MIN,
};

fn big(n: u128) -> BigNat {
    BigNat::from_digits(vec![
        n as u32,
        (n >> 32) as u32,
        (n >> 64) as u32,
        (n >> 96) as u32,
    ])
}

fn value(n: &BigNat) -> u128 {
    let mut total: u128 = 0;
    for (i, digit) in n.digits().iter().enumerate() {
        if *digit != 0 {
            assert!(i < 4);
            total |= (*digit as u128) << (32 * i);
        }
    }
    total
}

#[test]
fn zero_is_refused() {
    assert_eq!(find_max_prime_factor(0), Err(InvalidInputError));
    assert_eq!(find_max_prime_factor_with(0, &vec![(2, 1)], 10), Err(InvalidInputError));
}

#[test]
fn one_has_no_prime_factor() {
    assert_eq!(find_max_prime_factor(1), Ok(1));
}

#[test]
fn largest_prime_factor_of_small_numbers() {
    assert_eq!(find_max_prime_factor(2), Ok(2));
    assert_eq!(find_max_prime_factor(3), Ok(3));
    assert_eq!(find_max_prime_factor(4), Ok(2));
    assert_eq!(find_max_prime_factor(6), Ok(3));
    assert_eq!(find_max_prime_factor(9), Ok(3));
    assert_eq!(find_max_prime_factor(12), Ok(3));
    assert_eq!(find_max_prime_factor(105), Ok(7));
    assert_eq!(find_max_prime_factor(13195), Ok(29));
    assert_eq!(find_max_prime_factor(3 * 3 * 5 * 5 * 5 * 7 * 11 * 11), Ok(11));
}

#[test]
fn largest_prime_factor_of_larger_numbers() {
    assert_eq!(find_max_prime_factor(600851475143), Ok(6857));
    assert_eq!(find_max_prime_factor(1000003 * 1000033), Ok(1000033));
    assert_eq!(find_max_prime_factor(1000003 * 1000003), Ok(1000003));
    assert_eq!(find_max_prime_factor(8 * 1000033 * 999983 * 999983), Ok(1000033));
}

#[test]
fn largest_prime_factor_beyond_64_bits() {
    let mersenne_61: u128 = (1u128 << 61) - 1;
    assert_eq!(find_max_prime_factor(mersenne_61 * 1000003), Ok(mersenne_61));
    assert_eq!(find_max_prime_factor((1u128 << 100) * 3), Ok(3));
    assert_eq!(find_max_prime_factor(u128::MAX), Ok(67280421310721));
}

#[test]
fn a_prime_is_its_own_largest_prime_factor() {
    for p in [2u128, 3, 5, 97, 7919, 1000003, 1000000007, (1u128 << 61) - 1] {
        assert_eq!(find_max_prime_factor(p), Ok(p));
    }
}

#[test]
fn largest_prime_factor_of_a_power_of_two_is_two() {
    for k in 1..128 {
        assert_eq!(find_max_prime_factor(1u128 << k), Ok(2));
    }
}

#[test]
fn result_divides_the_input_and_has_no_divisor() {
    for n in 2u128..400 {
        let p = find_max_prime_factor(n).unwrap();
        assert_eq!(n % p, 0);
        assert!(p >= 2);
        for d in 2..p {
            assert_ne!(p % d, 0);
        }
        for q in (p + 1)..=n {
            if n % q == 0 {
                assert!((2..q).any(|d| q % d == 0));
            }
        }
    }
}

#[test]
fn dividing_out_every_result_reaches_one() {
    for start in [2u128, 12, 360, 1001, 13195, 600851475143, 1u128 << 90, 1000003 * 1000033 * 6] {
        let mut n = start;
        let mut rounds = 0;
        while n > 1 {
            let p = find_max_prime_factor(n).unwrap();
            assert!(p >= 2);
            assert_eq!(n % p, 0);
            while n % p == 0 {
                n /= p;
            }
            rounds += 1;
            assert!(rounds <= 128);
        }
        assert_eq!(n, 1);
    }
}

#[test]
fn result_does_not_depend_on_the_constants() {
    let n: u128 = 8051 * 4 * 1000003;
    assert_eq!(find_max_prime_factor_with(n, &vec![], 0), Ok(1000003));
    assert_eq!(find_max_prime_factor_with(n, &vec![(2, 1)], 1000), Ok(1000003));
    assert_eq!(find_max_prime_factor_with(n, &vec![(2, 1), (3, 7), (1000, 1000)], 5), Ok(1000003));
    assert_eq!(find_max_prime_factor_with(n, &vec![(0, 0)], 50), Ok(1000003));
}

#[test]
fn trial_division_alone_factors() {
    assert_eq!(find_max_prime_factor_with(8051, &vec![], 0), Ok(97));
    assert_eq!(find_max_prime_factor_with(97, &vec![], 0), Ok(97));
    assert_eq!(find_max_prime_factor_with(81, &vec![], 0), Ok(3));
    assert_eq!(find_max_prime_factor_with(2 * 3 * 5 * 7 * 11 * 13, &vec![], 0), Ok(13));
}

#[test]
fn rho_run_finds_the_textbook_divisor() {
    // x -> x * x + 1 modulo 8051 from 2: (5, 26), (26, 7474), (677, 871); the distances
    // 21 and 7448 are coprime to 8051, and gcd(194, 8051) = 97.
    let found = rho_run(&big(8051), 2, 1, 100).unwrap();
    assert_eq!(value(&found), 97);
    let found = rho_run(&big(8051), 2, 1, 3).unwrap();
    assert_eq!(value(&found), 97);
    assert!(rho_run(&big(8051), 2, 1, 2).is_none());
    assert!(rho_run(&big(8051), 2, 1, 0).is_none());
}

#[test]
fn rho_run_may_find_the_number_itself() {
    // Modulo 4 from 0 with increment 0 both values stay 0: the distance is 0 at once.
    let found = rho_run(&big(4), 0, 0, 10).unwrap();
    assert_eq!(value(&found), 4);
    // Modulo 9 from 2 with increment 2: (6, 2), then (2, 2).
    assert!(rho_run(&big(9), 2, 2, 1).is_none());
    let found = rho_run(&big(9), 2, 2, 2).unwrap();
    assert_eq!(value(&found), 9);
}

#[test]
fn rho_run_modulo_one_finds_nothing() {
    assert!(rho_run(&big(1), 2, 3, 1000).is_none());
}

#[test]
fn pollards_rho_of_one_is_one() {
    assert_eq!(value(&pollards_rho(&big(1), &vec![(2, 3)], 1000)), 1);
    assert_eq!(value(&pollards_rho(&big(1), &vec![], 0)), 1);
}

#[test]
fn pollards_rho_finds_the_textbook_divisor() {
    assert_eq!(value(&pollards_rho(&big(8051), &vec![(2, 1)], 100)), 97);
    assert_eq!(value(&pollards_rho(&big(8051), &vec![(0, 0), (2, 1)], 100)), 97);
}

#[test]
fn pollards_rho_goes_on_after_a_run_that_finds_the_number_itself() {
    assert_eq!(value(&pollards_rho(&big(9), &vec![(2, 2)], 2)), 3);
    assert_eq!(value(&pollards_rho(&big(4), &vec![(0, 0)], 10)), 2);
    assert_eq!(value(&pollards_rho(&big(9), &vec![(2, 2), (2, 2), (0, 0)], 2)), 3);
}

#[test]
fn pollards_rho_divides_a_composite_number_properly() {
    let pairs = random_constants(4);
    for n in 2u128..300 {
        let d = value(&pollards_rho(&big(n), &pairs, 50));
        assert!(d >= 2 && d <= n);
        assert_eq!(n % d, 0);
        let composite = (2..n).any(|e| n % e == 0);
        assert_eq!(d < n, composite);
    }
}

#[test]
fn pollards_rho_without_constants_gives_the_least_divisor() {
    assert_eq!(value(&pollards_rho(&big(91), &vec![], 100)), 7);
    assert_eq!(value(&pollards_rho(&big(8051), &vec![(2, 1)], 2)), 83);
    assert_eq!(value(&pollards_rho(&big(97), &vec![(2, 1), (3, 5)], 100)), 97);
}

#[test]
fn gcd_of_pairs() {
    assert_eq!(value(&gcd(big(12), big(18))), 6);
    assert_eq!(value(&gcd(big(18), big(12))), 6);
    assert_eq!(value(&gcd(big(17), big(5))), 1);
    assert_eq!(value(&gcd(big(0), big(5))), 5);
    assert_eq!(value(&gcd(big(5), big(0))), 5);
    assert_eq!(value(&gcd(big(0), big(0))), 0);
    assert_eq!(value(&gcd(big(1u128 << 100), big(3u128 << 70))), 1u128 << 70);
    assert_eq!(value(&gcd(big(194), big(8051))), 97);
}

#[test]
fn smallest_divisor_is_the_least_prime_factor() {
    assert_eq!(value(&smallest_divisor(&big(91))), 7);
    assert_eq!(value(&smallest_divisor(&big(97))), 97);
    assert_eq!(value(&smallest_divisor(&big(2))), 2);
    assert_eq!(value(&smallest_divisor(&big(4))), 2);
    assert_eq!(value(&smallest_divisor(&big(1000003 * 1000033))), 1000003);
}

#[test]
fn digits_are_least_significant_first() {
    let n = BigNat::from_digits(vec![0, 1]);
    assert_eq!(n.digits(), &vec![0, 1]);
    assert_eq!(value(&gcd(n, big(6))), 2);
    assert_eq!(value(&n_clone_of(&big(77))), 77);
}

fn n_clone_of(n: &BigNat) -> BigNat {
    n.clone()
}

#[test]
fn random_constants_lie_in_their_range() {
    let constants = random_constants(64);
    assert_eq!(constants.len(), 64);
    for (start, increment) in constants.iter() {
        assert!(RHO_CONSTANT_MIN <= *start && *start <= RHO_CONSTANT_MAX);
        assert!(RHO_CONSTANT_MIN <= *increment && *increment <= RHO_CONSTANT_MAX);
    }
    let first = constants[0];
    assert!(constants.iter().any(|pair| *pair != first));
    assert_eq!(random_constants(0).len(), 0);
}
