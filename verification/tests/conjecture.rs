use exercises::conjecture::{find_prime_pair, goldbach_conjecture, is_prime};

#[test]
fn goldbach_conjecture_names_both_numbers() {
    assert_eq!(goldbach_conjecture(), "5777,5993");
}

#[test]
fn both_numbers_are_odd_composites_and_no_prime_plus_twice_a_square() {
    for n in [5777u32, 5993] {
        assert_eq!(n % 2, 1);
        assert!(!is_prime(n));
        let mut k = 0u32;
        while 2 * k * k < n {
            assert!(!is_prime(n - 2 * k * k));
            k += 1;
        }
    }
}

#[test]
fn primes_are_told_from_other_numbers() {
    let primes = [2u32, 3, 5, 7, 11, 13, 97, 7919, 65521, 65537, 2147483647, 4294967291];
    for p in primes {
        assert!(is_prime(p));
    }
    let others = [0u32, 1, 4, 6, 9, 25, 49, 5777, 5993, 65535, 4294836225, 4294967295, 4295098369u64 as u32];
    for n in others {
        assert!(!is_prime(n));
    }
}

#[test]
fn primes_below_a_hundred() {
    let found: Vec<u32> = (0..100).filter(|n| is_prime(*n)).collect();
    assert_eq!(
        found,
        vec![2, 3, 5, 7, 11, 13, 17, 19, 23, 29, 31, 37, 41, 43, 47, 53, 59, 61, 67, 71, 73, 79, 83, 89, 97]
    );
}

#[test]
fn prime_pair_has_the_least_first_prime() {
    assert_eq!(find_prime_pair(4), Some((2, 2)));
    assert_eq!(find_prime_pair(6), Some((3, 3)));
    assert_eq!(find_prime_pair(10), Some((3, 7)));
    assert_eq!(find_prime_pair(28), Some((5, 23)));
    assert_eq!(find_prime_pair(100), Some((3, 97)));
    assert_eq!(find_prime_pair(7), Some((2, 5)));
}

#[test]
fn no_prime_pair_where_there_is_none() {
    assert_eq!(find_prime_pair(0), None);
    assert_eq!(find_prime_pair(1), None);
    assert_eq!(find_prime_pair(2), None);
    assert_eq!(find_prime_pair(3), None);
    assert_eq!(find_prime_pair(11), None);
    assert_eq!(find_prime_pair(5777), None);
}

#[test]
fn every_even_number_up_to_two_thousand_has_a_prime_pair() {
    let mut even = 4u32;
    while even <= 2000 {
        let (a, b) = find_prime_pair(even).unwrap();
        assert_eq!(a + b, even);
        assert!(a <= b);
        assert!(is_prime(a) && is_prime(b));
        even += 2;
    }
}
