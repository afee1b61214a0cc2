use exercises::fibonacci::{odd_fibnacci_sum, MAX_THRESHOLD};

fn reference(threshold: u64) -> u64 {
    let (mut a, mut b) = (1u64, 1u64);
    let mut sum = 0u64;
    while a < threshold {
        if a % 2 == 1 {
            sum += a;
        }
        let next = a + b;
        a = b;
        b = next;
    }
    sum
}

#[test]
fn odd_fibonacci_sum_of_small_thresholds() {
    assert_eq!(odd_fibnacci_sum(0), 0);
    assert_eq!(odd_fibnacci_sum(1), 0);
    assert_eq!(odd_fibnacci_sum(2), 2);
    assert_eq!(odd_fibnacci_sum(3), 2);
    assert_eq!(odd_fibnacci_sum(4), 5);
    assert_eq!(odd_fibnacci_sum(10), 10);
    assert_eq!(odd_fibnacci_sum(13), 10);
    assert_eq!(odd_fibnacci_sum(14), 23);
    assert_eq!(odd_fibnacci_sum(20), 23);
    assert_eq!(odd_fibnacci_sum(1000), 1785);
}

#[test]
fn odd_fibonacci_sum_at_the_largest_threshold() {
    assert_eq!(MAX_THRESHOLD, 1836311903);
    assert_eq!(odd_fibnacci_sum(MAX_THRESHOLD) as u64, reference(MAX_THRESHOLD as u64));
    assert_eq!(odd_fibnacci_sum(MAX_THRESHOLD), 1485607536);
    assert_eq!(odd_fibnacci_sum(MAX_THRESHOLD - 1), 1485607536);
}

#[test]
fn odd_fibonacci_sum_agrees_with_the_plain_loop() {
    for threshold in 0u32..3000 {
        assert_eq!(odd_fibnacci_sum(threshold) as u64, reference(threshold as u64));
    }
}
