use exercises::rec_mc::dp_rec_mc;

#[test]
fn least_number_of_coins() {
    assert_eq!(dp_rec_mc(0), 0);
    assert_eq!(dp_rec_mc(1), 1);
    assert_eq!(dp_rec_mc(2), 1);
    assert_eq!(dp_rec_mc(3), 2);
    assert_eq!(dp_rec_mc(4), 2);
    assert_eq!(dp_rec_mc(5), 1);
    assert_eq!(dp_rec_mc(9), 3);
    assert_eq!(dp_rec_mc(40), 2);
    assert_eq!(dp_rec_mc(90), 3);
    assert_eq!(dp_rec_mc(99), 6);
    assert_eq!(dp_rec_mc(100), 1);
    assert_eq!(dp_rec_mc(188), 7);
    assert_eq!(dp_rec_mc(1000), 10);
    assert_eq!(dp_rec_mc(123456), 1237);
}

#[test]
fn least_number_of_coins_agrees_with_taking_the_largest_coin_first() {
    let coins = [100u32, 50, 20, 10, 5, 2, 1];
    for amount in 0u32..1500 {
        let mut rest = amount;
        let mut count = 0;
        for coin in coins {
            count += rest / coin;
            rest %= coin;
        }
        assert_eq!(dp_rec_mc(amount), count);
    }
}
