//! The least number of coins that make up an amount, by dynamic programming.

use vstd::prelude::*;

verus! {

/// The denominations, in ascending order.
pub open spec fn denominations() -> Seq<u32> {
    seq![1u32, 2u32, 5u32, 10u32, 20u32, 50u32, 100u32]
}

/// There is a coin of the value `c`.
pub open spec fn is_coin(c: nat) -> bool {
    exists|k: int| 0 <= k < denominations().len() && #[trigger] denominations()[k] == c
}

/// The sum of the values.
pub open spec fn total(coins: Seq<nat>) -> nat
    decreases coins.len(),
{
    if coins.len() == 0 {
        0
    } else {
        total(coins.drop_last()) + coins.last()
    }
}

/// `coins` are coins that make up `amount`.
pub open spec fn is_change(coins: Seq<nat>, amount: nat) -> bool {
    &&& forall|i: int| 0 <= i < coins.len() ==> is_coin(#[trigger] coins[i])
    &&& total(coins) == amount
}

/// `amount` can be made up of `count` coins.
pub open spec fn can_change_with(amount: nat, count: nat) -> bool {
    exists|coins: Seq<nat>| #[trigger] is_change(coins, amount) && coins.len() == count
}

/// `amount` can be made up of `count` coins and of no fewer.
pub open spec fn is_min_coins(amount: nat, count: nat) -> bool {
    &&& can_change_with(amount, count)
    &&& forall|coins: Seq<nat>| #[trigger] is_change(coins, amount) ==> coins.len() >= count
}

/// One coin more makes up that much more.
proof fn lemma_one_coin_more(amount: nat, count: nat, coin: nat)
    requires
        can_change_with(amount, count),
        is_coin(coin),
    ensures
        can_change_with(amount + coin, count + 1),
{
    let coins = choose|coins: Seq<nat>| #[trigger] is_change(coins, amount) && coins.len() == count;
    let more = coins.push(coin);
    assert(more.drop_last() =~= coins);
    assert forall|i: int| 0 <= i < more.len() implies is_coin(#[trigger] more[i]) by {
        if i < coins.len() {
            assert(more[i] == coins[i]);
        }
    }
    assert(is_change(more, amount + coin));
}

/// Coins that make up a positive amount are one coin, of no more than the amount, and
/// coins that make up the rest.
proof fn lemma_last_coin(coins: Seq<nat>, amount: nat)
    requires
        is_change(coins, amount),
        amount >= 1,
    ensures
        coins.len() >= 1,
        is_coin(coins.last()),
        coins.last() <= amount,
        is_change(coins.drop_last(), (amount - coins.last()) as nat),
{
    assert(coins.len() >= 1);
    let rest = coins.drop_last();
    assert forall|i: int| 0 <= i < rest.len() implies is_coin(#[trigger] rest[i]) by {
        assert(rest[i] == coins[i]);
    }
}

/// The least number of coins of 1, 2, 5, 10, 20, 50 and 100 that make up `amount`.
pub fn dp_rec_mc(amount: u32) -> (count: u32)
    requires
        amount < u32::MAX,
    ensures
        is_min_coins(amount as nat, count as nat),
{
    let coins: [u32; 7] = [1, 2, 5, 10, 20, 50, 100];
    assert(coins@ =~= denominations());
    let mut dp: Vec<u32> = vec![u32::MAX; (amount + 1) as usize];
    dp.set(0, 0);
    proof {
        let none = Seq::<nat>::empty();
        assert(is_change(none, 0));
        assert(can_change_with(0, 0));
    }
    let mut i: u32 = 1;
    while i <= amount
        invariant
            amount < u32::MAX,
            coins@ == denominations(),
            dp.len() == amount + 1,
            1 <= i <= amount + 1,
            forall|j: int| 0 <= j < i ==> is_min_coins(j as nat, #[trigger] dp[j] as nat) && dp[j] <= j,
            forall|j: int| i <= j <= amount ==> #[trigger] dp[j] == u32::MAX,
        decreases amount + 1 - i,
    {
        let mut k: usize = 0;
        while k < 7
            invariant
                amount < u32::MAX,
                coins@ == denominations(),
                dp.len() == amount + 1,
                1 <= i <= amount,
                k <= 7,
                forall|j: int|
                    0 <= j < i ==> is_min_coins(j as nat, #[trigger] dp[j] as nat) && dp[j] <= j,
                forall|j: int| i < j <= amount ==> #[trigger] dp[j] == u32::MAX,
                dp[i as int] == u32::MAX || (dp[i as int] <= i && can_change_with(
                    i as nat,
                    dp[i as int] as nat,
                )),
                k >= 1 ==> dp[i as int] != u32::MAX,
                forall|m: int|
                    0 <= m < k && coins[m] <= i ==> dp[i as int] <= dp[i - #[trigger] coins[m]] + 1,
            decreases 7 - k,
        {
            let coin = coins[k];
            if coin <= i {
                let sub_res = dp[(i - coin) as usize];
                if sub_res != u32::MAX {
                    proof {
                        assert(denominations()[k as int] == coin);
                        assert(is_coin(coin as nat));
                        lemma_one_coin_more((i - coin) as nat, sub_res as nat, coin as nat);
                    }
                    if sub_res + 1 < dp[i as usize] {
                        dp.set(i as usize, sub_res + 1);
                    }
                }
            }
            k = k + 1;
        }
        proof {
            let best = dp[i as int] as nat;
            assert forall|change: Seq<nat>| #[trigger] is_change(change, i as nat) implies change.len()
                >= best by {
                lemma_last_coin(change, i as nat);
                let coin = change.last();
                let m = choose|m: int| 0 <= m < denominations().len() && #[trigger] denominations()[m] == coin;
                assert(coins[m] == coin);
                let rest = (i - coin) as int;
                assert(is_min_coins(rest as nat, dp[rest] as nat));
                assert(is_change(change.drop_last(), rest as nat));
            }
        }
        i = i + 1;
    }
    dp[amount as usize]
}

} // verus!
