use tic_tac_toe::escrow::{
    draw_refund, fee, overpay_refund, winner_payout, Transfer, FEE_DIVISOR, FEE_PERCENT,
};
use tic_tac_toe::Error;

const TOKEN: u128 = 1_000_000_000_000_000_000_000_000;

#[test]
fn fee_rate_is_five_percent() {
    assert_eq!(FEE_PERCENT, 5);
    assert_eq!(FEE_DIVISOR, 20);
}

#[test]
fn fee_is_a_twentieth_of_the_stake() {
    assert_eq!(fee(100), 5);
    assert_eq!(fee(TOKEN), 50_000_000_000_000_000_000_000);
    assert_eq!(fee(100 * TOKEN), 5 * TOKEN);
}

#[test]
fn fee_rounds_down() {
    assert_eq!(fee(0), 0);
    assert_eq!(fee(19), 0);
    assert_eq!(fee(20), 1);
    assert_eq!(fee(39), 1);
    assert_eq!(fee(TOKEN + 7), 50_000_000_000_000_000_000_000);
}

#[test]
fn draw_refund_is_the_stake_less_the_fee() {
    assert_eq!(draw_refund(100), 95);
    assert_eq!(draw_refund(19), 19);
    assert_eq!(draw_refund(0), 0);
    assert_eq!(draw_refund(TOKEN), 950_000_000_000_000_000_000_000);
    assert_eq!(draw_refund(u128::MAX), u128::MAX - u128::MAX / 20);
}

#[test]
fn winner_payout_is_twice_the_refund() {
    assert_eq!(winner_payout(100), Ok(190));
    assert_eq!(winner_payout(0), Ok(0));
    assert_eq!(winner_payout(TOKEN), Ok(1_900_000_000_000_000_000_000_000));
    assert_eq!(winner_payout(TOKEN + 7), Ok(1_900_000_000_000_000_000_000_014));
    assert_eq!(winner_payout(100 * TOKEN), Ok(190 * TOKEN));
}

#[test]
fn winner_payout_fails_when_it_does_not_fit() {
    let largest: u128 = 179_095_982_589_967_612_349_144_530_227_246_427_081;
    assert_eq!(winner_payout(largest), Ok(u128::MAX - 1));
    assert_eq!(winner_payout(largest + 1), Err(Error::ArithmeticOverflow));
    assert_eq!(winner_payout(u128::MAX), Err(Error::ArithmeticOverflow));
}

#[test]
fn overpay_refund_is_what_was_paid_over_the_stake() {
    assert_eq!(overpay_refund(100, 150), Some(50));
    assert_eq!(overpay_refund(100, 101), Some(1));
    assert_eq!(overpay_refund(0, u128::MAX), Some(u128::MAX));
}

#[test]
fn overpay_refund_is_none_without_overpayment() {
    assert_eq!(overpay_refund(100, 100), None);
    assert_eq!(overpay_refund(100, 50), None);
    assert_eq!(overpay_refund(0, 0), None);
}

#[test]
fn draw_conserves_funds() {
    for stake in [0u128, 1, 19, 20, 21, 100, 12_345, TOKEN, TOKEN + 13, u128::MAX] {
        assert_eq!(fee(stake) + draw_refund(stake), stake);
    }
}

#[test]
fn win_conserves_funds() {
    for stake in [0u128, 1, 19, 20, 21, 100, 12_345, TOKEN, TOKEN + 13, 100 * TOKEN] {
        assert_eq!(winner_payout(stake).unwrap() + 2 * fee(stake), 2 * stake);
    }
}

#[test]
fn transfer_clone_is_equal() {
    let order = Transfer { to: "alice.near".to_string(), amount: 42 };
    let copy = order.clone();
    assert_eq!(copy, order);
    assert_eq!(copy.to, "alice.near");
    assert_eq!(copy.amount, 42);
}
