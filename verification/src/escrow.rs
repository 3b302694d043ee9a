//! Fee and payout arithmetic.
//!
//! Every amount is a count of the host's smallest monetary unit. Division
//! rounds down, so the protocol keeps the remainder of a fee.
use crate::error::Error;
use crate::game::AccountId;
use vstd::prelude::*;

verus! {

/// An amount of money, in the host's smallest unit.
pub type Balance = u128;

/// The fee rate, in percent of the stake.
pub const FEE_PERCENT: Balance = 5;

/// A stake divided by this is its fee.
pub const FEE_DIVISOR: Balance = 100 / FEE_PERCENT;

/// An order to pay `amount` to `to`. The engine moves no money itself: it
/// hands such orders to whoever holds the deposits.
#[derive(Debug, PartialEq, Eq)]
pub struct Transfer {
    pub to: AccountId,
    pub amount: Balance,
}

impl Clone for Transfer {
    fn clone(&self) -> (copy: Transfer)
        ensures
            copy == *self,
    {
        Transfer { to: self.to.clone(), amount: self.amount }
    }
}

/// A transfer as a mathematical value.
pub struct TransferView {
    pub to: Seq<char>,
    pub amount: nat,
}

impl View for Transfer {
    type V = TransferView;

    open spec fn view(&self) -> TransferView {
        TransferView { to: self.to@, amount: self.amount as nat }
    }
}

/// The views of a list of transfers, in its order.
pub open spec fn views(transfers: Seq<Transfer>) -> Seq<TransferView> {
    transfers.map_values(|t: Transfer| t@)
}

/// The protocol's fee on one stake.
pub open spec fn spec_fee(stake: nat) -> nat {
    stake / (FEE_DIVISOR as nat)
}

/// What each participant gets back of their stake when a match is drawn.
pub open spec fn spec_draw_refund(stake: nat) -> nat {
    (stake - spec_fee(stake)) as nat
}

/// What the winner gets of the two stakes.
pub open spec fn spec_winner_payout(stake: nat) -> nat {
    2 * spec_draw_refund(stake)
}

/// What a joiner who paid more than the stake gets back at once.
pub open spec fn spec_overpay_refund(stake: nat, paid: nat) -> Option<nat> {
    if paid > stake {
        Some((paid - stake) as nat)
    } else {
        None
    }
}

/// The protocol's fee on `stake`.
pub fn fee(stake: Balance) -> (kept: Balance)
    ensures
        kept == spec_fee(stake as nat),
        kept <= stake,
{
    stake / FEE_DIVISOR
}

/// The refund of `stake` to one participant of a drawn match.
pub fn draw_refund(stake: Balance) -> (refund: Balance)
    ensures
        refund == spec_draw_refund(stake as nat),
{
    stake - fee(stake)
}

/// The payout to the winner of a match played for `stake` a side.
///
/// Fails with [`Error::ArithmeticOverflow`] exactly when the payout does not
/// fit in a [`Balance`].
pub fn winner_payout(stake: Balance) -> (payout: Result<Balance, Error>)
    ensures
        match payout {
            Ok(amount) => amount == spec_winner_payout(stake as nat),
            Err(e) => e == Error::ArithmeticOverflow && spec_winner_payout(stake as nat)
                > Balance::MAX,
        },
{
    let each: Balance = draw_refund(stake);
    match each.checked_mul(2) {
        Some(amount) => Ok(amount),
        None => Err(Error::ArithmeticOverflow),
    }
}

/// The refund to a joiner who attached `paid` to a match played for `stake`.
pub fn overpay_refund(stake: Balance, paid: Balance) -> (refund: Option<Balance>)
    ensures
        match refund {
            Some(amount) => spec_overpay_refund(stake as nat, paid as nat) == Some(amount as nat),
            None => spec_overpay_refund(stake as nat, paid as nat).is_none(),
        },
{
    if paid > stake {
        Some(paid - stake)
    } else {
        None
    }
}

} // verus!
