//! What the fee collaborator answers, and the tax that follows from it.

use crate::coin::{Coin, CoinView};
use crate::error::ContractError;
use crate::msg::{Instruction, InstructionView};
use vstd::prelude::*;

verus! {

/// The fee collaborator's answer for a payment of one unit price: the instructions
/// that pay the fees out, and what is left of the price for the seller.
#[derive(Debug, Clone, PartialEq, Eq)]
pub struct RatesResponse {
    pub msgs: Vec<Instruction>,
    pub remainder: Coin,
}

/// What a [`RatesResponse`] stands for.
pub struct RatesView {
    pub msgs: Seq<InstructionView>,
    pub remainder: CoinView,
}

impl DeepView for RatesResponse {
    type V = RatesView;

    open spec fn deep_view(&self) -> RatesView {
        RatesView { msgs: self.msgs.deep_view(), remainder: self.remainder@ }
    }
}

impl View for RatesResponse {
    type V = RatesView;

    open spec fn view(&self) -> RatesView {
        self.deep_view()
    }
}

/// What an instruction pays out, going by the first coin that it sends: nothing
/// where it sends no coins or is no payment.
pub open spec fn fee_of(msg: InstructionView) -> int {
    match msg {
        InstructionView::Send { to_address, amount } => if amount.len() > 0 {
            amount[0].amount as int
        } else {
            0
        },
        _ => 0,
    }
}

/// What a list of instructions pays out; see [`fee_of`].
pub open spec fn fees_of(msgs: Seq<InstructionView>) -> int
    decreases msgs.len(),
{
    if msgs.len() == 0 {
        0
    } else {
        fees_of(msgs.drop_last()) + fee_of(msgs.last())
    }
}

/// The tax on one unit: what the fee instructions pay out beyond what was taken out
/// of the price. There is none to be had where more is left than the price, where
/// the fees paid are less than what was taken out of it, or where the fees do not
/// fit in 128 bits.
pub open spec fn tax_of(msgs: Seq<InstructionView>, base_amount: u128, remaining: u128) -> Result<
    u128,
    ContractError,
> {
    let deducted = base_amount - remaining;
    let paid = fees_of(msgs);
    if remaining > base_amount || paid > u128::MAX || paid < deducted {
        Err(ContractError::Overflow)
    } else {
        Ok((paid - deducted) as u128)
    }
}

pub proof fn lemma_fees_nonnegative(msgs: Seq<InstructionView>)
    ensures
        fees_of(msgs) >= 0,
    decreases msgs.len(),
{
    if msgs.len() > 0 {
        lemma_fees_nonnegative(msgs.drop_last());
    }
}

/// The fees of a longer list are no less.
pub proof fn lemma_fees_monotone(msgs: Seq<InstructionView>, i: int)
    requires
        0 <= i <= msgs.len(),
    ensures
        fees_of(msgs.take(i)) <= fees_of(msgs),
    decreases msgs.len() - i,
{
    if i < msgs.len() {
        lemma_fees_monotone(msgs, i + 1);
        assert(msgs.take(i + 1).drop_last() =~= msgs.take(i));
    } else {
        assert(msgs.take(i) =~= msgs);
    }
}

/// The tax on one unit of `base_amount` of which the fees leave `remaining`; see
/// [`tax_of`].
pub fn get_tax_amount(msgs: &Vec<Instruction>, base_amount: u128, remaining: u128) -> (r: Result<
    u128,
    ContractError,
>)
    ensures
        r == tax_of(msgs.deep_view(), base_amount, remaining),
{
    if remaining > base_amount {
        return Err(ContractError::Overflow);
    }
    let deducted = base_amount - remaining;
    let ghost all = msgs.deep_view();
    let mut paid: u128 = 0;
    let mut i: usize = 0;
    while i < msgs.len()
        invariant
            i <= msgs.len(),
            all == msgs.deep_view(),
            paid == fees_of(all.take(i as int)),
        decreases msgs.len() - i,
    {
        let fee: u128 = match &msgs[i] {
            Instruction::Send { to_address, amount } => if amount.len() > 0 {
                amount[0].amount
            } else {
                0
            },
            _ => 0,
        };
        proof {
            assert(all.take(i + 1).drop_last() =~= all.take(i as int));
        }
        paid = match paid.checked_add(fee) {
            Some(sum) => sum,
            None => {
                proof {
                    lemma_fees_monotone(all, i + 1);
                }
                return Err(ContractError::Overflow);
            },
        };
        i += 1;
    }
    assert(all.take(msgs.len() as int) =~= all);
    if paid < deducted {
        return Err(ContractError::Overflow);
    }
    Ok(paid - deducted)
}

} // verus!
