//! Native coins and the checks that payments go through.

use vstd::prelude::*;

verus! {

/// An amount of one native denomination.
#[derive(Debug, PartialEq, Eq)]
pub struct Coin {
    pub denom: String,
    pub amount: u128,
}

/// What a [`Coin`] stands for.
pub struct CoinView {
    pub denom: Seq<char>,
    pub amount: u128,
}

impl DeepView for Coin {
    type V = CoinView;

    open spec fn deep_view(&self) -> CoinView {
        CoinView { denom: self.denom@, amount: self.amount }
    }
}

impl View for Coin {
    type V = CoinView;

    open spec fn view(&self) -> CoinView {
        self.deep_view()
    }
}

impl Clone for Coin {
    fn clone(&self) -> (r: Self)
        ensures
            r@ == self@,
    {
        Coin { denom: self.denom.clone(), amount: self.amount }
    }
}

impl Coin {
    /// A coin of `amount` units of `denom`.
    pub fn new(amount: u128, denom: &str) -> (r: Self)
        ensures
            r@ == (CoinView { denom: denom@, amount }),
    {
        Coin { denom: denom.to_owned(), amount }
    }
}

/// The first coin of `denom` in `coins`, if there is one.
pub open spec fn first_of_denom(coins: Seq<CoinView>, denom: Seq<char>) -> Option<CoinView>
    decreases coins.len(),
{
    if coins.len() == 0 {
        None
    } else if coins[0].denom == denom {
        Some(coins[0])
    } else {
        first_of_denom(coins.drop_first(), denom)
    }
}

/// The amount that `coins` holds in `denom`: that of the first coin of this
/// denomination, or nothing where there is none.
pub open spec fn amount_of(coins: Seq<CoinView>, denom: Seq<char>) -> u128 {
    match first_of_denom(coins, denom) {
        Some(c) => c.amount,
        None => 0,
    }
}

/// `coins` covers `required`: its first coin of that denomination holds at least
/// the required amount.
pub open spec fn covers(coins: Seq<CoinView>, required: CoinView) -> bool {
    match first_of_denom(coins, required.denom) {
        Some(c) => c.amount >= required.amount,
        None => false,
    }
}

/// `coins` after `funds` was taken out of its first coin of that denomination.
pub open spec fn deducted(coins: Seq<CoinView>, funds: CoinView) -> Seq<CoinView>
    decreases coins.len(),
{
    if coins.len() == 0 {
        coins
    } else if coins[0].denom == funds.denom {
        coins.update(
            0,
            CoinView { denom: coins[0].denom, amount: (coins[0].amount - funds.amount) as u128 },
        )
    } else {
        seq![coins[0]] + deducted(coins.drop_first(), funds)
    }
}

/// Calls `cosmwasm_std::has_coins`, which looks for the first coin of the required
/// denomination and answers whether it holds at least the required amount.
#[verifier::external_body]
pub(crate) fn has_coins(coins: &Vec<Coin>, required: &Coin) -> (r: bool)
    ensures
        r == covers(coins.deep_view(), required@),
{
    let coins: Vec<cosmwasm_std::Coin> =
        coins.iter().map(|c| cosmwasm_std::Coin::new(c.amount, c.denom.clone())).collect();
    let required = cosmwasm_std::Coin::new(required.amount, required.denom.clone());
    cosmwasm_std::has_coins(&coins, &required)
}

/// A copy of `coins`.
pub fn clone_coins(coins: &Vec<Coin>) -> (r: Vec<Coin>)
    ensures
        r.deep_view() == coins.deep_view(),
{
    let mut r: Vec<Coin> = Vec::new();
    let mut i: usize = 0;
    while i < coins.len()
        invariant
            i <= coins.len(),
            r.len() == i,
            forall|j: int| 0 <= j < i ==> r[j]@ == coins[j]@,
        decreases coins.len() - i,
    {
        r.push(coins[i].clone());
        i += 1;
    }
    assert(r.deep_view() =~= coins.deep_view());
    r
}

/// Takes `funds` out of the first coin of its denomination in `coins`. Fails, and
/// leaves `coins` as they were, where there is no such coin or it holds too little.
pub fn deduct_funds(coins: &mut Vec<Coin>, funds: &Coin) -> (r: bool)
    ensures
        r == covers(old(coins).deep_view(), funds@),
        r ==> final(coins).deep_view() == deducted(old(coins).deep_view(), funds@),
        !r ==> final(coins).deep_view() == old(coins).deep_view(),
{
    let mut i: usize = 0;
    while i < coins.len()
        invariant
            i <= coins.len(),
            *coins == *old(coins),
            forall|j: int| 0 <= j < i ==> coins[j].denom@ != funds.denom@,
        decreases coins.len() - i,
    {
        if coins[i].denom == funds.denom {
            proof {
                lemma_first_of_denom_at(coins.deep_view(), funds.denom@, i as int);
            }
            if coins[i].amount >= funds.amount {
                let left = Coin { denom: coins[i].denom.clone(), amount: coins[i].amount - funds.amount };
                coins.set(i, left);
                proof {
                    lemma_deducted_at(old(coins).deep_view(), funds@, i as int);
                    assert(coins.deep_view() =~= deducted(old(coins).deep_view(), funds@));
                }
                return true;
            }
            return false;
        }
        i += 1;
    }
    proof {
        lemma_first_of_denom_none(coins.deep_view(), funds.denom@);
    }
    false
}

/// Where no coin before position `i` has the denomination and the one at `i` has it,
/// that one is the first.
pub proof fn lemma_first_of_denom_at(coins: Seq<CoinView>, denom: Seq<char>, i: int)
    requires
        0 <= i < coins.len(),
        forall|j: int| 0 <= j < i ==> coins[j].denom != denom,
        coins[i].denom == denom,
    ensures
        first_of_denom(coins, denom) == Some(coins[i]),
    decreases i,
{
    if i > 0 {
        lemma_first_of_denom_at(coins.drop_first(), denom, i - 1);
    }
}

/// Where no coin has the denomination, none is found.
pub proof fn lemma_first_of_denom_none(coins: Seq<CoinView>, denom: Seq<char>)
    requires
        forall|j: int| 0 <= j < coins.len() ==> coins[j].denom != denom,
    ensures
        first_of_denom(coins, denom) is None,
    decreases coins.len(),
{
    if coins.len() > 0 {
        lemma_first_of_denom_none(coins.drop_first(), denom);
    }
}

/// Deducting touches the first coin of the denomination and nothing else.
pub proof fn lemma_deducted_at(coins: Seq<CoinView>, funds: CoinView, i: int)
    requires
        0 <= i < coins.len(),
        forall|j: int| 0 <= j < i ==> coins[j].denom != funds.denom,
        coins[i].denom == funds.denom,
    ensures
        deducted(coins, funds) == coins.update(
            i,
            CoinView { denom: coins[i].denom, amount: (coins[i].amount - funds.amount) as u128 },
        ),
    decreases i,
{
    if i > 0 {
        lemma_deducted_at(coins.drop_first(), funds, i - 1);
        let rest = coins.drop_first();
        let c = CoinView { denom: coins[i].denom, amount: (coins[i].amount - funds.amount) as u128 };
        assert(seq![coins[0]] + rest.update(i - 1, c) =~= coins.update(i, c));
    }
}

/// After a covered deduction the coins hold exactly that much less in the denomination.
pub proof fn lemma_amount_after_deduction(coins: Seq<CoinView>, funds: CoinView)
    requires
        covers(coins, funds),
    ensures
        amount_of(deducted(coins, funds), funds.denom) == amount_of(coins, funds.denom)
            - funds.amount,
    decreases coins.len(),
{
    if coins.len() > 0 && coins[0].denom != funds.denom {
        lemma_amount_after_deduction(coins.drop_first(), funds);
        let d = deducted(coins, funds);
        assert(d.drop_first() =~= deducted(coins.drop_first(), funds));
    }
}

} // verus!
