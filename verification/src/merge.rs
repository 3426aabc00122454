//! Merging payments: instructions that send coins to one address become one
//! instruction.

use crate::coin::{amount_of, clone_coins, lemma_first_of_denom_at, lemma_first_of_denom_none, Coin, CoinView};
use crate::error::ContractError;
use crate::msg::{clone_instructions, Instruction, InstructionView};
use crate::order::{
    ascending, key_equal, key_less, key_lt, lemma_key_lt_irreflexive, lemma_key_lt_total,
    lemma_key_lt_transitive,
};
use crate::tokens::{lemma_rank, lemma_rank_of_member, lemma_with_key, rank, with_key};
use vstd::prelude::*;

verus! {

/// The coins with `c` added: to the first coin of its denomination, or at the end
/// where there is none.
pub open spec fn coin_added(coins: Seq<CoinView>, c: CoinView) -> Seq<CoinView>
    decreases coins.len(),
{
    if coins.len() == 0 {
        seq![c]
    } else if coins[0].denom == c.denom {
        coins.update(0, CoinView { denom: c.denom, amount: (coins[0].amount + c.amount) as u128 })
    } else {
        seq![coins[0]] + coin_added(coins.drop_first(), c)
    }
}

/// The coins `coins` with those of `more` added one after the other; nothing where
/// an amount leaves the range of 128 bits.
pub open spec fn coins_added(coins: Seq<CoinView>, more: Seq<CoinView>) -> Option<Seq<CoinView>>
    decreases more.len(),
{
    if more.len() == 0 {
        Some(coins)
    } else {
        match coins_added(coins, more.drop_last()) {
            None => None,
            Some(sum) => if amount_of(sum, more.last().denom) + more.last().amount > u128::MAX {
                None
            } else {
                Some(coin_added(sum, more.last()))
            },
        }
    }
}

/// The coins of two payments as one payment. Where the first holds no coins, the
/// second is taken as it is.
pub open spec fn coins_merged(coins: Seq<CoinView>, more: Seq<CoinView>) -> Option<Seq<CoinView>> {
    if coins.len() == 0 {
        Some(more)
    } else {
        coins_added(coins, more)
    }
}

/// Adding a coin where no coin before position `i` has its denomination and the one
/// at `i` has it.
pub proof fn lemma_coin_added_at(coins: Seq<CoinView>, c: CoinView, i: int)
    requires
        0 <= i < coins.len(),
        forall|j: int| 0 <= j < i ==> coins[j].denom != c.denom,
        coins[i].denom == c.denom,
    ensures
        coin_added(coins, c) == coins.update(
            i,
            CoinView { denom: c.denom, amount: (coins[i].amount + c.amount) as u128 },
        ),
    decreases i,
{
    if i > 0 {
        lemma_coin_added_at(coins.drop_first(), c, i - 1);
        let sum = CoinView { denom: c.denom, amount: (coins[i].amount + c.amount) as u128 };
        assert(seq![coins[0]] + coins.drop_first().update(i - 1, sum) =~= coins.update(i, sum));
    }
}

/// Adding a coin where no coin has its denomination.
pub proof fn lemma_coin_added_new(coins: Seq<CoinView>, c: CoinView)
    requires
        forall|j: int| 0 <= j < coins.len() ==> coins[j].denom != c.denom,
    ensures
        coin_added(coins, c) == coins.push(c),
    decreases coins.len(),
{
    if coins.len() > 0 {
        lemma_coin_added_new(coins.drop_first(), c);
        assert(seq![coins[0]] + coins.drop_first().push(c) =~= coins.push(c));
    } else {
        assert(seq![c] =~= coins.push(c));
    }
}

/// Adds `c` to `coins`; see [`coin_added`]. Fails, and changes nothing, where the
/// amount would leave its range.
fn add_coin(coins: &mut Vec<Coin>, c: &Coin) -> (r: bool)
    ensures
        r == (amount_of(old(coins).deep_view(), c@.denom) + c.amount <= u128::MAX),
        r ==> final(coins).deep_view() == coin_added(old(coins).deep_view(), c@),
        !r ==> final(coins).deep_view() == old(coins).deep_view(),
{
    let mut i: usize = 0;
    while i < coins.len()
        invariant
            i <= coins.len(),
            *coins == *old(coins),
            forall|j: int| 0 <= j < i ==> coins[j].denom@ != c.denom@,
        decreases coins.len() - i,
    {
        if coins[i].denom == c.denom {
            proof {
                lemma_first_of_denom_at(coins.deep_view(), c.denom@, i as int);
                lemma_coin_added_at(coins.deep_view(), c@, i as int);
            }
            match coins[i].amount.checked_add(c.amount) {
                Some(sum) => {
                    let ghost before = coins.deep_view();
                    coins.set(i, Coin { denom: c.denom.clone(), amount: sum });
                    assert(coins.deep_view() =~= before.update(
                        i as int,
                        CoinView { denom: c.denom@, amount: sum },
                    ));
                    return true;
                },
                None => {
                    return false;
                },
            }
        }
        i += 1;
    }
    proof {
        lemma_first_of_denom_none(coins.deep_view(), c.denom@);
        lemma_coin_added_new(coins.deep_view(), c@);
    }
    let ghost before = coins.deep_view();
    coins.push(c.clone());
    assert(coins.deep_view() =~= before.push(c@));
    true
}

/// The coins of two payments as one payment; see [`coins_merged`].
pub fn merge_coins(coins: &Vec<Coin>, coins_to_add: &Vec<Coin>) -> (r: Result<Vec<Coin>, ContractError>)
    ensures
        match r {
            Ok(sum) => coins_merged(coins.deep_view(), coins_to_add.deep_view()) == Some(
                sum.deep_view(),
            ),
            Err(e) => e == ContractError::Overflow && coins_merged(
                coins.deep_view(),
                coins_to_add.deep_view(),
            ) is None,
        },
{
    if coins.len() == 0 {
        return Ok(clone_coins(coins_to_add));
    }
    let ghost more = coins_to_add.deep_view();
    let mut sum = clone_coins(coins);
    let mut i: usize = 0;
    assert(more.take(0) =~= Seq::empty());
    while i < coins_to_add.len()
        invariant
            i <= coins_to_add.len(),
            more == coins_to_add.deep_view(),
            coins.len() > 0,
            coins_added(coins.deep_view(), more.take(i as int)) == Some(sum.deep_view()),
        decreases coins_to_add.len() - i,
    {
        proof {
            assert(more.take(i + 1).drop_last() =~= more.take(i as int));
            assert(more.take(i + 1).last() == coins_to_add[i as int]@);
        }
        if !add_coin(&mut sum, &coins_to_add[i]) {
            proof {
                lemma_coins_added_none(coins.deep_view(), more, i + 1);
            }
            return Err(ContractError::Overflow);
        }
        i += 1;
    }
    assert(more.take(coins_to_add.len() as int) =~= more);
    Ok(sum)
}

/// Once adding coins has failed it fails for every longer list.
pub proof fn lemma_coins_added_none(coins: Seq<CoinView>, more: Seq<CoinView>, i: int)
    requires
        0 <= i <= more.len(),
        coins_added(coins, more.take(i)) is None,
    ensures
        coins_added(coins, more) is None,
    decreases more.len() - i,
{
    if i < more.len() {
        assert(more.take(i + 1).drop_last() =~= more.take(i));
        lemma_coins_added_none(coins, more, i + 1);
    } else {
        assert(more.take(i) =~= more);
    }
}

/// A payment: coins for one address.
pub struct PayView {
    pub to: Seq<char>,
    pub coins: Seq<CoinView>,
}

/// The addresses of a book of payments, in its order.
pub open spec fn payees(book: Seq<PayView>) -> Seq<Seq<char>> {
    book.map_values(|p: PayView| p.to)
}

/// The book with a payment of `coins` to `to` entered: merged into the payment that
/// the address has, or as a payment of its own at the place where the address
/// belongs. Nothing where an amount leaves its range.
pub open spec fn booked(book: Seq<PayView>, to: Seq<char>, coins: Seq<CoinView>) -> Option<Seq<PayView>> {
    let at = rank(payees(book), to);
    if payees(book).contains(to) {
        match coins_merged(book[at].coins, coins) {
            None => None,
            Some(sum) => Some(book.update(at, PayView { to, coins: sum })),
        }
    } else {
        Some(book.insert(at, PayView { to, coins }))
    }
}

/// The book of the payments among `msgs`, addresses ascending.
pub open spec fn book_of(msgs: Seq<InstructionView>) -> Option<Seq<PayView>>
    decreases msgs.len(),
{
    if msgs.len() == 0 {
        Some(Seq::empty())
    } else {
        match book_of(msgs.drop_last()) {
            None => None,
            Some(book) => match msgs.last() {
                InstructionView::Send { to_address, amount } => booked(book, to_address, amount),
                _ => Some(book),
            },
        }
    }
}

/// The instructions among `msgs` that are no payments, in their order.
pub open spec fn others(msgs: Seq<InstructionView>) -> Seq<InstructionView>
    decreases msgs.len(),
{
    if msgs.len() == 0 {
        Seq::empty()
    } else {
        match msgs.last() {
            InstructionView::Send { to_address, amount } => others(msgs.drop_last()),
            _ => others(msgs.drop_last()).push(msgs.last()),
        }
    }
}

/// The payments of a book as instructions.
pub open spec fn payments(book: Seq<PayView>) -> Seq<InstructionView> {
    book.map_values(|p: PayView| InstructionView::Send { to_address: p.to, amount: p.coins })
}

/// The instructions `msgs` with the payments merged: first what is no payment, in
/// its order, then one payment for each address, addresses ascending. An error where
/// an amount leaves its range.
pub open spec fn merged(msgs: Seq<InstructionView>) -> Result<Seq<InstructionView>, ContractError> {
    match book_of(msgs) {
        None => Err(ContractError::Overflow),
        Some(book) => Ok(others(msgs) + payments(book)),
    }
}

/// Entering a payment keeps the addresses of the book ascending.
pub proof fn lemma_booked(book: Seq<PayView>, to: Seq<char>, coins: Seq<CoinView>)
    requires
        ascending(payees(book)),
        booked(book, to, coins) is Some,
    ensures
        ascending(payees(booked(book, to, coins)->0)),
{
    let keys = payees(book);
    let next = booked(book, to, coins)->0;
    crate::tokens::lemma_rank_splits(keys, to);
    lemma_with_key(keys, to);
    if keys.contains(to) {
        let i = choose|i: int| 0 <= i < keys.len() && keys[i] == to;
        lemma_rank_of_member(keys, i);
        assert(payees(next) =~= keys);
    } else {
        assert(payees(next) =~= with_key(keys, to));
    }
}

/// Once booking has failed it fails for every longer list.
pub proof fn lemma_book_of_none(msgs: Seq<InstructionView>, i: int)
    requires
        0 <= i <= msgs.len(),
        book_of(msgs.take(i)) is None,
    ensures
        book_of(msgs) is None,
    decreases msgs.len() - i,
{
    if i < msgs.len() {
        assert(msgs.take(i + 1).drop_last() =~= msgs.take(i));
        lemma_book_of_none(msgs, i + 1);
    } else {
        assert(msgs.take(i) =~= msgs);
    }
}

struct Pay {
    to: String,
    coins: Vec<Coin>,
}

impl DeepView for Pay {
    type V = PayView;

    closed spec fn deep_view(&self) -> PayView {
        PayView { to: self.to@, coins: self.coins.deep_view() }
    }
}

/// Enters a payment into the book; see [`booked`]. Fails, and changes nothing, where
/// an amount would leave its range.
fn book(entries: &mut Vec<Pay>, to: &String, coins: &Vec<Coin>) -> (r: bool)
    requires
        ascending(payees(old(entries).deep_view())),
    ensures
        r == booked(old(entries).deep_view(), to@, coins.deep_view()) is Some,
        r ==> Some(final(entries).deep_view()) == booked(
            old(entries).deep_view(),
            to@,
            coins.deep_view(),
        ),
        !r ==> final(entries).deep_view() == old(entries).deep_view(),
        ascending(payees(final(entries).deep_view())),
{
    let ghost before = entries.deep_view();
    let ghost keys = payees(before);
    let mut i: usize = 0;
    while i < entries.len() && key_less(entries[i].to.as_str(), to.as_str())
        invariant
            i <= entries.len(),
            *entries == *old(entries),
            before == entries.deep_view(),
            keys == payees(before),
            forall|j: int| 0 <= j < i ==> key_lt(keys[j], to@),
        decreases entries.len() - i,
    {
        i += 1;
    }
    proof {
        assert(i < entries.len() ==> keys[i as int] == entries[i as int].to@);
        lemma_rank(keys, to@, i as int);
    }
    if i < entries.len() && entries[i].to == *to {
        assert(keys[i as int] == to@);
        let sum = match merge_coins(&entries[i].coins, coins) {
            Ok(sum) => sum,
            Err(_) => {
                return false;
            },
        };
        proof {
            lemma_booked(before, to@, coins.deep_view());
        }
        entries.set(i, Pay { to: to.clone(), coins: sum });
        assert(entries.deep_view() =~= booked(before, to@, coins.deep_view())->0);
        true
    } else {
        proof {
            assert(!keys.contains(to@)) by {
                assert forall|j: int| 0 <= j < keys.len() implies keys[j] != to@ by {
                    lemma_key_lt_irreflexive(to@);
                    if j >= i {
                        lemma_key_lt_total(to@, keys[i as int]);
                        if j > i {
                            lemma_key_lt_transitive(to@, keys[i as int], keys[j]);
                        }
                    }
                }
            }
            lemma_booked(before, to@, coins.deep_view());
        }
        entries.insert(i, Pay { to: to.clone(), coins: clone_coins(coins) });
        assert(entries.deep_view() =~= booked(before, to@, coins.deep_view())->0);
        true
    }
}

/// Merges the payments among `msgs`; see [`merged`].
pub fn merge_sub_msgs(msgs: &Vec<Instruction>) -> (r: Result<Vec<Instruction>, ContractError>)
    ensures
        match r {
            Ok(out) => merged(msgs.deep_view()) == Ok::<Seq<InstructionView>, ContractError>(
                out.deep_view(),
            ),
            Err(e) => merged(msgs.deep_view()) == Err::<Seq<InstructionView>, ContractError>(e),
        },
{
    let ghost all = msgs.deep_view();
    let mut out: Vec<Instruction> = Vec::new();
    let mut entries: Vec<Pay> = Vec::new();
    let mut i: usize = 0;
    proof {
        assert(all.take(0) =~= Seq::empty());
        assert(out.deep_view() =~= Seq::empty());
        assert(entries.deep_view() =~= Seq::empty());
        assert(payees(entries.deep_view()) =~= Seq::empty());
    }
    while i < msgs.len()
        invariant
            i <= msgs.len(),
            all == msgs.deep_view(),
            ascending(payees(entries.deep_view())),
            book_of(all.take(i as int)) == Some(entries.deep_view()),
            out.deep_view() == others(all.take(i as int)),
        decreases msgs.len() - i,
    {
        proof {
            assert(all.take(i + 1).drop_last() =~= all.take(i as int));
            assert(all.take(i + 1).last() == msgs[i as int]@);
        }
        match &msgs[i] {
            Instruction::Send { to_address, amount } => {
                if !book(&mut entries, to_address, amount) {
                    proof {
                        lemma_book_of_none(all, i + 1);
                    }
                    return Err(ContractError::Overflow);
                }
            },
            other => {
                let ghost before = out.deep_view();
                out.push(other.clone());
                assert(out.deep_view() =~= before.push(msgs[i as int]@));
            },
        }
        i += 1;
    }
    assert(all.take(msgs.len() as int) =~= all);
    let ghost kept = out.deep_view();
    let ghost ledger = entries.deep_view();
    let mut j: usize = 0;
    assert(ledger.take(0) =~= Seq::empty());
    assert(kept + payments(ledger.take(0)) =~= kept);
    while j < entries.len()
        invariant
            j <= entries.len(),
            ledger == entries.deep_view(),
            out.deep_view() == kept + payments(ledger.take(j as int)),
        decreases entries.len() - j,
    {
        let ghost before = out.deep_view();
        out.push(
            Instruction::Send {
                to_address: entries[j].to.clone(),
                amount: clone_coins(&entries[j].coins),
            },
        );
        proof {
            let sent = InstructionView::Send { to_address: ledger[j as int].to, amount: ledger[j as int].coins };
            assert(out.deep_view() =~= before.push(sent));
            assert(payments(ledger.take(j + 1)) =~= payments(ledger.take(j as int)).push(sent));
            assert(kept + payments(ledger.take(j + 1)) =~= (kept + payments(
                ledger.take(j as int),
            )).push(sent));
        }
        j += 1;
    }
    assert(ledger.take(entries.len() as int) =~= ledger);
    Ok(out)
}

} // verus!
