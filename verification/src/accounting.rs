//! Measures of money: what a list of coins holds in a denomination, what a list of
//! instructions pays out in it, and what the purchases of a ledger stand for.

use crate::coin::{amount_of, covers, deducted, first_of_denom, CoinView};
use crate::ledger::{
    drop_entries, flat, ledger_wf, lemma_drop_entries, recorded, row_keys, take_entries,
    without_row, PurchaseView, RowView,
};
use crate::merge::{
    book_of, booked, coin_added, coins_added, coins_merged, merged, others, payees, payments,
    PayView,
};
use crate::msg::InstructionView;
use crate::rates::{fee_of, fees_of};
use crate::settlement::{refund_due, refund_message, refunds, side_effects};
use crate::tokens::rank;
use vstd::prelude::*;

verus! {

/// What `coins` hold in `denom`, all coins of that denomination taken together.
pub open spec fn total_of(coins: Seq<CoinView>, denom: Seq<char>) -> int
    decreases coins.len(),
{
    if coins.len() == 0 {
        0
    } else {
        total_of(coins.drop_last(), denom) + if coins.last().denom == denom {
            coins.last().amount as int
        } else {
            0
        }
    }
}

/// What an instruction moves out of the contract in `denom`.
pub open spec fn pays(msg: InstructionView, denom: Seq<char>) -> int {
    match msg {
        InstructionView::Send { to_address, amount } => total_of(amount, denom),
        InstructionView::Execute { contract_addr, msg, funds } => total_of(funds, denom),
        InstructionView::Pay { payee, funds } => total_of(funds, denom),
        _ => 0,
    }
}

/// What a list of instructions moves out of the contract in `denom`.
pub open spec fn paid_out(msgs: Seq<InstructionView>, denom: Seq<char>) -> int
    decreases msgs.len(),
{
    if msgs.len() == 0 {
        0
    } else {
        paid_out(msgs.drop_last(), denom) + pays(msgs.last(), denom)
    }
}

/// No two of the coins have one denomination.
pub open spec fn distinct_denoms(coins: Seq<CoinView>) -> bool {
    forall|i: int, j: int| 0 <= i < j < coins.len() ==> coins[i].denom != coins[j].denom
}

/// The instruction is a fee that is paid in `denom`: it sends one coin of that
/// denomination, or it calls a contract and moves nothing of that denomination.
pub open spec fn plain_fee(msg: InstructionView, denom: Seq<char>) -> bool {
    match msg {
        InstructionView::Send { to_address, amount } => amount.len() == 1 && amount[0].denom
            == denom,
        InstructionView::Execute { contract_addr, msg, funds } => total_of(funds, denom) == 0,
        _ => false,
    }
}

/// All of the instructions are fees paid in `denom`; see [`plain_fee`].
pub open spec fn plain_fees(msgs: Seq<InstructionView>, denom: Seq<char>) -> bool {
    forall|i: int| 0 <= i < msgs.len() ==> plain_fee(#[trigger] msgs[i], denom)
}

pub proof fn lemma_total_of_add(a: Seq<CoinView>, b: Seq<CoinView>, denom: Seq<char>)
    ensures
        total_of(a + b, denom) == total_of(a, denom) + total_of(b, denom),
    decreases b.len(),
{
    if b.len() == 0 {
        assert(a + b =~= a);
    } else {
        lemma_total_of_add(a, b.drop_last(), denom);
        assert((a + b).drop_last() =~= a + b.drop_last());
    }
}

pub proof fn lemma_total_of_one(c: CoinView, denom: Seq<char>)
    ensures
        total_of(seq![c], denom) == if c.denom == denom {
            c.amount as int
        } else {
            0
        },
{
    assert(seq![c].drop_last() =~= Seq::<CoinView>::empty());
    assert(total_of(seq![c].drop_last(), denom) == 0);
}

/// Putting another amount in place of the coin at `i` changes the total by the
/// difference, where the coin is of the denomination.
pub proof fn lemma_total_of_update(coins: Seq<CoinView>, i: int, c: CoinView, denom: Seq<char>)
    requires
        0 <= i < coins.len(),
        c.denom == coins[i].denom,
    ensures
        total_of(coins.update(i, c), denom) == total_of(coins, denom) + if c.denom == denom {
            c.amount - coins[i].amount
        } else {
            0
        },
    decreases coins.len(),
{
    let next = coins.update(i, c);
    if i == coins.len() - 1 {
        assert(next.drop_last() =~= coins.drop_last());
    } else {
        lemma_total_of_update(coins.drop_last(), i, c, denom);
        assert(next.drop_last() =~= coins.drop_last().update(i, c));
    }
}

/// Where no two coins have one denomination, the total in a denomination is the
/// amount of its first coin.
pub proof fn lemma_total_is_amount(coins: Seq<CoinView>, denom: Seq<char>)
    requires
        distinct_denoms(coins),
    ensures
        total_of(coins, denom) == amount_of(coins, denom),
    decreases coins.len(),
{
    if coins.len() > 0 {
        let rest = coins.drop_first();
        assert(distinct_denoms(rest)) by {
            assert forall|i: int, j: int| 0 <= i < j < rest.len() implies rest[i].denom
                != rest[j].denom by {
                assert(coins[i + 1].denom != coins[j + 1].denom);
            }
        }
        lemma_total_is_amount(rest, denom);
        assert(seq![coins[0]] + rest =~= coins);
        lemma_total_of_add(seq![coins[0]], rest, denom);
        lemma_total_of_one(coins[0], denom);
        if coins[0].denom == denom {
            assert(first_of_denom(rest, denom) is None) by {
                crate::coin::lemma_first_of_denom_none(rest, denom);
            }
        }
    }
}

/// After a covered deduction from coins of which no two have one denomination, they
/// hold exactly that much less.
pub proof fn lemma_total_after_deduction(coins: Seq<CoinView>, funds: CoinView)
    requires
        distinct_denoms(coins),
        covers(coins, funds),
    ensures
        total_of(deducted(coins, funds), funds.denom) == amount_of(coins, funds.denom)
            - funds.amount,
        amount_of(deducted(coins, funds), funds.denom) == amount_of(coins, funds.denom)
            - funds.amount,
{
    let left = deducted(coins, funds);
    crate::coin::lemma_amount_after_deduction(coins, funds);
    lemma_deducted_denoms(coins, funds);
    assert(distinct_denoms(left)) by {
        assert forall|i: int, j: int| 0 <= i < j < left.len() implies left[i].denom != left[j].denom by {
            assert(coins[i].denom != coins[j].denom);
        }
    }
    lemma_total_is_amount(left, funds.denom);
}

/// A deduction changes no denomination.
pub proof fn lemma_deducted_denoms(coins: Seq<CoinView>, funds: CoinView)
    ensures
        deducted(coins, funds).len() == coins.len(),
        forall|i: int| 0 <= i < coins.len() ==> deducted(coins, funds)[i].denom == coins[i].denom,
    decreases coins.len(),
{
    if coins.len() > 0 && coins[0].denom != funds.denom {
        let rest = coins.drop_first();
        lemma_deducted_denoms(rest, funds);
        let left = deducted(coins, funds);
        assert(left == seq![coins[0]] + deducted(rest, funds));
        assert forall|i: int| 0 <= i < coins.len() implies left[i].denom == coins[i].denom by {
            if i > 0 {
                assert(left[i] == deducted(rest, funds)[i - 1]);
                assert(rest[i - 1] == coins[i]);
            }
        }
    }
}

pub proof fn lemma_paid_out_add(a: Seq<InstructionView>, b: Seq<InstructionView>, denom: Seq<char>)
    ensures
        paid_out(a + b, denom) == paid_out(a, denom) + paid_out(b, denom),
    decreases b.len(),
{
    if b.len() == 0 {
        assert(a + b =~= a);
    } else {
        lemma_paid_out_add(a, b.drop_last(), denom);
        assert((a + b).drop_last() =~= a + b.drop_last());
    }
}

pub proof fn lemma_paid_out_one(msg: InstructionView, denom: Seq<char>)
    ensures
        paid_out(seq![msg], denom) == pays(msg, denom),
{
    assert(seq![msg].drop_last() =~= Seq::<InstructionView>::empty());
    assert(paid_out(seq![msg].drop_last(), denom) == 0);
}

pub proof fn lemma_fees_add(a: Seq<InstructionView>, b: Seq<InstructionView>)
    ensures
        fees_of(a + b) == fees_of(a) + fees_of(b),
    decreases b.len(),
{
    if b.len() == 0 {
        assert(a + b =~= a);
    } else {
        lemma_fees_add(a, b.drop_last());
        assert((a + b).drop_last() =~= a + b.drop_last());
    }
}

/// Fees that are paid in `denom` move out of the contract exactly what they count for.
pub proof fn lemma_plain_fees_paid(msgs: Seq<InstructionView>, denom: Seq<char>)
    requires
        plain_fees(msgs, denom),
    ensures
        paid_out(msgs, denom) == fees_of(msgs),
    decreases msgs.len(),
{
    if msgs.len() > 0 {
        let rest = msgs.drop_last();
        assert(plain_fees(rest, denom)) by {
            assert forall|i: int| 0 <= i < rest.len() implies plain_fee(
                #[trigger] rest[i],
                denom,
            ) by {
                assert(rest[i] == msgs[i]);
            }
        }
        lemma_plain_fees_paid(rest, denom);
        let last = msgs.last();
        assert(plain_fee(msgs[msgs.len() - 1], denom));
        match last {
            InstructionView::Send { to_address, amount } => {
                assert(amount =~= seq![amount[0]]);
                lemma_total_of_one(amount[0], denom);
            },
            _ => {},
        }
    }
}

/// The sum of what `worth` gives for each of the purchases.
pub open spec fn sum_by(purchases: Seq<PurchaseView>, worth: spec_fn(PurchaseView) -> int) -> int
    decreases purchases.len(),
{
    if purchases.len() == 0 {
        0
    } else {
        sum_by(purchases.drop_last(), worth) + worth(purchases.last())
    }
}

/// What a buyer paid for a purchase: the price and the tax.
pub open spec fn paid_for(price: u128) -> spec_fn(PurchaseView) -> int {
    |p: PurchaseView| p.tax_amount + price
}

/// What the fee instructions of a purchase count for.
pub open spec fn fees_for() -> spec_fn(PurchaseView) -> int {
    |p: PurchaseView| fees_of(p.msgs)
}

pub proof fn lemma_sum_by_add(a: Seq<PurchaseView>, b: Seq<PurchaseView>, worth: spec_fn(PurchaseView) -> int)
    ensures
        sum_by(a + b, worth) == sum_by(a, worth) + sum_by(b, worth),
    decreases b.len(),
{
    if b.len() == 0 {
        assert(a + b =~= a);
    } else {
        lemma_sum_by_add(a, b.drop_last(), worth);
        assert((a + b).drop_last() =~= a + b.drop_last());
    }
}

pub proof fn lemma_sum_by_one(p: PurchaseView, worth: spec_fn(PurchaseView) -> int)
    ensures
        sum_by(seq![p], worth) == worth(p),
{
    assert(seq![p].drop_last() =~= Seq::<PurchaseView>::empty());
    assert(sum_by(seq![p].drop_last(), worth) == 0);
}

/// What buyers paid for purchases is what they get back for them.
pub proof fn lemma_refund_due_is_sum(purchases: Seq<PurchaseView>, price: u128)
    ensures
        refund_due(purchases, price) == sum_by(purchases, paid_for(price)),
    decreases purchases.len(),
{
    if purchases.len() > 0 {
        lemma_refund_due_is_sum(purchases.drop_last(), price);
    }
}

/// The fees of the instructions recorded with purchases are the sum of the fees of
/// each.
pub proof fn lemma_side_effects_fees(purchases: Seq<PurchaseView>)
    ensures
        fees_of(side_effects(purchases)) == sum_by(purchases, fees_for()),
    decreases purchases.len(),
{
    if purchases.len() > 0 {
        lemma_side_effects_fees(purchases.drop_last());
        lemma_fees_add(side_effects(purchases.drop_last()), purchases.last().msgs);
    }
}

pub proof fn lemma_flat_add(a: Seq<RowView>, b: Seq<RowView>)
    ensures
        flat(a + b) == flat(a) + flat(b),
    decreases a.len(),
{
    if a.len() == 0 {
        assert(a + b =~= b);
        assert(flat(a) + flat(b) =~= flat(b));
    } else {
        lemma_flat_add(a.drop_first(), b);
        assert((a + b).drop_first() =~= a.drop_first() + b);
        assert(flat(a + b) =~= flat(a) + flat(b));
    }
}

pub proof fn lemma_flat_one(row: RowView)
    ensures
        flat(seq![row]) == row.purchases,
{
    assert(seq![row].drop_first() =~= Seq::<RowView>::empty());
    assert(flat(seq![row].drop_first()) =~= Seq::<PurchaseView>::empty());
    assert(flat(seq![row]) =~= row.purchases);
}

/// The purchases of a ledger, split at row `i`.
pub proof fn lemma_flat_split(rows: Seq<RowView>, i: int)
    requires
        0 <= i < rows.len(),
    ensures
        flat(rows) == flat(rows.take(i)) + rows[i].purchases + flat(rows.skip(i + 1)),
{
    assert(rows =~= rows.take(i) + seq![rows[i]] + rows.skip(i + 1));
    lemma_flat_add(rows.take(i) + seq![rows[i]], rows.skip(i + 1));
    lemma_flat_add(rows.take(i), seq![rows[i]]);
    lemma_flat_one(rows[i]);
}

/// What the purchases of a ledger are worth, split at row `i`.
pub proof fn lemma_sum_split(rows: Seq<RowView>, i: int, worth: spec_fn(PurchaseView) -> int)
    requires
        0 <= i < rows.len(),
    ensures
        sum_by(flat(rows), worth) == sum_by(flat(rows.take(i)), worth) + sum_by(
            rows[i].purchases,
            worth,
        ) + sum_by(flat(rows.skip(i + 1)), worth),
{
    lemma_flat_split(rows, i);
    lemma_sum_by_add(flat(rows.take(i)) + rows[i].purchases, flat(rows.skip(i + 1)), worth);
    lemma_sum_by_add(flat(rows.take(i)), rows[i].purchases, worth);
}

/// Recording a purchase adds its worth to that of the ledger.
pub proof fn lemma_sum_recorded(rows: Seq<RowView>, p: PurchaseView, worth: spec_fn(PurchaseView) -> int)
    requires
        ledger_wf(rows),
    ensures
        sum_by(flat(recorded(rows, p)), worth) == sum_by(flat(rows), worth) + worth(p),
        flat(recorded(rows, p)).len() == flat(rows).len() + 1,
{
    let keys = row_keys(rows);
    let at = rank(keys, p.purchaser);
    let next = recorded(rows, p);
    crate::tokens::lemma_rank_splits(keys, p.purchaser);
    if keys.contains(p.purchaser) {
        let i = choose|i: int| 0 <= i < keys.len() && keys[i] == p.purchaser;
        crate::tokens::lemma_rank_of_member(keys, i);
        lemma_sum_split(rows, at, worth);
        lemma_sum_split(next, at, worth);
        lemma_flat_split(rows, at);
        lemma_flat_split(next, at);
        assert(next.take(at) =~= rows.take(at));
        assert(next.skip(at + 1) =~= rows.skip(at + 1));
        assert(next[at].purchases.drop_last() =~= rows[at].purchases);
    } else {
        lemma_flat_add(rows.take(at), rows.skip(at));
        assert(rows.take(at) + rows.skip(at) =~= rows);
        lemma_sum_by_add(flat(rows.take(at)), flat(rows.skip(at)), worth);
        lemma_sum_split(next, at, worth);
        lemma_flat_split(next, at);
        assert(next.take(at) =~= rows.take(at));
        assert(next.skip(at + 1) =~= rows.skip(at));
        lemma_sum_by_one(p, worth);
    }
}

/// Taking a row out takes its worth from that of the ledger.
pub proof fn lemma_sum_remove(rows: Seq<RowView>, at: int, worth: spec_fn(PurchaseView) -> int)
    requires
        0 <= at < rows.len(),
    ensures
        sum_by(flat(rows.remove(at)), worth) == sum_by(flat(rows), worth) - sum_by(
            rows[at].purchases,
            worth,
        ),
        flat(rows.remove(at)).len() == flat(rows).len() - rows[at].purchases.len(),
{
    let next = rows.remove(at);
    lemma_sum_split(rows, at, worth);
    lemma_flat_split(rows, at);
    assert(next =~= rows.take(at) + rows.skip(at + 1));
    lemma_flat_add(rows.take(at), rows.skip(at + 1));
    lemma_sum_by_add(flat(rows.take(at)), flat(rows.skip(at + 1)), worth);
}

/// What the purchases of a ledger are worth, the first `k` rows apart from the rest.
pub proof fn lemma_sum_skip(rows: Seq<RowView>, k: int, worth: spec_fn(PurchaseView) -> int)
    requires
        0 <= k <= rows.len(),
    ensures
        sum_by(flat(rows), worth) == sum_by(flat(rows.take(k)), worth) + sum_by(
            flat(rows.skip(k)),
            worth,
        ),
        flat(rows).len() == flat(rows.take(k)).len() + flat(rows.skip(k)).len(),
{
    assert(rows.take(k) + rows.skip(k) =~= rows);
    lemma_flat_add(rows.take(k), rows.skip(k));
    lemma_sum_by_add(flat(rows.take(k)), flat(rows.skip(k)), worth);
}

/// What the purchases of a ledger are worth, the first `n` purchases apart from the
/// rest.
pub proof fn lemma_sum_drop(rows: Seq<RowView>, n: int, worth: spec_fn(PurchaseView) -> int)
    requires
        ledger_wf(rows),
    ensures
        sum_by(flat(rows), worth) == sum_by(take_entries(rows, n), worth) + sum_by(
            flat(drop_entries(rows, n)),
            worth,
        ),
        flat(rows).len() == take_entries(rows, n).len() + flat(drop_entries(rows, n)).len(),
{
    lemma_drop_entries(rows, n);
    lemma_sum_by_add(take_entries(rows, n), flat(drop_entries(rows, n)), worth);
}

/// What a list of instructions moves out, split at place `i`.
pub proof fn lemma_paid_out_split(msgs: Seq<InstructionView>, i: int, denom: Seq<char>)
    requires
        0 <= i < msgs.len(),
    ensures
        paid_out(msgs, denom) == paid_out(msgs.take(i), denom) + pays(msgs[i], denom) + paid_out(
            msgs.skip(i + 1),
            denom,
        ),
{
    assert(msgs =~= msgs.take(i) + seq![msgs[i]] + msgs.skip(i + 1));
    lemma_paid_out_add(msgs.take(i) + seq![msgs[i]], msgs.skip(i + 1), denom);
    lemma_paid_out_add(msgs.take(i), seq![msgs[i]], denom);
    lemma_paid_out_one(msgs[i], denom);
}

/// Adding a coin adds its amount to what the coins hold in its denomination, and
/// nothing in any other.
pub proof fn lemma_total_coin_added(coins: Seq<CoinView>, c: CoinView, denom: Seq<char>)
    requires
        amount_of(coins, c.denom) + c.amount <= u128::MAX,
    ensures
        total_of(coin_added(coins, c), denom) == total_of(coins, denom) + if c.denom == denom {
            c.amount as int
        } else {
            0
        },
    decreases coins.len(),
{
    if coins.len() == 0 {
        lemma_total_of_one(c, denom);
    } else if coins[0].denom == c.denom {
        lemma_total_of_update(
            coins,
            0,
            CoinView { denom: c.denom, amount: (coins[0].amount + c.amount) as u128 },
            denom,
        );
    } else {
        let rest = coins.drop_first();
        lemma_total_coin_added(rest, c, denom);
        assert(seq![coins[0]] + rest =~= coins);
        lemma_total_of_add(seq![coins[0]], rest, denom);
        lemma_total_of_add(seq![coins[0]], coin_added(rest, c), denom);
    }
}

/// Two payments merged hold what both held.
pub proof fn lemma_total_coins_merged(a: Seq<CoinView>, b: Seq<CoinView>, denom: Seq<char>)
    requires
        coins_merged(a, b) is Some,
    ensures
        total_of(coins_merged(a, b)->0, denom) == total_of(a, denom) + total_of(b, denom),
{
    if a.len() > 0 {
        lemma_total_coins_added(a, b, denom);
    }
}

pub proof fn lemma_total_coins_added(a: Seq<CoinView>, b: Seq<CoinView>, denom: Seq<char>)
    requires
        coins_added(a, b) is Some,
    ensures
        total_of(coins_added(a, b)->0, denom) == total_of(a, denom) + total_of(b, denom),
    decreases b.len(),
{
    if b.len() > 0 {
        lemma_total_coins_added(a, b.drop_last(), denom);
        lemma_total_coin_added(coins_added(a, b.drop_last())->0, b.last(), denom);
    }
}

/// Entering a payment into a book adds what it holds to what the book pays out.
pub proof fn lemma_paid_out_booked(book: Seq<PayView>, to: Seq<char>, coins: Seq<CoinView>, denom: Seq<char>)
    requires
        crate::order::ascending(payees(book)),
        booked(book, to, coins) is Some,
    ensures
        paid_out(payments(booked(book, to, coins)->0), denom) == paid_out(payments(book), denom)
            + total_of(coins, denom),
{
    let keys = payees(book);
    let at = rank(keys, to);
    let next = booked(book, to, coins)->0;
    crate::tokens::lemma_rank_splits(keys, to);
    if keys.contains(to) {
        let i = choose|i: int| 0 <= i < keys.len() && keys[i] == to;
        crate::tokens::lemma_rank_of_member(keys, i);
        lemma_total_coins_merged(book[at].coins, coins, denom);
        lemma_paid_out_split(payments(book), at, denom);
        lemma_paid_out_split(payments(next), at, denom);
        assert(payments(next).take(at) =~= payments(book).take(at));
        assert(payments(next).skip(at + 1) =~= payments(book).skip(at + 1));
    } else {
        lemma_paid_out_split(payments(next), at, denom);
        assert(payments(next).take(at) =~= payments(book).take(at));
        assert(payments(next).skip(at + 1) =~= payments(book).skip(at));
        assert(payments(book).take(at) + payments(book).skip(at) =~= payments(book));
        lemma_paid_out_add(payments(book).take(at), payments(book).skip(at), denom);
    }
}

/// The book of a list of instructions has its addresses ascending, and the book and
/// what is no payment together move out what the list moves out.
pub proof fn lemma_merged_pays_the_same(msgs: Seq<InstructionView>, denom: Seq<char>)
    requires
        book_of(msgs) is Some,
    ensures
        crate::order::ascending(payees(book_of(msgs)->0)),
        paid_out(others(msgs), denom) + paid_out(payments(book_of(msgs)->0), denom) == paid_out(
            msgs,
            denom,
        ),
        merged(msgs) is Ok,
        paid_out(merged(msgs)->Ok_0, denom) == paid_out(msgs, denom),
    decreases msgs.len(),
{
    if msgs.len() == 0 {
        assert(payees(Seq::<PayView>::empty()) =~= Seq::<Seq<char>>::empty());
        assert(payments(Seq::<PayView>::empty()) =~= Seq::<InstructionView>::empty());
    } else {
        let rest = msgs.drop_last();
        lemma_merged_pays_the_same(rest, denom);
        let before = book_of(rest)->0;
        match msgs.last() {
            InstructionView::Send { to_address, amount } => {
                assert(book_of(msgs) == booked(before, to_address, amount));
                assert(others(msgs) == others(rest));
                crate::merge::lemma_booked(before, to_address, amount);
                lemma_paid_out_booked(before, to_address, amount, denom);
                assert(pays(msgs.last(), denom) == total_of(amount, denom));
            },
            _ => {
                assert(book_of(msgs) == Some(before));
                assert(others(msgs) == others(rest).push(msgs.last()));
                assert(others(msgs).drop_last() =~= others(rest));
                assert(others(msgs).last() == msgs.last());
            },
        }
    }
    lemma_paid_out_add(others(msgs), payments(book_of(msgs)->0), denom);
}

/// Handing tokens over moves no money.
pub proof fn lemma_transfers_pay_nothing(batch: Seq<PurchaseView>, registry: Seq<char>, denom: Seq<char>)
    ensures
        paid_out(crate::settlement::transfers(batch, registry), denom) == 0,
    decreases batch.len(),
{
    let msgs = crate::settlement::transfers(batch, registry);
    if batch.len() > 0 {
        lemma_transfers_pay_nothing(batch.drop_last(), registry, denom);
        assert(msgs.drop_last() =~= crate::settlement::transfers(batch.drop_last(), registry));
    }
}

/// Releasing tokens moves no money.
pub proof fn lemma_burns_pay_nothing(ids: Seq<Seq<char>>, registry: Seq<char>, denom: Seq<char>)
    ensures
        paid_out(crate::settlement::burn_instructions(ids, registry), denom) == 0,
    decreases ids.len(),
{
    let msgs = crate::settlement::burn_instructions(ids, registry);
    if ids.len() > 0 {
        lemma_burns_pay_nothing(ids.drop_last(), registry, denom);
        assert(msgs.drop_last() =~= crate::settlement::burn_instructions(
            ids.drop_last(),
            registry,
        ));
    }
}

/// A refund moves out what the buyer paid.
pub proof fn lemma_refund_pays_due(purchases: Seq<PurchaseView>, price: CoinView)
    requires
        refund_due(purchases, price.amount) <= u128::MAX,
    ensures
        paid_out(refund_message(purchases, price), price.denom) == refund_due(
            purchases,
            price.amount,
        ),
{
    crate::settlement::lemma_refund_due_nonnegative(purchases, price.amount);
    let msgs = refund_message(purchases, price);
    if msgs.len() > 0 {
        lemma_paid_out_one(msgs[0], price.denom);
        lemma_total_of_one(
            CoinView {
                denom: price.denom,
                amount: refund_due(purchases, price.amount) as u128,
            },
            price.denom,
        );
        assert(msgs =~= seq![msgs[0]]);
    }
}

/// The refunds of rows move out what their buyers paid.
pub proof fn lemma_refunds_pay_due(rows: Seq<RowView>, price: CoinView)
    requires
        crate::settlement::refunds_fit(rows, price.amount),
    ensures
        paid_out(refunds(rows, price), price.denom) == sum_by(flat(rows), paid_for(price.amount)),
    decreases rows.len(),
{
    if rows.len() > 0 {
        let rest = rows.drop_last();
        assert(crate::settlement::refunds_fit(rest, price.amount)) by {
            assert forall|i: int| 0 <= i < rest.len() implies refund_due(
                (#[trigger] rest[i]).purchases,
                price.amount,
            ) <= u128::MAX by {
                assert(rest[i] == rows[i]);
            }
        }
        lemma_refunds_pay_due(rest, price);
        assert(refund_due(rows[rows.len() - 1].purchases, price.amount) <= u128::MAX);
        lemma_refund_pays_due(rows.last().purchases, price);
        lemma_paid_out_add(refunds(rest, price), refund_message(rows.last().purchases, price), price.denom);
        lemma_refund_due_is_sum(rows.last().purchases, price.amount);
        crate::ledger::lemma_flat_push(rest, rows.last());
        assert(rest.push(rows.last()) =~= rows);
        lemma_sum_by_add(flat(rest), rows.last().purchases, paid_for(price.amount));
    }
}

} // verus!
