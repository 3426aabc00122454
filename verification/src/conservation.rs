//! Conservation of funds: what a command takes in is either still held for the sale
//! or moved out by the instructions that the command hands back.

use crate::accounting::{
    distinct_denoms, fees_for, lemma_burns_pay_nothing, lemma_merged_pays_the_same,
    lemma_paid_out_add, lemma_paid_out_one, lemma_plain_fees_paid, lemma_refund_due_is_sum,
    lemma_refund_pays_due, lemma_refunds_pay_due, lemma_side_effects_fees, lemma_sum_by_one,
    lemma_sum_drop, lemma_sum_recorded, lemma_sum_remove, lemma_sum_skip,
    lemma_total_after_deduction, lemma_total_of_one, lemma_transfers_pay_nothing, paid_for,
    paid_out, plain_fee, plain_fees, sum_by, total_of,
};
use crate::coin::{amount_of, covers, deducted, CoinView};
use crate::contract::{
    bought, purchase_by_token_id_outcome, purchase_outcome, surplus_refund, tokens_purchased,
    tokens_wanted, wallet_quota, Outcome,
};
use crate::entry::{execute_outcome, QuerierView};
use crate::laws::{consistent, counted, lemma_purchase_counts};
use crate::ledger::{
    drop_entries, flat, ledger_wf, lemma_flat_nonempty, lemma_recorded, purchases_of, recorded,
    row_keys, take_entries, without_row, PurchaseView, RowView,
};
use crate::merge::merged;
use crate::msg::{EnvView, ExecuteMsg, InfoView, InstructionView};
use crate::rates::{fees_of, tax_of, RatesView};
use crate::settlement::{
    batch_limit, burn_instructions, first, payout, refund_and_release, refund_due,
    refund_message, refunds, side_effects, transfer_and_payout, transfers,
};
use crate::state::{StateView, StoreView};
use crate::tokens::{listing, rank};
use vstd::prelude::*;

verus! {

/// What the contract holds for the sale. While the sale is below its threshold this
/// is what the buyers paid for the purchases that wait, since that is what they
/// would get back. From the threshold on it is what the recipient is owed and what
/// the fee instructions of the purchases that wait will pay.
pub open spec fn held(s: StoreView) -> int {
    match s.state {
        None => 0,
        Some(st) => if st.amount_sold < st.min_tokens_sold {
            sum_by(flat(s.purchases), paid_for(st.price.amount))
        } else {
            st.amount_to_send + sum_by(flat(s.purchases), fees_for())
        },
    }
}

/// The fee instructions recorded in the ledger are fees paid in `denom`.
pub open spec fn rows_plain(rows: Seq<RowView>, denom: Seq<char>) -> bool {
    forall|i: int, j: int|
        0 <= i < rows.len() && 0 <= j < rows[i].purchases.len() ==> plain_fees(
            (#[trigger] rows[i].purchases[j]).msgs,
            denom,
        )
}

/// The fee instructions recorded in the ledger are fees paid in the denomination of
/// the sale.
pub open spec fn ledger_plain(s: StoreView) -> bool {
    s.state is Some ==> rows_plain(s.purchases, s.state->0.price.denom)
}

/// Below the threshold, what the recipient would be owed and what the fees would
/// take make up what the buyers paid.
pub open spec fn balanced(s: StoreView) -> bool {
    s.state is Some && s.state->0.amount_sold < s.state->0.min_tokens_sold ==> s.state->0.amount_to_send
        + sum_by(flat(s.purchases), fees_for()) == sum_by(
        flat(s.purchases),
        paid_for(s.state->0.price.amount),
    )
}

/// The command is a purchase that takes the sale from below its threshold to it or
/// over it.
pub open spec fn lifts(s: StoreView, after: Outcome) -> bool {
    &&& after.result is Ok
    &&& s.state is Some
    &&& after.store.state is Some
    &&& s.state->0.amount_sold < s.state->0.min_tokens_sold
    &&& after.store.state->0.amount_sold >= after.store.state->0.min_tokens_sold
}

/// What the purchases of a ledger are worth after one buyer bought tokens.
pub proof fn lemma_sum_bought(
    rows: Seq<RowView>,
    ids: Seq<Seq<char>>,
    tax: u128,
    msgs: Seq<InstructionView>,
    purchaser: Seq<char>,
    worth: spec_fn(PurchaseView) -> int,
    each: int,
)
    requires
        ledger_wf(rows),
        forall|id: Seq<char>|
            worth(PurchaseView { token_id: id, tax_amount: tax, msgs, purchaser }) == each,
    ensures
        ledger_wf(bought(rows, ids, tax, msgs, purchaser)),
        sum_by(flat(bought(rows, ids, tax, msgs, purchaser)), worth) == sum_by(flat(rows), worth)
            + ids.len() * each,
    decreases ids.len(),
{
    if ids.len() > 0 {
        let before = bought(rows, ids.drop_last(), tax, msgs, purchaser);
        let p = PurchaseView { token_id: ids.last(), tax_amount: tax, msgs, purchaser };
        lemma_sum_bought(rows, ids.drop_last(), tax, msgs, purchaser, worth, each);
        lemma_recorded(before, p);
        lemma_sum_recorded(before, p, worth);
        assert((ids.len() - 1) * each + each == ids.len() * each) by (nonlinear_arith);
    } else {
        assert(0 * each == 0) by (nonlinear_arith);
    }
}

/// The surplus that goes back is what came in less the payment.
pub proof fn lemma_surplus(info: InfoView, required: CoinView)
    requires
        distinct_denoms(info.funds),
        covers(info.funds, required),
    ensures
        paid_out(surplus_refund(info, required), required.denom) == amount_of(
            info.funds,
            required.denom,
        ) - required.amount,
{
    lemma_total_after_deduction(info.funds, required);
    let msgs = surplus_refund(info, required);
    if msgs.len() > 0 {
        assert(msgs =~= seq![msgs[0]]);
        lemma_paid_out_one(msgs[0], required.denom);
    }
}

/// A purchase adds to what is held exactly the payment that it takes.
pub proof fn lemma_purchase_holds_payment(s: StoreView, info: InfoView, rates: RatesView, ids: Seq<Seq<char>>)
    requires
        ledger_wf(s.purchases),
        tokens_purchased(s, info, rates, ids) is Ok,
        s.state->0.amount_sold < s.state->0.min_tokens_sold && tokens_purchased(
            s,
            info,
            rates,
            ids,
        )->Ok_0.1.state->0.amount_sold >= s.state->0.min_tokens_sold ==> balanced(s),
    ensures
        held(tokens_purchased(s, info, rates, ids)->Ok_0.1) == held(s) + tokens_purchased(
            s,
            info,
            rates,
            ids,
        )->Ok_0.0.amount,
        balanced(s) ==> balanced(tokens_purchased(s, info, rates, ids)->Ok_0.1),
{
    let st = s.state->0;
    let (required, after) = tokens_purchased(s, info, rates, ids)->Ok_0;
    let price = st.price.amount;
    let left = rates.remainder.amount;
    let tax = tax_of(rates.msgs, price, left)->Ok_0;
    let n = ids.len() as int;
    let paid = fees_of(rates.msgs);
    lemma_sum_bought(
        s.purchases,
        ids,
        tax,
        rates.msgs,
        info.sender,
        paid_for(price),
        tax + price,
    );
    lemma_sum_bought(s.purchases, ids, tax, rates.msgs, info.sender, fees_for(), paid);
    assert(paid + left == price + tax);
    assert(n * (tax + price) == price * n + tax * n) by (nonlinear_arith);
    assert(left * n + n * paid == price * n + tax * n) by (nonlinear_arith)
        requires
            paid + left == price + tax,
    ;
}

/// The fee instructions of purchases whose fees are plain are plain.
pub proof fn lemma_side_effects_plain(batch: Seq<PurchaseView>, denom: Seq<char>)
    requires
        forall|i: int| 0 <= i < batch.len() ==> plain_fees((#[trigger] batch[i]).msgs, denom),
    ensures
        plain_fees(side_effects(batch), denom),
    decreases batch.len(),
{
    if batch.len() > 0 {
        let rest = batch.drop_last();
        assert forall|i: int| 0 <= i < rest.len() implies plain_fees(
            (#[trigger] rest[i]).msgs,
            denom,
        ) by {
            assert(rest[i] == batch[i]);
        }
        lemma_side_effects_plain(rest, denom);
        let all = side_effects(batch);
        assert(plain_fees(batch[batch.len() - 1].msgs, denom));
        assert forall|i: int| 0 <= i < all.len() implies plain_fee(#[trigger] all[i], denom) by {
            if i < side_effects(rest).len() {
                assert(all[i] == side_effects(rest)[i]);
            } else {
                assert(all[i] == batch.last().msgs[i - side_effects(rest).len()]);
            }
        }
    }
}

/// Where the fees recorded in a ledger are plain, so are those of all its purchases
/// taken in order.
pub proof fn lemma_flat_plain(rows: Seq<RowView>, denom: Seq<char>)
    requires
        rows_plain(rows, denom),
    ensures
        forall|i: int| 0 <= i < flat(rows).len() ==> plain_fees((#[trigger] flat(rows)[i]).msgs, denom),
    decreases rows.len(),
{
    if rows.len() > 0 {
        let rest = rows.drop_first();
        assert(rows_plain(rest, denom)) by {
            assert forall|i: int, j: int|
                0 <= i < rest.len() && 0 <= j < rest[i].purchases.len() implies plain_fees(
                (#[trigger] rest[i].purchases[j]).msgs,
                denom,
            ) by {
                assert(rest[i].purchases[j] == rows[i + 1].purchases[j]);
            }
        }
        lemma_flat_plain(rest, denom);
        assert forall|i: int| 0 <= i < flat(rows).len() implies plain_fees(
            (#[trigger] flat(rows)[i]).msgs,
            denom,
        ) by {
            if i < rows[0].purchases.len() {
                assert(flat(rows)[i] == rows[0].purchases[i]);
            } else {
                assert(flat(rows)[i] == flat(rest)[i - rows[0].purchases.len()]);
            }
        }
    }
}

/// Handing tokens over moves out what the fee instructions of their purchases
/// count for, and takes as much from what is held.
pub proof fn lemma_transfer_conserves(s: StoreView, limit: Option<u32>, owned: Seq<Seq<char>>)
    requires
        consistent(s),
        ledger_plain(s),
        s.state is Some,
        s.state->0.amount_sold >= s.state->0.min_tokens_sold,
        transfer_and_payout(s, limit, owned).result is Ok,
    ensures
        held(transfer_and_payout(s, limit, owned).store) + paid_out(
            transfer_and_payout(s, limit, owned).result->Ok_0.messages,
            s.state->0.price.denom,
        ) == held(s),
{
    let st = s.state->0;
    let denom = st.price.denom;
    let k = batch_limit(limit);
    let after = transfer_and_payout(s, limit, owned);
    let msgs = after.result->Ok_0.messages;
    if st.amount_transferred == st.amount_sold {
        let burns = burn_instructions(first(owned, k), s.config.token_address);
        lemma_paid_out_add(payout(st), burns, denom);
        lemma_burns_pay_nothing(first(owned, k), s.config.token_address, denom);
        if st.amount_to_send > 0 {
            lemma_paid_out_one(payout(st)[0], denom);
            lemma_total_of_one(CoinView { denom, amount: st.amount_to_send }, denom);
            assert(payout(st) =~= seq![payout(st)[0]]);
        }
        lemma_flat_nonempty(s.purchases);
        assert(flat(s.purchases).len() == 0);
        assert(s.purchases.len() == 0);
    } else {
        let batch = take_entries(s.purchases, k);
        let fees = merged(side_effects(batch))->Ok_0;
        lemma_paid_out_add(transfers(batch, s.config.token_address), fees, denom);
        lemma_transfers_pay_nothing(batch, s.config.token_address, denom);
        lemma_merged_pays_the_same(side_effects(batch), denom);
        lemma_flat_plain(s.purchases, denom);
        assert forall|i: int| 0 <= i < batch.len() implies plain_fees(
            (#[trigger] batch[i]).msgs,
            denom,
        ) by {
            assert(batch[i] == flat(s.purchases)[i]);
        }
        lemma_side_effects_plain(batch, denom);
        lemma_plain_fees_paid(side_effects(batch), denom);
        lemma_side_effects_fees(batch);
        lemma_sum_drop(s.purchases, k, fees_for());
    }
}

/// Refunding buyers moves out what they paid, and takes as much from what is held.
pub proof fn lemma_refund_conserves(s: StoreView, limit: Option<u32>, owned: Seq<Seq<char>>)
    requires
        consistent(s),
        s.state is Some,
        s.state->0.amount_sold < s.state->0.min_tokens_sold,
        refund_and_release(s, limit, owned).result is Ok,
    ensures
        held(refund_and_release(s, limit, owned).store) + paid_out(
            refund_and_release(s, limit, owned).result->Ok_0.messages,
            s.state->0.price.denom,
        ) == held(s),
{
    let st = s.state->0;
    let denom = st.price.denom;
    let k = batch_limit(limit);
    let rows = first(s.purchases, k);
    let burns = first(owned, k);
    lemma_paid_out_add(
        refunds(rows, st.price),
        burn_instructions(burns, s.config.token_address),
        denom,
    );
    lemma_burns_pay_nothing(burns, s.config.token_address, denom);
    lemma_refunds_pay_due(rows, st.price);
    lemma_sum_skip(s.purchases, rows.len() as int, paid_for(st.price.amount));
    assert(rows =~= s.purchases.take(rows.len() as int));
    if rows.len() == 0 {
        assert(s.purchases.len() == 0);
        assert(s.purchases.skip(0) =~= s.purchases);
    }
}

/// A refund that a buyer claims moves out what they paid, and takes as much from
/// what is held.
pub proof fn lemma_claim_conserves(s: StoreView, env: EnvView, info: InfoView)
    requires
        consistent(s),
        crate::settlement::claim_refund_outcome(s, env, info).result is Ok,
    ensures
        held(crate::settlement::claim_refund_outcome(s, env, info).store) + paid_out(
            crate::settlement::claim_refund_outcome(s, env, info).result->Ok_0.messages,
            s.state->0.price.denom,
        ) == held(s),
{
    let st = s.state->0;
    let keys = row_keys(s.purchases);
    let mine = purchases_of(s.purchases, info.sender);
    assert(keys.contains(info.sender));
    crate::tokens::lemma_rank_splits(keys, info.sender);
    lemma_sum_remove(s.purchases, rank(keys, info.sender), paid_for(st.price.amount));
    lemma_refund_pays_due(mine, st.price);
    lemma_refund_due_is_sum(mine, st.price.amount);
}

/// Conservation of funds. Where a sale exists and a command succeeds, what is held
/// for the sale after it and what its instructions move out make up what was held
/// before and what came with the call, all in the denomination of the sale.
///
/// This is stated of calls whose funds hold no denomination twice, and of ledgers
/// whose recorded fees are paid in the denomination of the sale. Of a purchase that
/// takes the sale over its threshold it is stated where the books are balanced,
/// which they are from the start of a sale until a refund is paid.
pub proof fn funds_are_conserved(
    s: StoreView,
    querier: QuerierView,
    env: EnvView,
    info: InfoView,
    msg: ExecuteMsg,
)
    requires
        consistent(s),
        s.state is Some,
        ledger_plain(s),
        distinct_denoms(info.funds),
        lifts(s, execute_outcome(s, querier, env, info, msg)) ==> balanced(s),
    ensures
        execute_outcome(s, querier, env, info, msg).result is Ok ==> held(
            execute_outcome(s, querier, env, info, msg).store,
        ) + paid_out(
            execute_outcome(s, querier, env, info, msg).result->Ok_0.messages,
            s.state->0.price.denom,
        ) == held(s) + amount_of(info.funds, s.state->0.price.denom),
{
    let after = execute_outcome(s, querier, env, info, msg);
    let st = s.state->0;
    let denom = st.price.denom;
    if after.result is Ok {
        match msg {
            ExecuteMsg::Mint(mint_msgs) => {},
            ExecuteMsg::StartSale {
                start_time,
                end_time,
                price,
                min_tokens_sold,
                max_amount_per_wallet,
                recipient,
            } => {},
            ExecuteMsg::Purchase { number_of_tokens } => {
                let quota = wallet_quota(st, purchases_of(s.purchases, info.sender).len());
                let wanted = tokens_wanted(number_of_tokens, quota);
                let ids = listing(s.available_tokens, None, wanted);
                let required = tokens_purchased(s, info, querier.rates, ids)->Ok_0.0;
                lemma_purchase_holds_payment(s, info, querier.rates, ids);
                lemma_surplus(info, required);
            },
            ExecuteMsg::PurchaseByTokenId { token_id } => {
                let ids = seq![token_id@];
                let required = tokens_purchased(s, info, querier.rates, ids)->Ok_0.0;
                lemma_purchase_holds_payment(s, info, querier.rates, ids);
                lemma_surplus(info, required);
            },
            ExecuteMsg::ClaimRefund {  } => {
                lemma_claim_conserves(s, env, info);
            },
            ExecuteMsg::EndSale { limit } => {
                if st.amount_sold < st.min_tokens_sold {
                    lemma_refund_conserves(s, limit, querier.tokens);
                } else {
                    lemma_transfer_conserves(s, limit, querier.tokens);
                }
            },
            ExecuteMsg::UpdateTokenContract { address } => {},
        }
    }
}

/// Recording a purchase whose fees are plain keeps the fees of the ledger plain.
pub proof fn lemma_recorded_plain(rows: Seq<RowView>, p: PurchaseView, denom: Seq<char>)
    requires
        ledger_wf(rows),
        rows_plain(rows, denom),
        plain_fees(p.msgs, denom),
    ensures
        rows_plain(recorded(rows, p), denom),
{
    let keys = row_keys(rows);
    let at = rank(keys, p.purchaser);
    let next = recorded(rows, p);
    crate::tokens::lemma_rank_splits(keys, p.purchaser);
    assert forall|i: int, j: int|
        0 <= i < next.len() && 0 <= j < next[i].purchases.len() implies plain_fees(
        (#[trigger] next[i].purchases[j]).msgs,
        denom,
    ) by {
        if keys.contains(p.purchaser) {
            if i != at {
                assert(next[i].purchases[j] == rows[i].purchases[j]);
            } else if j < rows[at].purchases.len() {
                assert(next[i].purchases[j] == rows[at].purchases[j]);
            }
        } else {
            if i < at {
                assert(next[i].purchases[j] == rows[i].purchases[j]);
            } else if i > at {
                assert(next[i].purchases[j] == rows[i - 1].purchases[j]);
            }
        }
    }
}

/// Purchases whose fees are plain keep the fees of the ledger plain.
pub proof fn lemma_bought_plain(
    rows: Seq<RowView>,
    ids: Seq<Seq<char>>,
    tax: u128,
    msgs: Seq<InstructionView>,
    purchaser: Seq<char>,
    denom: Seq<char>,
)
    requires
        ledger_wf(rows),
        rows_plain(rows, denom),
        plain_fees(msgs, denom),
    ensures
        ledger_wf(bought(rows, ids, tax, msgs, purchaser)),
        rows_plain(bought(rows, ids, tax, msgs, purchaser), denom),
    decreases ids.len(),
{
    if ids.len() > 0 {
        let before = bought(rows, ids.drop_last(), tax, msgs, purchaser);
        let p = PurchaseView { token_id: ids.last(), tax_amount: tax, msgs, purchaser };
        lemma_bought_plain(rows, ids.drop_last(), tax, msgs, purchaser, denom);
        lemma_recorded(before, p);
        lemma_recorded_plain(before, p, denom);
    }
}

/// What is left of a ledger after rows or purchases were taken from it has plain
/// fees where the ledger had.
pub proof fn lemma_less_is_plain(rows: Seq<RowView>, denom: Seq<char>, at: int, k: int, n: int)
    requires
        rows_plain(rows, denom),
    ensures
        0 <= at < rows.len() ==> rows_plain(rows.remove(at), denom),
        0 <= k <= rows.len() ==> rows_plain(rows.skip(k), denom),
        rows_plain(drop_entries(rows, n), denom),
    decreases rows.len(),
{
    if 0 <= at < rows.len() {
        let next = rows.remove(at);
        assert forall|i: int, j: int|
            0 <= i < next.len() && 0 <= j < next[i].purchases.len() implies plain_fees(
            (#[trigger] next[i].purchases[j]).msgs,
            denom,
        ) by {
            let i2 = if i < at { i } else { i + 1 };
            assert(next[i].purchases[j] == rows[i2].purchases[j]);
        }
    }
    if 0 <= k <= rows.len() {
        let next = rows.skip(k);
        assert forall|i: int, j: int|
            0 <= i < next.len() && 0 <= j < next[i].purchases.len() implies plain_fees(
            (#[trigger] next[i].purchases[j]).msgs,
            denom,
        ) by {
            assert(next[i].purchases[j] == rows[i + k].purchases[j]);
        }
    }
    let next = drop_entries(rows, n);
    if n <= 0 || rows.len() == 0 {
    } else if rows[0].purchases.len() <= n {
        let rest = rows.drop_first();
        assert(rest =~= rows.skip(1));
        lemma_less_is_plain(rest, denom, 0, 0, n - rows[0].purchases.len());
    } else {
        assert forall|i: int, j: int|
            0 <= i < next.len() && 0 <= j < next[i].purchases.len() implies plain_fees(
            (#[trigger] next[i].purchases[j]).msgs,
            denom,
        ) by {
            if i > 0 {
                assert(next[i].purchases[j] == rows[i].purchases[j]);
            } else {
                assert(next[0].purchases[j] == rows[0].purchases[j + n]);
            }
        }
    }
}

/// The books stay in order. Where every purchase records fees that are paid in the
/// denomination of the sale, the ledger holds such fees only. The books are balanced
/// when a sale starts, and purchases keep them balanced; a refund ends that, since
/// it leaves what the recipient would be owed as it was.
pub proof fn books_are_kept(
    s: StoreView,
    querier: QuerierView,
    env: EnvView,
    info: InfoView,
    msg: ExecuteMsg,
)
    requires
        consistent(s),
        ledger_plain(s),
        s.state is Some ==> plain_fees(querier.rates.msgs, s.state->0.price.denom),
    ensures
        ledger_plain(execute_outcome(s, querier, env, info, msg).store),
        balanced(s) && !(msg is ClaimRefund) && !(msg is EndSale) ==> balanced(
            execute_outcome(s, querier, env, info, msg).store,
        ),
{
    let after = execute_outcome(s, querier, env, info, msg);
    let st = s.state->0;
    if after.result is Ok {
        match msg {
            ExecuteMsg::Mint(mint_msgs) => {},
            ExecuteMsg::StartSale {
                start_time,
                end_time,
                price,
                min_tokens_sold,
                max_amount_per_wallet,
                recipient,
            } => {
                assert(s.purchases.len() == 0);
                assert(flat(s.purchases).len() == 0);
            },
            ExecuteMsg::Purchase { number_of_tokens } => {
                let quota = wallet_quota(st, purchases_of(s.purchases, info.sender).len());
                let wanted = tokens_wanted(number_of_tokens, quota);
                let ids = listing(s.available_tokens, None, wanted);
                let tax = tax_of(querier.rates.msgs, st.price.amount, querier.rates.remainder.amount)->Ok_0;
                lemma_bought_plain(
                    s.purchases,
                    ids,
                    tax,
                    querier.rates.msgs,
                    info.sender,
                    st.price.denom,
                );
                if balanced(s) {
                    lemma_purchase_holds_payment(s, info, querier.rates, ids);
                }
            },
            ExecuteMsg::PurchaseByTokenId { token_id } => {
                let ids = seq![token_id@];
                let tax = tax_of(querier.rates.msgs, st.price.amount, querier.rates.remainder.amount)->Ok_0;
                lemma_bought_plain(
                    s.purchases,
                    ids,
                    tax,
                    querier.rates.msgs,
                    info.sender,
                    st.price.denom,
                );
                if balanced(s) {
                    lemma_purchase_holds_payment(s, info, querier.rates, ids);
                }
            },
            ExecuteMsg::ClaimRefund {  } => {
                let keys = row_keys(s.purchases);
                crate::tokens::lemma_rank_splits(keys, info.sender);
                lemma_less_is_plain(s.purchases, st.price.denom, rank(keys, info.sender), 0, 0);
            },
            ExecuteMsg::EndSale { limit } => {
                let k = batch_limit(limit);
                let rows = first(s.purchases, k);
                lemma_less_is_plain(s.purchases, st.price.denom, 0, rows.len() as int, k);
            },
            ExecuteMsg::UpdateTokenContract { address } => {},
        }
    }
}

/// A call that trades: a purchase, a refund or a settlement step, with what the
/// collaborators answered for it.
pub struct Trade {
    pub querier: QuerierView,
    pub env: EnvView,
    pub info: InfoView,
    pub msg: ExecuteMsg,
}

/// A store with what came in and what went out since the books were opened.
pub struct Books {
    pub store: StoreView,
    pub received: int,
    pub paid: int,
}

/// The block `b` does not come before the block `a`.
pub open spec fn not_before(a: crate::expiration::BlockInfo, b: crate::expiration::BlockInfo) -> bool {
    a.height <= b.height && a.time <= b.time
}

/// The books after a call. A call that fails leaves them as they were: the chain
/// gives its funds back.
pub open spec fn after_trade(b: Books, t: Trade, denom: Seq<char>) -> Books {
    let o = execute_outcome(b.store, t.querier, t.env, t.info, t.msg);
    match o.result {
        Err(_) => b,
        Ok(response) => Books {
            store: o.store,
            received: b.received + amount_of(t.info.funds, denom),
            paid: b.paid + paid_out(response.messages, denom),
        },
    }
}

/// The books after a run of calls.
pub open spec fn after_trades(b: Books, trades: Seq<Trade>, denom: Seq<char>) -> Books
    decreases trades.len(),
{
    if trades.len() == 0 {
        b
    } else {
        after_trade(after_trades(b, trades.drop_last(), denom), trades.last(), denom)
    }
}

/// The calls are purchases, refunds and settlement steps; the funds of none hold a
/// denomination twice; the fee collaborator answers each with fees paid in `denom`;
/// and no call runs in a block before that of the call before it.
pub open spec fn orderly(trades: Seq<Trade>, denom: Seq<char>) -> bool {
    forall|i: int|
        0 <= i < trades.len() ==> {
            let t = #[trigger] trades[i];
            &&& t.msg is Purchase || t.msg is PurchaseByTokenId || t.msg is ClaimRefund
                || t.msg is EndSale
            &&& distinct_denoms(t.info.funds)
            &&& plain_fees(t.querier.rates.msgs, denom)
            &&& i > 0 ==> not_before(trades[i - 1].env.block, t.env.block)
        }
}

/// The books are balanced, or the sale is below its threshold and can take no more
/// purchases: its time is over in `block`, or nothing is left on offer.
pub open spec fn steady(s: StoreView, block: crate::expiration::BlockInfo) -> bool {
    s.state is Some ==> balanced(s) || (s.state->0.amount_sold < s.state->0.min_tokens_sold && (
    s.state->0.end_time.expired(block) || s.available_tokens.len() == 0))
}

/// The store of a sale in which nothing was refunded yet: consistent, with plain
/// fees, the offer counted and the books balanced.
pub open spec fn sound(s: StoreView) -> bool {
    &&& consistent(s)
    &&& ledger_plain(s)
    &&& counted(s)
    &&& balanced(s)
}

/// What has expired stays expired in every later block.
pub proof fn lemma_expired_stays(
    e: crate::expiration::Expiration,
    a: crate::expiration::BlockInfo,
    b: crate::expiration::BlockInfo,
)
    requires
        e.expired(a),
        not_before(a, b),
    ensures
        e.expired(b),
{
}

/// One call of a run keeps the books: the store stays in order, and what is held and
/// what went out make up what was held and what came in.
pub proof fn lemma_trade(s: StoreView, t: Trade, before: crate::expiration::BlockInfo)
    requires
        consistent(s),
        ledger_plain(s),
        counted(s),
        s.state is Some,
        steady(s, before),
        not_before(before, t.env.block),
        t.msg is Purchase || t.msg is PurchaseByTokenId || t.msg is ClaimRefund || t.msg is EndSale,
        distinct_denoms(t.info.funds),
        plain_fees(t.querier.rates.msgs, s.state->0.price.denom),
    ensures
        ({
            let o = execute_outcome(s, t.querier, t.env, t.info, t.msg);
            &&& consistent(o.store)
            &&& ledger_plain(o.store)
            &&& counted(o.store)
            &&& steady(o.store, t.env.block)
            &&& o.store.state is Some ==> o.store.state->0.price.denom == s.state->0.price.denom
            &&& o.result is Ok ==> held(o.store) + paid_out(
                o.result->Ok_0.messages,
                s.state->0.price.denom,
            ) == held(s) + amount_of(t.info.funds, s.state->0.price.denom)
            &&& o.result is Err ==> o.store == s
        }),
{
    let st = s.state->0;
    let o = execute_outcome(s, t.querier, t.env, t.info, t.msg);
    crate::laws::wallet_cap_is_kept(s, t.querier, t.env, t.info, t.msg);
    books_are_kept(s, t.querier, t.env, t.info, t.msg);
    if st.end_time.expired(before) {
        lemma_expired_stays(st.end_time, before, t.env.block);
    }
    if o.result is Ok {
        match t.msg {
            ExecuteMsg::Purchase { number_of_tokens } => {
                let quota = wallet_quota(st, purchases_of(s.purchases, t.info.sender).len());
                let wanted = tokens_wanted(number_of_tokens, quota);
                let ids = listing(s.available_tokens, None, wanted);
                assert(ids.len() > 0);
                assert(balanced(s));
                let n = ids.len() as int;
                assert(ids == s.available_tokens.take(n)) by {
                    assert(s.available_tokens.take(s.available_tokens.len() as int)
                        =~= s.available_tokens);
                }
                lemma_purchase_counts(s, t.info, t.querier.rates, ids);
                funds_are_conserved(s, t.querier, t.env, t.info, t.msg);
            },
            ExecuteMsg::PurchaseByTokenId { token_id } => {
                assert(s.available_tokens.len() > 0);
                assert(balanced(s));
                let ids = seq![token_id@];
                lemma_purchase_counts(s, t.info, t.querier.rates, ids);
                funds_are_conserved(s, t.querier, t.env, t.info, t.msg);
            },
            ExecuteMsg::ClaimRefund {  } => {
                funds_are_conserved(s, t.querier, t.env, t.info, t.msg);
            },
            ExecuteMsg::EndSale { limit } => {
                funds_are_conserved(s, t.querier, t.env, t.info, t.msg);
                let burns = first(t.querier.tokens, batch_limit(limit));
                crate::settlement::lemma_taken(s.available_tokens, burns);
            },
            _ => {},
        }
    }
}

/// A run of calls keeps the books.
pub proof fn lemma_trades(s: StoreView, trades: Seq<Trade>, denom: Seq<char>)
    requires
        sound(s),
        s.state is Some,
        denom == s.state->0.price.denom,
        orderly(trades, denom),
    ensures
        ({
            let b = after_trades(Books { store: s, received: 0, paid: 0 }, trades, denom);
            &&& consistent(b.store)
            &&& ledger_plain(b.store)
            &&& counted(b.store)
            &&& b.store.state is Some ==> b.store.state->0.price.denom == denom
            &&& trades.len() > 0 ==> steady(b.store, trades.last().env.block)
            &&& trades.len() == 0 ==> b.store == s
            &&& held(b.store) + b.paid == held(s) + b.received
        }),
    decreases trades.len(),
{
    if trades.len() > 0 {
        let rest = trades.drop_last();
        let t = trades.last();
        assert(orderly(rest, denom)) by {
            assert forall|i: int| 0 <= i < rest.len() implies {
                let x = #[trigger] rest[i];
                &&& x.msg is Purchase || x.msg is PurchaseByTokenId || x.msg is ClaimRefund
                    || x.msg is EndSale
                &&& distinct_denoms(x.info.funds)
                &&& plain_fees(x.querier.rates.msgs, denom)
                &&& i > 0 ==> not_before(rest[i - 1].env.block, x.env.block)
            } by {
                assert(rest[i] == trades[i]);
                if i > 0 {
                    assert(rest[i - 1] == trades[i - 1]);
                }
            }
        }
        lemma_trades(s, rest, denom);
        let b = after_trades(Books { store: s, received: 0, paid: 0 }, rest, denom);
        assert(trades[trades.len() - 1] == t);
        if b.store.state is Some {
            let before = if rest.len() > 0 {
                rest.last().env.block
            } else {
                t.env.block
            };
            if rest.len() > 0 {
                assert(rest.last() == trades[trades.len() - 2]);
            }
            lemma_trade(b.store, t, before);
        }
    }
}

/// Conservation of funds over a sale. Take a sale in which nothing was refunded yet
/// and any run of purchases, refunds and settlement steps, in blocks that follow
/// one another, paid with funds that hold no denomination twice, with fees paid in
/// the denomination of the sale. At the end, and so at every point on the way, what
/// is held for the sale and what the instructions moved out make up what was held
/// at the start and what came in with the calls that succeeded.
pub proof fn funds_are_conserved_over_a_sale(s: StoreView, trades: Seq<Trade>)
    requires
        sound(s),
        s.state is Some,
        orderly(trades, s.state->0.price.denom),
    ensures
        ({
            let denom = s.state->0.price.denom;
            let b = after_trades(Books { store: s, received: 0, paid: 0 }, trades, denom);
            held(b.store) + b.paid == held(s) + b.received
        }),
{
    lemma_trades(s, trades, s.state->0.price.denom);
}

/// A sale that was just started is sound: nothing has been refunded, and the books
/// are balanced. So is every sale in which there were purchases only.
pub proof fn a_new_sale_is_sound(s: StoreView, terms: crate::msg::StartSaleView)
    requires
        consistent(s),
        s.state is None,
        s.number_of_tokens_available == s.available_tokens.len(),
        crate::contract::sale_started(s, terms) is Ok,
    ensures
        sound(crate::contract::sale_started(s, terms)->Ok_0),
{
    assert(flat(s.purchases).len() == 0);
}

} // verus!
