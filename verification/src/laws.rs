//! What holds of every store that commands have made, and of every command.

use crate::contract::{
    bought, buy_outcome, instantiated, lemma_bought_taken, lemma_offered_grows, mint_outcome,
    purchase_by_token_id_outcome, purchase_outcome, sale_open, start_sale_outcome, taken,
    tokens_purchased, tokens_wanted, wallet_quota, Outcome,
};
use crate::entry::{execute_outcome, update_token_contract_outcome, QuerierView};
use crate::error::ContractError;
use crate::ledger::{
    drop_entries, flat, ledger_wf, lemma_drop_entries, lemma_flat_nonempty, lemma_recorded,
    lemma_wf_drop_first, lemma_without_row, purchases_of, recorded, rows_within, take_entries,
    without_row, PurchaseView, RowView,
};
use crate::msg::{EnvView, ExecuteMsg, InfoView, InstantiateMsg, InstructionView};
use crate::order::ascending;
use crate::rates::RatesView;
use crate::settlement::{
    batch_limit, claim_refund_outcome, end_sale_outcome, first, lemma_taken, refund_and_release,
    transfer_and_payout,
};
use crate::state::{StateView, StoreView};
use crate::tokens::listing;
use vstd::prelude::*;

verus! {

/// No buyer has more purchases waiting than one wallet may hold in the sale.
pub open spec fn wallet_cap(s: StoreView) -> bool {
    s.state is Some ==> rows_within(s.purchases, s.state->0.max_amount_per_wallet as int)
}

/// The ledger holds no more purchases than tokens were sold and not yet handed over;
/// without a sale it holds none.
pub open spec fn ledger_accounted(s: StoreView) -> bool {
    match s.state {
        None => s.purchases.len() == 0,
        Some(st) => flat(s.purchases).len() <= st.amount_sold - st.amount_transferred,
    }
}

/// What holds of the store of every contract, from the moment it is set up: the
/// ledger and the offer are in order, no wallet is over its cap, and the ledger is
/// accounted for.
pub open spec fn consistent(s: StoreView) -> bool {
    &&& ledger_wf(s.purchases)
    &&& ascending(s.available_tokens)
    &&& wallet_cap(s)
    &&& ledger_accounted(s)
}

/// The ledger after one buyer bought tokens: well-formed, within any cap that has
/// room for what the buyer now holds, and longer by the tokens bought.
pub proof fn lemma_bought(
    rows: Seq<RowView>,
    ids: Seq<Seq<char>>,
    tax: u128,
    msgs: Seq<InstructionView>,
    purchaser: Seq<char>,
    cap: int,
)
    requires
        ledger_wf(rows),
        rows_within(rows, cap),
        purchases_of(rows, purchaser).len() + ids.len() <= cap,
    ensures
        ledger_wf(bought(rows, ids, tax, msgs, purchaser)),
        rows_within(bought(rows, ids, tax, msgs, purchaser), cap),
        purchases_of(bought(rows, ids, tax, msgs, purchaser), purchaser).len() == purchases_of(
            rows,
            purchaser,
        ).len() + ids.len(),
        flat(bought(rows, ids, tax, msgs, purchaser)).len() == flat(rows).len() + ids.len(),
    decreases ids.len(),
{
    if ids.len() > 0 {
        let before = bought(rows, ids.drop_last(), tax, msgs, purchaser);
        let p = PurchaseView { token_id: ids.last(), tax_amount: tax, msgs, purchaser };
        lemma_bought(rows, ids.drop_last(), tax, msgs, purchaser, cap);
        lemma_recorded(before, p);
        assert(rows_within(recorded(before, p), cap));
        crate::accounting::lemma_sum_recorded(before, p, |x: PurchaseView| 0int);
    }
}

/// Without its first rows a well-formed ledger is well-formed, and within any cap
/// that it was within.
pub proof fn lemma_skip_rows(rows: Seq<RowView>, k: int)
    requires
        ledger_wf(rows),
        0 <= k <= rows.len(),
    ensures
        ledger_wf(rows.skip(k)),
        forall|cap: int| rows_within(rows, cap) ==> #[trigger] rows_within(rows.skip(k), cap),
        flat(rows.skip(k)).len() <= flat(rows).len(),
    decreases k,
{
    if k == 0 {
        assert(rows.skip(0) =~= rows);
    } else {
        lemma_skip_rows(rows, k - 1);
        let before = rows.skip(k - 1);
        lemma_wf_drop_first(before);
        assert(before.drop_first() =~= rows.skip(k));
        assert forall|cap: int| rows_within(rows, cap) implies #[trigger] rows_within(
            rows.skip(k),
            cap,
        ) by {
            assert forall|i: int| 0 <= i < rows.skip(k).len() implies (
            #[trigger] rows.skip(k)[i]).purchases.len() <= cap by {
                assert(rows.skip(k)[i] == rows[i + k]);
            }
        }
        crate::ledger::lemma_flat_len(before);
    }
}

/// A contract that was just set up is consistent.
pub proof fn instantiate_is_consistent(env: EnvView, info: InfoView, msg: InstantiateMsg)
    ensures
        consistent(instantiated(env, info, msg)),
{
    let s = instantiated(env, info, msg);
    assert(crate::ledger::row_keys(s.purchases) =~= Seq::<Seq<char>>::empty());
}

/// Buying keeps the store consistent, where no more tokens are bought than the
/// buyer's wallet has room for.
pub proof fn lemma_buy_keeps(s: StoreView, info: InfoView, rates: RatesView, ids: Seq<Seq<char>>)
    requires
        consistent(s),
        s.state is Some,
        ids.len() <= wallet_quota(s.state->0, purchases_of(s.purchases, info.sender).len()),
    ensures
        tokens_purchased(s, info, rates, ids) is Ok ==> consistent(
            tokens_purchased(s, info, rates, ids)->Ok_0.1,
        ),
{
    let st = s.state->0;
    match tokens_purchased(s, info, rates, ids) {
        Ok((required, after)) => {
            let tax = crate::rates::tax_of(rates.msgs, st.price.amount, rates.remainder.amount)->Ok_0;
            lemma_bought(
                s.purchases,
                ids,
                tax,
                rates.msgs,
                info.sender,
                st.max_amount_per_wallet as int,
            );
            lemma_bought_taken(s.purchases, s.available_tokens, ids, tax, rates.msgs, info.sender);
        },
        Err(_) => {},
    }
}

/// A settlement step of a sale that missed its threshold keeps the store consistent.
pub proof fn lemma_refund_and_release_keeps(s: StoreView, limit: Option<u32>, owned: Seq<Seq<char>>)
    requires
        consistent(s),
        s.state is Some,
    ensures
        consistent(refund_and_release(s, limit, owned).store),
{
    let k = batch_limit(limit);
    let rows = first(s.purchases, k);
    let burns = first(owned, k);
    if refund_and_release(s, limit, owned).result is Ok {
        lemma_skip_rows(s.purchases, rows.len() as int);
        lemma_taken(s.available_tokens, burns);
        if rows.len() == 0 {
            assert(s.purchases.len() == 0);
            assert(s.purchases.skip(0) =~= s.purchases);
        }
    }
}

/// A settlement step of a sale that reached its threshold keeps the store
/// consistent.
pub proof fn lemma_transfer_and_payout_keeps(s: StoreView, limit: Option<u32>, owned: Seq<Seq<char>>)
    requires
        consistent(s),
        s.state is Some,
    ensures
        consistent(transfer_and_payout(s, limit, owned).store),
{
    let st = s.state->0;
    let k = batch_limit(limit);
    if transfer_and_payout(s, limit, owned).result is Ok {
        if st.amount_transferred == st.amount_sold {
            lemma_taken(s.available_tokens, first(owned, k));
            lemma_flat_nonempty(s.purchases);
        } else {
            lemma_drop_entries(s.purchases, k);
            crate::accounting::lemma_sum_drop(s.purchases, k, |x: PurchaseView| 0int);
        }
    }
}

/// Whatever the command, it leaves a consistent store consistent. In particular no
/// buyer ever has more purchases waiting than one wallet may hold.
pub proof fn wallet_cap_is_kept(
    s: StoreView,
    querier: QuerierView,
    env: EnvView,
    info: InfoView,
    msg: ExecuteMsg,
)
    requires
        consistent(s),
    ensures
        consistent(execute_outcome(s, querier, env, info, msg).store),
        wallet_cap(execute_outcome(s, querier, env, info, msg).store),
{
    let after = execute_outcome(s, querier, env, info, msg);
    if after.result is Ok {
        match msg {
            ExecuteMsg::Mint(mint_msgs) => {
                lemma_offered_grows(
                    s.available_tokens,
                    mint_msgs.deep_view(),
                    env.contract_address,
                );
            },
            ExecuteMsg::StartSale {
                start_time,
                end_time,
                price,
                min_tokens_sold,
                max_amount_per_wallet,
                recipient,
            } => {
                assert(s.purchases.len() == 0);
                assert(flat(s.purchases).len() == 0);
            },
            ExecuteMsg::Purchase { number_of_tokens } => {
                let st = s.state->0;
                let quota = wallet_quota(st, purchases_of(s.purchases, info.sender).len());
                let wanted = tokens_wanted(number_of_tokens, quota);
                let ids = listing(s.available_tokens, None, wanted);
                lemma_buy_keeps(s, info, querier.rates, ids);
            },
            ExecuteMsg::PurchaseByTokenId { token_id } => {
                lemma_buy_keeps(s, info, querier.rates, seq![token_id@]);
            },
            ExecuteMsg::ClaimRefund {  } => {
                lemma_without_row(s.purchases, info.sender);
                let keys = crate::ledger::row_keys(s.purchases);
                if keys.contains(info.sender) {
                    crate::tokens::lemma_rank_splits(keys, info.sender);
                    crate::accounting::lemma_sum_remove(
                        s.purchases,
                        crate::tokens::rank(keys, info.sender),
                        |x: PurchaseView| 0int,
                    );
                }
            },
            ExecuteMsg::EndSale { limit } => {
                if s.state->0.amount_sold < s.state->0.min_tokens_sold {
                    lemma_refund_and_release_keeps(s, limit, querier.tokens);
                } else {
                    lemma_transfer_and_payout_keeps(s, limit, querier.tokens);
                }
            },
            ExecuteMsg::UpdateTokenContract { address } => {},
        }
    }
}

/// While a sale exists, as many tokens are counted as on offer as are.
pub open spec fn counted(s: StoreView) -> bool {
    s.state is Some ==> s.number_of_tokens_available == s.available_tokens.len()
}

/// Taking the first tokens of the offer off it leaves the offer shorter by as many.
pub proof fn lemma_taken_listing(tokens: Seq<Seq<char>>, n: int)
    requires
        ascending(tokens),
        0 <= n <= tokens.len(),
    ensures
        taken(tokens, tokens.take(n)) == tokens.skip(n),
    decreases n,
{
    if n > 0 {
        let ids = tokens.take(n);
        lemma_taken_listing(tokens, n - 1);
        assert(ids.drop_last() =~= tokens.take(n - 1));
        let before = tokens.skip(n - 1);
        assert forall|i: int, j: int| 0 <= i < j < before.len() implies crate::order::key_lt(
            before[i],
            before[j],
        ) by {
            assert(crate::order::key_lt(tokens[i + n - 1], tokens[j + n - 1]));
        }
        assert(before[0] == ids.last());
        crate::tokens::lemma_rank_of_member(before, 0);
        assert(before.remove(0) =~= tokens.skip(n));
    } else {
        assert(tokens.skip(0) =~= tokens);
    }
}

/// A purchase keeps the offer counted.
pub proof fn lemma_purchase_counts(s: StoreView, info: InfoView, rates: RatesView, ids: Seq<Seq<char>>)
    requires
        consistent(s),
        counted(s),
        tokens_purchased(s, info, rates, ids) is Ok,
        ids == seq![ids[0]] && s.available_tokens.contains(ids[0]) || exists|n: int|
            0 <= n <= s.available_tokens.len() && ids == s.available_tokens.take(n),
    ensures
        counted(tokens_purchased(s, info, rates, ids)->Ok_0.1),
{
    if ids == seq![ids[0]] && s.available_tokens.contains(ids[0]) {
        assert(ids.drop_last() =~= Seq::<Seq<char>>::empty());
        assert(taken(s.available_tokens, ids.drop_last()) == s.available_tokens);
        crate::tokens::lemma_without_key(s.available_tokens, ids[0]);
    } else {
        let n = choose|n: int|
            0 <= n <= s.available_tokens.len() && ids == s.available_tokens.take(n);
        lemma_taken_listing(s.available_tokens, n);
    }
}

/// The offer is counted. Where as many tokens are counted as on offer as are, the
/// same holds after every command, as long as the registry names a token while any
/// is on offer.
pub proof fn the_offer_is_counted(
    s: StoreView,
    querier: QuerierView,
    env: EnvView,
    info: InfoView,
    msg: ExecuteMsg,
)
    requires
        consistent(s),
        s.number_of_tokens_available == s.available_tokens.len(),
        msg is EndSale && querier.tokens.len() == 0 ==> s.available_tokens.len() == 0,
    ensures
        ({
            let after = execute_outcome(s, querier, env, info, msg).store;
            after.number_of_tokens_available == after.available_tokens.len()
        }),
{
    let after = execute_outcome(s, querier, env, info, msg);
    if after.result is Ok {
        match msg {
            ExecuteMsg::Mint(mint_msgs) => {
                lemma_offered_grows(
                    s.available_tokens,
                    mint_msgs.deep_view(),
                    env.contract_address,
                );
            },
            ExecuteMsg::Purchase { number_of_tokens } => {
                let st = s.state->0;
                let quota = wallet_quota(st, purchases_of(s.purchases, info.sender).len());
                let wanted = tokens_wanted(number_of_tokens, quota);
                let ids = listing(s.available_tokens, None, wanted);
                let n = ids.len() as int;
                assert(ids == s.available_tokens.take(n)) by {
                    assert(s.available_tokens.take(s.available_tokens.len() as int)
                        =~= s.available_tokens);
                }
                lemma_purchase_counts(s, info, querier.rates, ids);
            },
            ExecuteMsg::PurchaseByTokenId { token_id } => {
                lemma_purchase_counts(s, info, querier.rates, seq![token_id@]);
            },
            ExecuteMsg::EndSale { limit } => {
                let burns = first(querier.tokens, batch_limit(limit));
                lemma_taken(s.available_tokens, burns);
            },
            _ => {},
        }
    }
}

/// The fee collaborator's answer matters only where it is read. A command that does
/// not read it comes to the same whatever the answer is, so the collaborator need
/// not be asked for it.
pub proof fn rates_matter_only_where_read(
    s: StoreView,
    one: QuerierView,
    other: QuerierView,
    env: EnvView,
    info: InfoView,
    msg: ExecuteMsg,
)
    requires
        !crate::entry::reads_rates(s, env, info, msg),
        one.tokens == other.tokens,
        one.is_registry == other.is_registry,
    ensures
        execute_outcome(s, one, env, info, msg) == execute_outcome(s, other, env, info, msg),
{
}

/// The asset registry's answer matters only as far as it is read. A command comes to
/// the same for two answers that agree in the tokens that it reads, so the registry
/// need be asked for no more, and not at all where the command reads none.
pub proof fn tokens_matter_only_as_far_as_read(
    s: StoreView,
    one: QuerierView,
    other: QuerierView,
    env: EnvView,
    info: InfoView,
    msg: ExecuteMsg,
)
    requires
        one.rates == other.rates,
        one.is_registry == other.is_registry,
        first(one.tokens, crate::entry::reads_tokens(s, env, info, msg)) == first(
            other.tokens,
            crate::entry::reads_tokens(s, env, info, msg),
        ),
    ensures
        execute_outcome(s, one, env, info, msg) == execute_outcome(s, other, env, info, msg),
{
}

/// Once no sale is left, settling and claiming refunds fail for want of a sale, and
/// change nothing.
pub proof fn settled_sale_stays_settled(
    s: StoreView,
    env: EnvView,
    info: InfoView,
    limit: Option<u32>,
    owned: Seq<Seq<char>>,
)
    requires
        s.state is None,
    ensures
        end_sale_outcome(s, env, info, limit, owned) == (Outcome {
            result: Err(ContractError::NoOngoingSale),
            store: s,
        }),
        claim_refund_outcome(s, env, info) == (Outcome {
            result: Err(ContractError::NoOngoingSale),
            store: s,
        }),
{
}

} // verus!
