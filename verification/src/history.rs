//! What holds of every store that a contract can come to, from the moment it is set
//! up, whatever the commands are.
//!
//! Nothing is asked of the store here. What is asked is asked of the surroundings:
//! that blocks follow one another, that the chain hands over funds with no
//! denomination twice, that the fee collaborator is paid in the denomination of the
//! sale, and that the asset registry names a token of the contract while any is on
//! offer.

use crate::accounting::{distinct_denoms, lemma_flat_add, lemma_flat_split, paid_out, plain_fees};
use crate::coin::amount_of;
use crate::conservation::{
    a_new_sale_is_sound, after_trades, books_are_kept, funds_are_conserved,
    funds_are_conserved_over_a_sale, held, ledger_plain, lemma_expired_stays,
    lemma_refund_conserves, lemma_trade, lemma_transfer_conserves, not_before, orderly, steady,
    Books, Trade,
};
use crate::contract::{
    bought, instantiated, sale_started, tokens_purchased, tokens_wanted, wallet_quota,
};
use crate::entry::execute_outcome;
use crate::expiration::BlockInfo;
use crate::handover::{handovers, issued, sends, settling_hands_out_what_the_ledger_holds};
use crate::laws::{
    consistent, instantiate_is_consistent, the_offer_is_counted, wallet_cap, wallet_cap_is_kept,
};
use crate::ledger::{
    drop_entries, flat, ledger_wf, lemma_drop_entries, lemma_recorded, purchases_of, recorded,
    row_keys, take_entries, PurchaseView, RowView,
};
use crate::msg::{
    EnvView, ExecuteMsg, InfoView, InstantiateMsg, InstructionView, StartSaleView,
};
use crate::rates::RatesView;
use crate::settlement::{batch_limit, end_sale_outcome, first};
use crate::settling::{
    after_calls, batch_size_does_not_matter, faithful_run, in_hand, lemma_calls,
    lemma_taken_contains, settled, Call, World,
};
use crate::state::StoreView;
use crate::tokens::{listing, rank};
use vstd::prelude::*;

verus! {

/// The store after a run of commands, each with its call.
pub open spec fn after_commands(s: StoreView, calls: Seq<Trade>) -> StoreView
    decreases calls.len(),
{
    if calls.len() == 0 {
        s
    } else {
        let before = after_commands(s, calls.drop_last());
        let t = calls.last();
        execute_outcome(before, t.querier, t.env, t.info, t.msg).store
    }
}

/// The surroundings deal fairly with a call on the store `s`: the funds hold no
/// denomination twice; where a sale exists, the fee collaborator's answer pays fees
/// in its denomination; and the registry does not answer a settlement step with no
/// token while tokens are on offer.
pub open spec fn fair(s: StoreView, t: Trade) -> bool {
    &&& distinct_denoms(t.info.funds)
    &&& s.state is Some ==> plain_fees(t.querier.rates.msgs, s.state->0.price.denom)
    &&& t.msg is EndSale && t.querier.tokens.len() == 0 ==> s.available_tokens.len() == 0
}

/// The surroundings deal fairly with every call of the run, and no call runs in a
/// block before that of the call before it.
pub open spec fn fair_run(s: StoreView, calls: Seq<Trade>) -> bool
    decreases calls.len(),
{
    calls.len() == 0 || {
        &&& fair_run(s, calls.drop_last())
        &&& fair(after_commands(s, calls.drop_last()), calls.last())
        &&& calls.len() > 1 ==> not_before(calls[calls.len() - 2].env.block, calls.last().env.block)
    }
}

/// The books of the store are kept: it is consistent, the fees recorded in the
/// ledger are paid in the denomination of the sale, as many tokens are counted as on
/// offer as are, and a sale is balanced or can take no more purchases in `block`.
pub open spec fn kept(s: StoreView, block: BlockInfo) -> bool {
    &&& consistent(s)
    &&& ledger_plain(s)
    &&& s.number_of_tokens_available == s.available_tokens.len()
    &&& steady(s, block)
}

/// One command keeps the books, and where a sale exists and the command succeeds,
/// it conserves the funds.
pub proof fn lemma_command(s: StoreView, t: Trade, before: BlockInfo)
    requires
        kept(s, before),
        fair(s, t),
        not_before(before, t.env.block),
    ensures
        kept(execute_outcome(s, t.querier, t.env, t.info, t.msg).store, t.env.block),
        s.state is Some && execute_outcome(s, t.querier, t.env, t.info, t.msg).result is Ok ==> held(
            execute_outcome(s, t.querier, t.env, t.info, t.msg).store,
        ) + paid_out(
            execute_outcome(s, t.querier, t.env, t.info, t.msg).result->Ok_0.messages,
            s.state->0.price.denom,
        ) == held(s) + amount_of(t.info.funds, s.state->0.price.denom),
{
    let o = execute_outcome(s, t.querier, t.env, t.info, t.msg);
    wallet_cap_is_kept(s, t.querier, t.env, t.info, t.msg);
    books_are_kept(s, t.querier, t.env, t.info, t.msg);
    the_offer_is_counted(s, t.querier, t.env, t.info, t.msg);
    if s.state is Some {
        if s.state->0.end_time.expired(before) {
            lemma_expired_stays(s.state->0.end_time, before, t.env.block);
        }
        if t.msg is Purchase || t.msg is PurchaseByTokenId || t.msg is ClaimRefund
            || t.msg is EndSale {
            lemma_trade(s, t, before);
        } else {
            funds_are_conserved(s, t.querier, t.env, t.info, t.msg);
        }
    }
}

/// The books are kept in every store that a contract comes to.
pub proof fn lemma_commands(s: StoreView, calls: Seq<Trade>, block: BlockInfo)
    requires
        kept(s, block),
        s.state is None,
        fair_run(s, calls),
    ensures
        kept(
            after_commands(s, calls),
            if calls.len() > 0 {
                calls.last().env.block
            } else {
                block
            },
        ),
    decreases calls.len(),
{
    if calls.len() > 0 {
        let rest = calls.drop_last();
        lemma_commands(s, rest, block);
        let before = if rest.len() > 0 {
            rest.last().env.block
        } else {
            calls.last().env.block
        };
        if rest.len() > 0 {
            assert(rest.last() == calls[calls.len() - 2]);
        } else {
            assert(after_commands(s, rest) == s);
        }
        lemma_command(after_commands(s, rest), calls.last(), before);
    }
}

/// No wallet ever goes over its cap. Set a contract up and give it any commands,
/// from anyone, with any answers of the collaborators: in the store that it comes
/// to, no buyer has more purchases waiting than one wallet may hold in the sale.
pub proof fn no_wallet_ever_goes_over_its_cap(
    env: EnvView,
    info: InfoView,
    msg: InstantiateMsg,
    calls: Seq<Trade>,
)
    ensures
        consistent(after_commands(instantiated(env, info, msg), calls)),
        wallet_cap(after_commands(instantiated(env, info, msg), calls)),
    decreases calls.len(),
{
    let s = instantiated(env, info, msg);
    instantiate_is_consistent(env, info, msg);
    if calls.len() > 0 {
        let t = calls.last();
        no_wallet_ever_goes_over_its_cap(env, info, msg, calls.drop_last());
        wallet_cap_is_kept(after_commands(s, calls.drop_last()), t.querier, t.env, t.info, t.msg);
    }
}

/// Funds are conserved in every call. Set a contract up and give it any commands,
/// in surroundings that deal fairly with it. Whenever a command then succeeds while
/// a sale exists, what is held for the sale after it and what its instructions move
/// out make up what was held before it and what came with the call, in the
/// denomination of the sale.
pub proof fn funds_are_conserved_in_every_call(
    env: EnvView,
    info: InfoView,
    msg: InstantiateMsg,
    calls: Seq<Trade>,
)
    requires
        calls.len() > 0,
        fair_run(instantiated(env, info, msg), calls),
    ensures
        ({
            let s = after_commands(instantiated(env, info, msg), calls.drop_last());
            let t = calls.last();
            let o = execute_outcome(s, t.querier, t.env, t.info, t.msg);
            s.state is Some && o.result is Ok ==> held(o.store) + paid_out(
                o.result->Ok_0.messages,
                s.state->0.price.denom,
            ) == held(s) + amount_of(t.info.funds, s.state->0.price.denom)
        }),
{
    let s0 = instantiated(env, info, msg);
    let rest = calls.drop_last();
    let t = calls.last();
    instantiate_is_consistent(env, info, msg);
    lemma_commands(s0, rest, t.env.block);
    let before = if rest.len() > 0 {
        rest.last().env.block
    } else {
        t.env.block
    };
    if rest.len() > 0 {
        assert(rest.last() == calls[calls.len() - 2]);
    }
    lemma_command(after_commands(s0, rest), t, before);
}

/// Funds are conserved over every sale. Set a contract up, give it any commands in
/// surroundings that deal fairly with it, and let a sale start on any terms. Then
/// give it any run of purchases, refunds and settlement steps, in blocks that
/// follow one another, paid with funds that hold no denomination twice, with fees
/// paid in the denomination of the sale. At the end, and so at every point on the
/// way, what is held for the sale and what the instructions moved out make up what
/// came in with the calls that succeeded.
pub proof fn funds_are_conserved_over_every_sale(
    env: EnvView,
    info: InfoView,
    msg: InstantiateMsg,
    calls: Seq<Trade>,
    terms: StartSaleView,
    trades: Seq<Trade>,
)
    requires
        fair_run(instantiated(env, info, msg), calls),
        sale_started(after_commands(instantiated(env, info, msg), calls), terms) is Ok,
        orderly(trades, terms.price.denom),
    ensures
        ({
            let s = sale_started(after_commands(instantiated(env, info, msg), calls), terms)->Ok_0;
            let b = after_trades(
                Books { store: s, received: 0, paid: 0 },
                trades,
                terms.price.denom,
            );
            held(b.store) + b.paid == b.received
        }),
{
    let s0 = instantiated(env, info, msg);
    let s = after_commands(s0, calls);
    let opened = sale_started(s, terms)->Ok_0;
    instantiate_is_consistent(env, info, msg);
    lemma_commands(s0, calls, BlockInfo { height: 0, time: 0 });
    a_new_sale_is_sound(s, terms);
    funds_are_conserved_over_a_sale(opened, trades);
    assert(flat(opened.purchases).len() == 0);
}

/// No token that was bought and waits for settlement is on offer.
pub open spec fn sold_is_off_the_offer(s: StoreView) -> bool {
    forall|i: int|
        0 <= i < flat(s.purchases).len() ==> !s.available_tokens.contains(
            (#[trigger] flat(s.purchases)[i]).token_id,
        )
}

/// The purchase `p` is among `purchases`.
pub open spec fn among(p: PurchaseView, purchases: Seq<PurchaseView>) -> bool {
    exists|i: int| 0 <= i < purchases.len() && #[trigger] purchases[i] == p
}

/// Every purchase of `some` is among `all`.
pub open spec fn all_among(some: Seq<PurchaseView>, all: Seq<PurchaseView>) -> bool {
    forall|i: int| 0 <= i < some.len() ==> among(#[trigger] some[i], all)
}

/// What is left of a ledger after a row, the first rows or the first purchases were
/// taken from it holds purchases of the ledger only.
pub proof fn lemma_less_is_among(rows: Seq<RowView>, at: int, k: int, n: int)
    requires
        ledger_wf(rows),
    ensures
        0 <= at < rows.len() ==> all_among(flat(rows.remove(at)), flat(rows)),
        0 <= k <= rows.len() ==> all_among(flat(rows.skip(k)), flat(rows)),
        all_among(flat(drop_entries(rows, n)), flat(rows)),
{
    let all = flat(rows);
    if 0 <= at < rows.len() {
        let less = flat(rows.remove(at));
        let head = flat(rows.take(at));
        lemma_flat_split(rows, at);
        assert(rows.remove(at) =~= rows.take(at) + rows.skip(at + 1));
        lemma_flat_add(rows.take(at), rows.skip(at + 1));
        assert forall|i: int| 0 <= i < less.len() implies among(#[trigger] less[i], all) by {
            if i < head.len() {
                assert(all[i] == less[i]);
            } else {
                assert(all[i + rows[at].purchases.len()] == less[i]);
            }
        }
    }
    if 0 <= k <= rows.len() {
        let less = flat(rows.skip(k));
        let head = flat(rows.take(k));
        assert(rows.take(k) + rows.skip(k) =~= rows);
        lemma_flat_add(rows.take(k), rows.skip(k));
        assert forall|i: int| 0 <= i < less.len() implies among(#[trigger] less[i], all) by {
            assert(all[head.len() + i] == less[i]);
        }
    }
    let less = flat(drop_entries(rows, n));
    let head = take_entries(rows, n);
    lemma_drop_entries(rows, n);
    assert forall|i: int| 0 <= i < less.len() implies among(#[trigger] less[i], all) by {
        assert(all[head.len() + i] == less[i]);
    }
}

/// A ledger with one more purchase holds that purchase and purchases that it held.
pub proof fn lemma_recorded_among(rows: Seq<RowView>, p: PurchaseView)
    requires
        ledger_wf(rows),
    ensures
        forall|i: int|
            0 <= i < flat(recorded(rows, p)).len() ==> (#[trigger] flat(recorded(rows, p))[i]) == p
                || among(flat(recorded(rows, p))[i], flat(rows)),
{
    let keys = row_keys(rows);
    let at = rank(keys, p.purchaser);
    let next = recorded(rows, p);
    let all = flat(rows);
    let more = flat(next);
    crate::tokens::lemma_rank_splits(keys, p.purchaser);
    let head = flat(rows.take(at));
    if keys.contains(p.purchaser) {
        let i = choose|i: int| 0 <= i < keys.len() && keys[i] == p.purchaser;
        crate::tokens::lemma_rank_of_member(keys, i);
        lemma_flat_split(rows, at);
        lemma_flat_split(next, at);
        assert(next.take(at) =~= rows.take(at));
        assert(next.skip(at + 1) =~= rows.skip(at + 1));
        let len = rows[at].purchases.len();
        assert forall|i: int| 0 <= i < more.len() implies (#[trigger] more[i]) == p || among(
            more[i],
            all,
        ) by {
            if i < head.len() + len {
                assert(all[i] == more[i]);
            } else if i > head.len() + len {
                assert(all[i - 1] == more[i]);
            }
        }
    } else {
        lemma_flat_split(next, at);
        assert(next.take(at) =~= rows.take(at));
        assert(next.skip(at + 1) =~= rows.skip(at));
        assert(rows.take(at) + rows.skip(at) =~= rows);
        lemma_flat_add(rows.take(at), rows.skip(at));
        assert forall|i: int| 0 <= i < more.len() implies (#[trigger] more[i]) == p || among(
            more[i],
            all,
        ) by {
            if i < head.len() {
                assert(all[i] == more[i]);
            } else if i > head.len() {
                assert(all[i - 1] == more[i]);
            }
        }
    }
}

/// After a buyer bought tokens the ledger holds purchases of those tokens and
/// purchases that it held.
pub proof fn lemma_bought_among(
    rows: Seq<RowView>,
    ids: Seq<Seq<char>>,
    tax: u128,
    msgs: Seq<InstructionView>,
    purchaser: Seq<char>,
)
    requires
        ledger_wf(rows),
    ensures
        ledger_wf(bought(rows, ids, tax, msgs, purchaser)),
        forall|i: int|
            0 <= i < flat(bought(rows, ids, tax, msgs, purchaser)).len() ==> {
                let e = #[trigger] flat(bought(rows, ids, tax, msgs, purchaser))[i];
                ids.contains(e.token_id) || among(e, flat(rows))
            },
    decreases ids.len(),
{
    if ids.len() > 0 {
        let before = bought(rows, ids.drop_last(), tax, msgs, purchaser);
        let p = PurchaseView { token_id: ids.last(), tax_amount: tax, msgs, purchaser };
        let after = flat(bought(rows, ids, tax, msgs, purchaser));
        lemma_bought_among(rows, ids.drop_last(), tax, msgs, purchaser);
        lemma_recorded(before, p);
        lemma_recorded_among(before, p);
        assert forall|i: int| 0 <= i < after.len() implies {
            let e = #[trigger] after[i];
            ids.contains(e.token_id) || among(e, flat(rows))
        } by {
            let e = after[i];
            if e == p {
                assert(ids[ids.len() - 1] == e.token_id);
            } else {
                let j = choose|j: int| 0 <= j < flat(before).len() && #[trigger] flat(before)[j] == e;
                if ids.drop_last().contains(e.token_id) {
                    let k = choose|k: int|
                        0 <= k < ids.drop_last().len() && ids.drop_last()[k] == e.token_id;
                    assert(ids[k] == e.token_id);
                }
            }
        }
    }
}

/// What is bought leaves the offer, for every command: where no token that waits
/// for settlement is on offer, none is after the command.
pub proof fn sold_stays_off_the_offer(
    s: StoreView,
    querier: crate::entry::QuerierView,
    env: EnvView,
    info: InfoView,
    msg: ExecuteMsg,
)
    requires
        consistent(s),
        sold_is_off_the_offer(s),
    ensures
        sold_is_off_the_offer(execute_outcome(s, querier, env, info, msg).store),
{
    let o = execute_outcome(s, querier, env, info, msg);
    let after = o.store;
    let waits = flat(after.purchases);
    if o.result is Ok {
        match msg {
            ExecuteMsg::Mint(mint_msgs) => {
                assert(s.purchases.len() == 0);
                assert(flat(s.purchases).len() == 0);
            },
            ExecuteMsg::StartSale {
                start_time,
                end_time,
                price,
                min_tokens_sold,
                max_amount_per_wallet,
                recipient,
            } => {},
            ExecuteMsg::Purchase { number_of_tokens } => {
                let st = s.state->0;
                let quota = wallet_quota(st, purchases_of(s.purchases, info.sender).len());
                let ids = listing(s.available_tokens, None, tokens_wanted(number_of_tokens, quota));
                lemma_purchase_keeps_off(s, info, querier.rates, ids);
            },
            ExecuteMsg::PurchaseByTokenId { token_id } => {
                lemma_purchase_keeps_off(s, info, querier.rates, seq![token_id@]);
            },
            ExecuteMsg::ClaimRefund {  } => {
                let keys = row_keys(s.purchases);
                if keys.contains(info.sender) {
                    crate::tokens::lemma_rank_splits(keys, info.sender);
                    lemma_less_is_among(s.purchases, rank(keys, info.sender), 0, 0);
                    assert forall|i: int| 0 <= i < waits.len() implies !after.available_tokens.contains(
                        (#[trigger] waits[i]).token_id,
                    ) by {
                        assert(among(waits[i], flat(s.purchases)));
                    }
                }
            },
            ExecuteMsg::EndSale { limit } => {
                let k = batch_limit(limit);
                let rows = first(s.purchases, k);
                let burns = first(querier.tokens, k);
                lemma_less_is_among(s.purchases, 0, rows.len() as int, k);
                lemma_taken_contains(s.available_tokens, burns);
                assert forall|i: int| 0 <= i < waits.len() implies !after.available_tokens.contains(
                    (#[trigger] waits[i]).token_id,
                ) by {
                    assert(among(waits[i], flat(s.purchases)));
                }
            },
            ExecuteMsg::UpdateTokenContract { address } => {},
        }
    }
}

/// A purchase keeps what waits for settlement off the offer.
pub proof fn lemma_purchase_keeps_off(s: StoreView, info: InfoView, rates: RatesView, ids: Seq<Seq<char>>)
    requires
        consistent(s),
        sold_is_off_the_offer(s),
        tokens_purchased(s, info, rates, ids) is Ok,
    ensures
        sold_is_off_the_offer(tokens_purchased(s, info, rates, ids)->Ok_0.1),
{
    let st = s.state->0;
    let after = tokens_purchased(s, info, rates, ids)->Ok_0.1;
    let tax = crate::rates::tax_of(rates.msgs, st.price.amount, rates.remainder.amount)->Ok_0;
    let waits = flat(after.purchases);
    lemma_bought_among(s.purchases, ids, tax, rates.msgs, info.sender);
    lemma_taken_contains(s.available_tokens, ids);
    assert forall|i: int| 0 <= i < waits.len() implies !after.available_tokens.contains(
        (#[trigger] waits[i]).token_id,
    ) by {
        let e = waits[i];
        if !ids.contains(e.token_id) {
            assert(among(e, flat(s.purchases)));
        }
    }
}

/// In every store that a contract comes to, no token that waits for settlement is on
/// offer.
pub proof fn sold_is_always_off_the_offer(
    env: EnvView,
    info: InfoView,
    msg: InstantiateMsg,
    calls: Seq<Trade>,
)
    ensures
        sold_is_off_the_offer(after_commands(instantiated(env, info, msg), calls)),
    decreases calls.len(),
{
    let s = instantiated(env, info, msg);
    if calls.len() > 0 {
        let t = calls.last();
        sold_is_always_off_the_offer(env, info, msg, calls.drop_last());
        no_wallet_ever_goes_over_its_cap(env, info, msg, calls.drop_last());
        sold_stays_off_the_offer(after_commands(s, calls.drop_last()), t.querier, t.env, t.info, t.msg);
    } else {
        assert(flat(s.purchases).len() == 0);
    }
}

/// What the calls of a settlement run moved out of the contract in `denom`.
pub open spec fn paid_in_settling(w: World, calls: Seq<Call>, denom: Seq<char>) -> int
    decreases calls.len(),
{
    if calls.len() == 0 {
        0
    } else {
        let before = after_calls(w, calls.drop_last());
        let c = calls.last();
        paid_in_settling(w, calls.drop_last(), denom) + match end_sale_outcome(
            before.store,
            c.env,
            c.info,
            c.limit,
            c.owned,
        ).result {
            Ok(response) => paid_out(response.messages, denom),
            Err(_) => 0,
        }
    }
}

/// Settling pays out what is held, whatever the batches are. At every point of a
/// run of settlement calls, what is still held for the sale and what the calls have
/// moved out make up what was held at the start; and while a sale is left, it is
/// the sale that was there, at its price.
pub proof fn settling_pays_out_what_is_held(w: World, calls: Seq<Call>)
    requires
        in_hand(w),
        w.store.state is Some,
        faithful_run(w, calls),
    ensures
        held(after_calls(w, calls).store) + paid_in_settling(
            w,
            calls,
            w.store.state->0.price.denom,
        ) == held(w.store),
        after_calls(w, calls).store.state is Some ==> after_calls(w, calls).store.state->0.price
            == w.store.state->0.price,
    decreases calls.len(),
{
    if calls.len() > 0 {
        let before = after_calls(w, calls.drop_last());
        let c = calls.last();
        let s = before.store;
        settling_pays_out_what_is_held(w, calls.drop_last());
        lemma_calls(w, calls.drop_last());
        if s.state is Some && end_sale_outcome(s, c.env, c.info, c.limit, c.owned).result is Ok {
            if s.state->0.amount_sold < s.state->0.min_tokens_sold {
                lemma_refund_conserves(s, c.limit, c.owned);
            } else {
                lemma_transfer_conserves(s, c.limit, c.owned);
            }
        }
    }
}

/// Batch size does not matter, for any sale. Set a contract up and give it any
/// commands, in surroundings that deal fairly with it, until a sale exists. Let the
/// contract own every token that is on offer, and settle the sale in two ways, each
/// a run of calls with any limits, in which the registry answers truly. If both
/// runs end with no sale left, they end in the same store, with no purchase waiting
/// and nothing on offer; both have moved out the same sum, what was held for the
/// sale; and both have handed over the same tokens and paid the same refunds, those
/// of the ledger, in its order.
pub proof fn batch_size_does_not_matter_for_any_sale(
    env: EnvView,
    info: InfoView,
    msg: InstantiateMsg,
    calls: Seq<Trade>,
    registry: Set<Seq<char>>,
    one: Seq<Call>,
    other: Seq<Call>,
)
    requires
        fair_run(instantiated(env, info, msg), calls),
        after_commands(instantiated(env, info, msg), calls).state is Some,
        forall|t: Seq<char>|
            after_commands(instantiated(env, info, msg), calls).available_tokens.contains(t)
                ==> registry.contains(t),
        ({
            let w = World { store: after_commands(instantiated(env, info, msg), calls), registry };
            &&& faithful_run(w, one)
            &&& faithful_run(w, other)
            &&& after_calls(w, one).store.state is None
            &&& after_calls(w, other).store.state is None
        }),
    ensures
        ({
            let w = World { store: after_commands(instantiated(env, info, msg), calls), registry };
            let denom = w.store.state->0.price.denom;
            &&& after_calls(w, one).store == after_calls(w, other).store
            &&& after_calls(w, one).store == settled(w.store)
            &&& paid_in_settling(w, one, denom) == held(w.store)
            &&& paid_in_settling(w, other, denom) == held(w.store)
            &&& handovers(issued(w, one)) == handovers(issued(w, other))
            &&& w.store.state->0.amount_sold < w.store.state->0.min_tokens_sold ==> sends(
                issued(w, one),
            ) == sends(issued(w, other))
        }),
{
    let s0 = instantiated(env, info, msg);
    let w = World { store: after_commands(s0, calls), registry };
    instantiate_is_consistent(env, info, msg);
    lemma_commands(s0, calls, BlockInfo { height: 0, time: 0 });
    sold_is_always_off_the_offer(env, info, msg, calls);
    batch_size_does_not_matter(w, one, other);
    settling_pays_out_what_is_held(w, one);
    settling_pays_out_what_is_held(w, other);
    settling_hands_out_what_the_ledger_holds(w, one);
    settling_hands_out_what_the_ledger_holds(w, other);
}

} // verus!
