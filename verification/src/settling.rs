//! Settling in batches comes to the same end whatever the batches are.
//!
//! A sale is settled by calls that each take a limit and the asset registry's answer
//! to the question which tokens the contract owns. Here the registry is part of the
//! picture: it holds the tokens of the contract, and loses a token when an
//! instruction hands it to a buyer or destroys it.

use crate::accounting::{plain_fee, plain_fees};
use crate::conservation::{
    ledger_plain, lemma_flat_plain, lemma_less_is_plain, lemma_side_effects_plain, rows_plain,
};
use crate::contract::{taken, Outcome};
use crate::laws::{
    consistent, lemma_refund_and_release_keeps, lemma_transfer_and_payout_keeps,
};
use crate::ledger::{
    drop_entries, flat, lemma_drop_entries, lemma_flat_nonempty, take_entries, PurchaseView,
    RowView,
};
use crate::merge::{book_of, merged, others, payments};
use crate::msg::{EnvView, InfoView, InstructionView};
use crate::order::ascending;
use crate::settlement::{
    batch_limit, burn_instructions, cleared, end_sale_outcome, first, payout, refund_and_release,
    refund_message, refunds, side_effects, transfer_and_payout, transfers,
};
use crate::state::StoreView;
use crate::tokens::without_key;
use vstd::prelude::*;

verus! {

/// A call that settles: when and by whom, the limit, and what the registry answered.
pub struct Call {
    pub env: EnvView,
    pub info: InfoView,
    pub limit: Option<u32>,
    pub owned: Seq<Seq<char>>,
}

/// The contract and the tokens that the asset registry holds for it.
pub struct World {
    pub store: StoreView,
    pub registry: Set<Seq<char>>,
}

/// The instruction takes the token `token` out of the contract's hands.
pub open spec fn gives_away(msg: InstructionView, token: Seq<char>) -> bool {
    match msg {
        InstructionView::Burn { contract_addr, token_id } => token_id == token,
        InstructionView::TransferNft { contract_addr, recipient, token_id } => token_id == token,
        _ => false,
    }
}

/// One of the instructions takes the token `token` out of the contract's hands.
pub open spec fn given_away(msgs: Seq<InstructionView>, token: Seq<char>) -> bool {
    exists|i: int| 0 <= i < msgs.len() && gives_away(#[trigger] msgs[i], token)
}

/// The registry answered truly: it named tokens of the contract only, and named
/// none only where the contract has none.
pub open spec fn faithful(owned: Seq<Seq<char>>, registry: Set<Seq<char>>) -> bool {
    &&& forall|i: int| 0 <= i < owned.len() ==> registry.contains(#[trigger] owned[i])
    &&& owned.len() == 0 ==> forall|t: Seq<char>| !registry.contains(t)
}

/// The world after a call, once the chain has carried its instructions out.
pub open spec fn after_call(w: World, c: Call) -> World {
    let o = end_sale_outcome(w.store, c.env, c.info, c.limit, c.owned);
    match o.result {
        Err(_) => w,
        Ok(response) => World {
            store: o.store,
            registry: Set::new(
                |t: Seq<char>| w.registry.contains(t) && !given_away(response.messages, t),
            ),
        },
    }
}

/// The world after a run of calls.
pub open spec fn after_calls(w: World, calls: Seq<Call>) -> World
    decreases calls.len(),
{
    if calls.len() == 0 {
        w
    } else {
        after_call(after_calls(w, calls.drop_last()), calls.last())
    }
}

/// In every call of the run the registry answered truly for the world of that call.
pub open spec fn faithful_run(w: World, calls: Seq<Call>) -> bool
    decreases calls.len(),
{
    calls.len() == 0 || (faithful_run(w, calls.drop_last()) && faithful(
        calls.last().owned,
        after_calls(w, calls.drop_last()).registry,
    ))
}

/// The store and the registry fit together: the store is consistent and records
/// plain fees only, the contract owns every token that is on offer, and no token
/// that was bought is on offer.
pub open spec fn in_hand(w: World) -> bool {
    &&& consistent(w.store)
    &&& ledger_plain(w.store)
    &&& forall|t: Seq<char>| w.store.available_tokens.contains(t) ==> w.registry.contains(t)
    &&& forall|i: int|
        0 <= i < flat(w.store.purchases).len() ==> !w.store.available_tokens.contains(
            (#[trigger] flat(w.store.purchases)[i]).token_id,
        )
}

/// The store of a sale that is settled for good: no sale, no purchase waiting,
/// nothing on offer.
pub open spec fn settled(s: StoreView) -> StoreView {
    StoreView {
        state: None,
        number_of_tokens_available: 0,
        purchases: Seq::empty(),
        available_tokens: Seq::empty(),
        ..s
    }
}

/// What is on offer after tokens were taken off it: what was on offer and is not
/// among them.
pub proof fn lemma_taken_contains(tokens: Seq<Seq<char>>, ids: Seq<Seq<char>>)
    requires
        ascending(tokens),
    ensures
        ascending(taken(tokens, ids)),
        forall|x: Seq<char>|
            taken(tokens, ids).contains(x) <==> (tokens.contains(x) && !ids.contains(x)),
    decreases ids.len(),
{
    if ids.len() > 0 {
        let rest = ids.drop_last();
        lemma_taken_contains(tokens, rest);
        crate::tokens::lemma_without_key(taken(tokens, rest), ids.last());
        assert forall|x: Seq<char>| taken(tokens, ids).contains(x) <==> (tokens.contains(x)
            && !ids.contains(x)) by {
            if ids.contains(x) {
                let i = choose|i: int| 0 <= i < ids.len() && ids[i] == x;
                if i < ids.len() - 1 {
                    assert(rest[i] == x);
                }
            }
            if rest.contains(x) {
                let i = choose|i: int| 0 <= i < rest.len() && rest[i] == x;
                assert(ids[i] == x);
            }
            assert(ids[ids.len() - 1] == ids.last());
        }
    }
}

pub proof fn lemma_given_away_add(a: Seq<InstructionView>, b: Seq<InstructionView>, t: Seq<char>)
    ensures
        given_away(a + b, t) <==> (given_away(a, t) || given_away(b, t)),
{
    let ab = a + b;
    if given_away(ab, t) {
        let i = choose|i: int| 0 <= i < ab.len() && gives_away(#[trigger] ab[i], t);
        if i < a.len() {
            assert(gives_away(a[i], t));
        } else {
            assert(gives_away(b[i - a.len()], t));
        }
    }
    if given_away(a, t) {
        let i = choose|i: int| 0 <= i < a.len() && gives_away(#[trigger] a[i], t);
        assert(gives_away(ab[i], t));
    }
    if given_away(b, t) {
        let i = choose|i: int| 0 <= i < b.len() && gives_away(#[trigger] b[i], t);
        assert(gives_away(ab[a.len() + i], t));
    }
}

/// Releasing tokens gives exactly those tokens away.
pub proof fn lemma_burns_give_away(ids: Seq<Seq<char>>, registry: Seq<char>, t: Seq<char>)
    ensures
        given_away(burn_instructions(ids, registry), t) <==> ids.contains(t),
{
    let msgs = burn_instructions(ids, registry);
    if given_away(msgs, t) {
        let i = choose|i: int| 0 <= i < msgs.len() && gives_away(#[trigger] msgs[i], t);
        assert(ids[i] == t);
    }
    if ids.contains(t) {
        let i = choose|i: int| 0 <= i < ids.len() && ids[i] == t;
        assert(gives_away(msgs[i], t));
    }
}

/// Handing tokens over gives exactly the tokens of the batch away.
pub proof fn lemma_transfers_give_away(batch: Seq<PurchaseView>, registry: Seq<char>, t: Seq<char>)
    ensures
        given_away(transfers(batch, registry), t) <==> exists|i: int|
            0 <= i < batch.len() && (#[trigger] batch[i]).token_id == t,
{
    let msgs = transfers(batch, registry);
    if given_away(msgs, t) {
        let i = choose|i: int| 0 <= i < msgs.len() && gives_away(#[trigger] msgs[i], t);
        assert(batch[i].token_id == t);
    }
    if exists|i: int| 0 <= i < batch.len() && (#[trigger] batch[i]).token_id == t {
        let i = choose|i: int| 0 <= i < batch.len() && (#[trigger] batch[i]).token_id == t;
        assert(gives_away(msgs[i], t));
    }
}

/// Refunds give no token away.
pub proof fn lemma_refunds_keep_tokens(rows: Seq<RowView>, price: crate::coin::CoinView, t: Seq<char>)
    ensures
        !given_away(refunds(rows, price), t),
    decreases rows.len(),
{
    if rows.len() > 0 {
        lemma_refunds_keep_tokens(rows.drop_last(), price, t);
        lemma_given_away_add(
            refunds(rows.drop_last(), price),
            refund_message(rows.last().purchases, price),
            t,
        );
    }
}

/// What is no payment among instructions is among the instructions.
pub proof fn lemma_others_are_among(msgs: Seq<InstructionView>, i: int)
    requires
        0 <= i < others(msgs).len(),
    ensures
        exists|j: int| 0 <= j < msgs.len() && #[trigger] msgs[j] == others(msgs)[i],
    decreases msgs.len(),
{
    if msgs.len() > 0 {
        let rest = msgs.drop_last();
        match msgs.last() {
            InstructionView::Send { to_address, amount } => {
                lemma_others_are_among(rest, i);
                let j = choose|j: int| 0 <= j < rest.len() && #[trigger] rest[j] == others(rest)[i];
                assert(msgs[j] == others(msgs)[i]);
            },
            _ => {
                if i < others(rest).len() {
                    lemma_others_are_among(rest, i);
                    let j = choose|j: int|
                        0 <= j < rest.len() && #[trigger] rest[j] == others(rest)[i];
                    assert(msgs[j] == others(msgs)[i]);
                } else {
                    assert(msgs[msgs.len() - 1] == others(msgs)[i]);
                }
            },
        }
    }
}

/// Plain fees, merged, give no token away.
pub proof fn lemma_fees_keep_tokens(msgs: Seq<InstructionView>, denom: Seq<char>, t: Seq<char>)
    requires
        plain_fees(msgs, denom),
        merged(msgs) is Ok,
    ensures
        !given_away(merged(msgs)->Ok_0, t),
{
    let book = book_of(msgs)->0;
    lemma_given_away_add(others(msgs), payments(book), t);
    if given_away(others(msgs), t) {
        let i = choose|i: int|
            0 <= i < others(msgs).len() && gives_away(#[trigger] others(msgs)[i], t);
        lemma_others_are_among(msgs, i);
        let j = choose|j: int| 0 <= j < msgs.len() && #[trigger] msgs[j] == others(msgs)[i];
        assert(plain_fee(msgs[j], denom));
    }
    if given_away(payments(book), t) {
        let i = choose|i: int|
            0 <= i < payments(book).len() && gives_away(#[trigger] payments(book)[i], t);
    }
}

/// One call keeps store and registry fitting together, and where it leaves no sale
/// behind, the sale is settled for good.
pub proof fn lemma_call(w: World, c: Call)
    requires
        in_hand(w),
        w.store.state is Some,
        faithful(c.owned, w.registry),
    ensures
        in_hand(after_call(w, c)),
        after_call(w, c).store.state is None ==> after_call(w, c).store == settled(w.store),
        after_call(w, c).store.state is Some ==> settled(after_call(w, c).store) == settled(
            w.store,
        ),
{
    let s = w.store;
    let st = s.state->0;
    let o = end_sale_outcome(s, c.env, c.info, c.limit, c.owned);
    let w2 = after_call(w, c);
    let k = batch_limit(c.limit);
    if o.result is Ok {
        let msgs = o.result->Ok_0.messages;
        let burns = first(c.owned, k);
        let registry = s.config.token_address;
        lemma_taken_contains(s.available_tokens, burns);
        if st.amount_sold < st.min_tokens_sold {
            lemma_refund_and_release_keeps(s, c.limit, c.owned);
            let rows = first(s.purchases, k);
            lemma_less_is_plain(s.purchases, st.price.denom, 0, rows.len() as int, 0);
            assert forall|t: Seq<char>| given_away(msgs, t) <==> burns.contains(t) by {
                lemma_given_away_add(
                    refunds(rows, st.price),
                    burn_instructions(burns, registry),
                    t,
                );
                lemma_refunds_keep_tokens(rows, st.price, t);
                lemma_burns_give_away(burns, registry, t);
            }
            crate::accounting::lemma_flat_add(
                s.purchases.take(rows.len() as int),
                s.purchases.skip(rows.len() as int),
            );
            assert(s.purchases.take(rows.len() as int) + s.purchases.skip(rows.len() as int)
                =~= s.purchases);
            let kept = flat(s.purchases.skip(rows.len() as int));
            let gone = flat(s.purchases.take(rows.len() as int));
            assert forall|i: int| 0 <= i < kept.len() implies !w2.store.available_tokens.contains(
                (#[trigger] kept[i]).token_id,
            ) by {
                assert(kept[i] == flat(s.purchases)[gone.len() + i]);
            }
            if rows.len() == 0 && burns.len() == 0 {
                assert(s.purchases.len() == 0);
                assert(c.owned.len() == 0);
                lemma_nothing_on_offer(w);
                assert(w2.store.available_tokens =~= Seq::<Seq<char>>::empty());
                assert(w2.store.purchases =~= Seq::<RowView>::empty());
            }
        } else {
            lemma_transfer_and_payout_keeps(s, c.limit, c.owned);
            if st.amount_transferred == st.amount_sold {
                assert forall|t: Seq<char>| given_away(msgs, t) <==> burns.contains(t) by {
                    lemma_given_away_add(payout(st), burn_instructions(burns, registry), t);
                    lemma_burns_give_away(burns, registry, t);
                    if given_away(payout(st), t) {
                        let i = choose|i: int|
                            0 <= i < payout(st).len() && gives_away(#[trigger] payout(st)[i], t);
                    }
                }
                lemma_flat_nonempty(s.purchases);
                assert(s.purchases.len() == 0);
                if burns.len() == 0 {
                    assert(c.owned.len() == 0);
                    lemma_nothing_on_offer(w);
                    assert(w2.store.available_tokens =~= Seq::<Seq<char>>::empty());
                    assert(w2.store.purchases =~= Seq::<RowView>::empty());
                }
            } else {
                let batch = take_entries(s.purchases, k);
                let fees = merged(side_effects(batch))->Ok_0;
                lemma_drop_entries(s.purchases, k);
                lemma_less_is_plain(s.purchases, st.price.denom, 0, 0, k);
                lemma_flat_plain(s.purchases, st.price.denom);
                assert forall|i: int| 0 <= i < batch.len() implies plain_fees(
                    (#[trigger] batch[i]).msgs,
                    st.price.denom,
                ) by {
                    assert(batch[i] == flat(s.purchases)[i]);
                }
                lemma_side_effects_plain(batch, st.price.denom);
                assert forall|t: Seq<char>|
                    s.available_tokens.contains(t) implies !given_away(msgs, t) by {
                    lemma_given_away_add(transfers(batch, registry), fees, t);
                    lemma_fees_keep_tokens(side_effects(batch), st.price.denom, t);
                    lemma_transfers_give_away(batch, registry, t);
                    if given_away(transfers(batch, registry), t) {
                        let i = choose|i: int|
                            0 <= i < batch.len() && (#[trigger] batch[i]).token_id == t;
                        assert(batch[i] == flat(s.purchases)[i]);
                    }
                }
                let kept = flat(drop_entries(s.purchases, k));
                assert forall|i: int| 0 <= i < kept.len() implies !w2.store.available_tokens.contains(
                    (#[trigger] kept[i]).token_id,
                ) by {
                    assert(kept[i] == flat(s.purchases)[batch.len() + i]);
                }
            }
        }
    }
}

/// Where the contract owns no token, nothing is on offer.
pub proof fn lemma_nothing_on_offer(w: World)
    requires
        in_hand(w),
        forall|t: Seq<char>| !w.registry.contains(t),
    ensures
        w.store.available_tokens.len() == 0,
{
    if w.store.available_tokens.len() > 0 {
        let token = w.store.available_tokens[0];
        assert(w.store.available_tokens.contains(token));
        assert(!w.registry.contains(token));
    }
}

/// A run of calls keeps store and registry fitting together; it ends with the sale
/// settled for good or with a sale that would be settled into the same store.
pub proof fn lemma_calls(w: World, calls: Seq<Call>)
    requires
        in_hand(w),
        w.store.state is Some,
        faithful_run(w, calls),
    ensures
        after_calls(w, calls).store.state is None ==> after_calls(w, calls).store == settled(
            w.store,
        ),
        after_calls(w, calls).store.state is Some ==> in_hand(after_calls(w, calls)) && settled(
            after_calls(w, calls).store,
        ) == settled(w.store),
    decreases calls.len(),
{
    if calls.len() > 0 {
        let before = after_calls(w, calls.drop_last());
        lemma_calls(w, calls.drop_last());
        if before.store.state is Some {
            lemma_call(before, calls.last());
        }
    }
}

/// Every settlement step settles something. A step that succeeds ends the sale, or
/// takes purchases out of the ledger, or releases tokens, or pays the recipient. So
/// steps with any limits above zero come to an end: there are only so many
/// purchases, the recipient is owed only once, and a registry that answers truly
/// runs out of tokens to name.
pub proof fn every_step_settles_something(
    s: StoreView,
    env: EnvView,
    info: InfoView,
    limit: Option<u32>,
    owned: Seq<Seq<char>>,
)
    requires
        consistent(s),
        end_sale_outcome(s, env, info, limit, owned).result is Ok,
    ensures
        ({
            let after = end_sale_outcome(s, env, info, limit, owned).store;
            ||| after.state is None
            ||| flat(after.purchases).len() < flat(s.purchases).len()
            ||| first(owned, batch_limit(limit)).len() > 0
            ||| after.state->0.amount_to_send < s.state->0.amount_to_send
        }),
{
    let st = s.state->0;
    let k = batch_limit(limit);
    if st.amount_sold < st.min_tokens_sold {
        let rows = first(s.purchases, k);
        if rows.len() > 0 {
            crate::accounting::lemma_sum_skip(
                s.purchases,
                rows.len() as int,
                |p: PurchaseView| 0int,
            );
            assert(rows =~= s.purchases.take(rows.len() as int));
            lemma_first_rows_hold_purchases(s.purchases, rows.len() as int);
        }
    } else if st.amount_transferred != st.amount_sold {
        crate::accounting::lemma_sum_drop(s.purchases, k, |p: PurchaseView| 0int);
    }
}

/// The first rows of a ledger hold a purchase each.
pub proof fn lemma_first_rows_hold_purchases(rows: Seq<RowView>, k: int)
    requires
        crate::ledger::ledger_wf(rows),
        0 < k <= rows.len(),
    ensures
        flat(rows.take(k)).len() > 0,
{
    let head = rows.take(k);
    assert(head[0] == rows[0]);
    crate::ledger::lemma_flat_len(head);
}

/// Batch size does not matter. Take a sale, with the contract owning every token on
/// offer, and settle it in two ways: each a run of calls, with any limits, in which
/// the registry answers truly. If both runs end with no sale left, they end in the
/// same store, and that store has no purchase waiting and nothing on offer.
pub proof fn batch_size_does_not_matter(w: World, one: Seq<Call>, other: Seq<Call>)
    requires
        in_hand(w),
        w.store.state is Some,
        faithful_run(w, one),
        faithful_run(w, other),
        after_calls(w, one).store.state is None,
        after_calls(w, other).store.state is None,
    ensures
        after_calls(w, one).store == after_calls(w, other).store,
        after_calls(w, one).store == settled(w.store),
{
    lemma_calls(w, one);
    lemma_calls(w, other);
}

} // verus!
