//! What settling hands out comes to the same whatever the batches are.
//!
//! A run of settlement calls issues instructions call by call. Taken together, the
//! instructions that hand tokens to their buyers are those of the ledger, purchase
//! by purchase, and the refunds of a sale that missed its threshold are those of
//! the ledger, buyer by buyer: in the order of the ledger, each once.

use crate::accounting::plain_fees;
use crate::coin::CoinView;
use crate::conservation::{lemma_flat_plain, lemma_side_effects_plain};
use crate::ledger::{drop_entries, flat, lemma_drop_entries, take_entries, RowView};
use crate::merge::merged;
use crate::msg::InstructionView;
use crate::settlement::{
    batch_limit, burn_instructions, end_sale_outcome, first, payout, refund_message, refunds,
    side_effects, transfers,
};
use crate::settling::{
    after_call, after_calls, faithful_run, gives_away, in_hand, lemma_calls,
    lemma_fees_keep_tokens, Call, World,
};
use vstd::prelude::*;

verus! {

/// The instruction sends coins to an address, where `payment` is set; it hands a
/// token to a buyer, where it is not.
pub open spec fn of_kind(m: InstructionView, payment: bool) -> bool {
    if payment {
        m is Send
    } else {
        m is TransferNft
    }
}

/// The instructions of `msgs` that are of the kind, in their order.
pub open spec fn chosen(msgs: Seq<InstructionView>, payment: bool) -> Seq<InstructionView>
    decreases msgs.len(),
{
    if msgs.len() == 0 {
        Seq::empty()
    } else if of_kind(msgs.last(), payment) {
        chosen(msgs.drop_last(), payment).push(msgs.last())
    } else {
        chosen(msgs.drop_last(), payment)
    }
}

/// The instructions of `msgs` that hand a token to a buyer, in their order.
pub open spec fn handovers(msgs: Seq<InstructionView>) -> Seq<InstructionView> {
    chosen(msgs, false)
}

/// The instructions of `msgs` that send coins to an address, in their order.
pub open spec fn sends(msgs: Seq<InstructionView>) -> Seq<InstructionView> {
    chosen(msgs, true)
}

/// What is chosen of two lists, one after the other, is what is chosen of each.
pub proof fn lemma_chosen_add(a: Seq<InstructionView>, b: Seq<InstructionView>, payment: bool)
    ensures
        chosen(a + b, payment) == chosen(a, payment) + chosen(b, payment),
    decreases b.len(),
{
    if b.len() == 0 {
        assert(a + b =~= a);
        assert(chosen(a, payment) + chosen(b, payment) =~= chosen(a, payment));
    } else {
        lemma_chosen_add(a, b.drop_last(), payment);
        assert((a + b).drop_last() =~= a + b.drop_last());
        assert((a + b).last() == b.last());
        assert(chosen(a + b, payment) =~= chosen(a, payment) + chosen(b, payment));
    }
}

/// The instructions of a run of settlement calls, in the order in which they were
/// issued. A call that fails issues none.
pub open spec fn issued(w: World, calls: Seq<Call>) -> Seq<InstructionView>
    decreases calls.len(),
{
    if calls.len() == 0 {
        Seq::empty()
    } else {
        let before = after_calls(w, calls.drop_last());
        let c = calls.last();
        issued(w, calls.drop_last()) + issued_by(before, c)
    }
}

/// The instructions of one settlement call; none where it fails.
pub open spec fn issued_by(w: World, c: Call) -> Seq<InstructionView> {
    match end_sale_outcome(w.store, c.env, c.info, c.limit, c.owned).result {
        Ok(response) => response.messages,
        Err(_) => Seq::empty(),
    }
}

/// Where every instruction is of a kind, all are kept by a choice of that kind;
/// where none is, none is kept.
pub proof fn lemma_chosen(msgs: Seq<InstructionView>, payment: bool)
    ensures
        (forall|i: int| 0 <= i < msgs.len() ==> of_kind(#[trigger] msgs[i], payment)) ==> chosen(
            msgs,
            payment,
        ) == msgs,
        (forall|i: int| 0 <= i < msgs.len() ==> !of_kind(#[trigger] msgs[i], payment)) ==> chosen(
            msgs,
            payment,
        ) == Seq::<InstructionView>::empty(),
    decreases msgs.len(),
{
    if msgs.len() > 0 {
        let rest = msgs.drop_last();
        lemma_chosen(rest, payment);
        if forall|i: int| 0 <= i < msgs.len() ==> of_kind(#[trigger] msgs[i], payment) {
            assert forall|i: int| 0 <= i < rest.len() implies of_kind(#[trigger] rest[i], payment) by {
                assert(rest[i] == msgs[i]);
            }
            assert(of_kind(msgs[msgs.len() - 1], payment));
            assert(rest.push(msgs.last()) =~= msgs);
        }
        if forall|i: int| 0 <= i < msgs.len() ==> !of_kind(#[trigger] msgs[i], payment) {
            assert forall|i: int| 0 <= i < rest.len() implies !of_kind(#[trigger] rest[i], payment) by {
                assert(rest[i] == msgs[i]);
            }
            assert(!of_kind(msgs[msgs.len() - 1], payment));
        }
    } else {
        assert(msgs =~= Seq::<InstructionView>::empty());
    }
}

/// The refunds of a ledger are those of its first rows and then those of the rest,
/// and each is a payment.
pub proof fn lemma_refunds_add(a: Seq<RowView>, b: Seq<RowView>, price: CoinView)
    ensures
        refunds(a + b, price) == refunds(a, price) + refunds(b, price),
        forall|i: int| 0 <= i < refunds(b, price).len() ==> (#[trigger] refunds(b, price)[i]) is Send,
    decreases b.len(),
{
    if b.len() == 0 {
        assert(a + b =~= a);
        assert(refunds(a, price) + refunds(b, price) =~= refunds(a, price));
    } else {
        let one = refund_message(b.last().purchases, price);
        lemma_refunds_add(a, b.drop_last(), price);
        assert((a + b).drop_last() =~= a + b.drop_last());
        assert((a + b).last() == b.last());
        assert((refunds(a, price) + refunds(b.drop_last(), price)) + one =~= refunds(a, price) + (
        refunds(b.drop_last(), price) + one));
    }
}

/// One settlement call hands over the first purchases of the ledger, or refunds its
/// first buyers, and leaves the rest in the ledger; the sale stays what it was.
pub proof fn lemma_step(w: World, c: Call)
    requires
        in_hand(w),
        w.store.state is Some,
    ensures
        ({
            let s = w.store;
            let st = s.state->0;
            let after = after_call(w, c).store;
            let msgs = issued_by(w, c);
            let registry = s.config.token_address;
            &&& after.state is Some ==> {
                &&& after.config == s.config
                &&& after.state->0.price == st.price
                &&& after.state->0.amount_sold == st.amount_sold
                &&& after.state->0.min_tokens_sold == st.min_tokens_sold
            }
            &&& st.amount_sold >= st.min_tokens_sold ==> handovers(msgs) + transfers(
                flat(after.purchases),
                registry,
            ) == transfers(flat(s.purchases), registry)
            &&& st.amount_sold < st.min_tokens_sold ==> {
                &&& handovers(msgs) == Seq::<InstructionView>::empty()
                &&& sends(msgs) + refunds(after.purchases, st.price) == refunds(
                    s.purchases,
                    st.price,
                )
            }
        }),
{
    let s = w.store;
    let st = s.state->0;
    let o = end_sale_outcome(s, c.env, c.info, c.limit, c.owned);
    let after = after_call(w, c).store;
    let msgs = issued_by(w, c);
    let registry = s.config.token_address;
    let k = batch_limit(c.limit);
    let none = Seq::<InstructionView>::empty();
    lemma_chosen(none, false);
    lemma_chosen(none, true);
    if o.result is Ok {
        let burns = burn_instructions(first(c.owned, k), registry);
        lemma_chosen(burns, false);
        lemma_chosen(burns, true);
        if st.amount_sold < st.min_tokens_sold {
            let rows = first(s.purchases, k);
            let rest = s.purchases.skip(rows.len() as int);
            let paid = refunds(rows, st.price);
            assert(rows + rest =~= s.purchases);
            lemma_refunds_add(rows, rest, st.price);
            lemma_refunds_add(rest, rows, st.price);
            lemma_chosen(paid, false);
            lemma_chosen(paid, true);
            lemma_chosen_add(paid, burns, false);
            lemma_chosen_add(paid, burns, true);
            assert(paid + none =~= paid);
            assert(none + none =~= none);
            assert(msgs == paid + burns);
            assert(after.purchases == rest);
        } else if st.amount_transferred == st.amount_sold {
            lemma_chosen(payout(st), false);
            lemma_chosen_add(payout(st), burns, false);
            assert(none + none =~= none);
            assert(msgs == payout(st) + burns);
            assert(after.purchases == s.purchases);
            assert(none + transfers(flat(s.purchases), registry) =~= transfers(
                flat(s.purchases),
                registry,
            ));
        } else {
            let batch = take_entries(s.purchases, k);
            let fees = merged(side_effects(batch))->Ok_0;
            let handed = transfers(batch, registry);
            lemma_drop_entries(s.purchases, k);
            lemma_flat_plain(s.purchases, st.price.denom);
            assert forall|i: int| 0 <= i < batch.len() implies plain_fees(
                (#[trigger] batch[i]).msgs,
                st.price.denom,
            ) by {
                assert(batch[i] == flat(s.purchases)[i]);
            }
            lemma_side_effects_plain(batch, st.price.denom);
            assert forall|i: int| 0 <= i < fees.len() implies !of_kind(#[trigger] fees[i], false) by {
                if fees[i] is TransferNft {
                    let t = fees[i]->TransferNft_token_id;
                    lemma_fees_keep_tokens(side_effects(batch), st.price.denom, t);
                    assert(gives_away(fees[i], t));
                }
            }
            lemma_chosen(fees, false);
            lemma_chosen(handed, false);
            lemma_chosen_add(handed, fees, false);
            assert(handed + none =~= handed);
            assert(msgs == handed + fees);
            assert(after.purchases == drop_entries(s.purchases, k));
            assert(handed + transfers(flat(after.purchases), registry) =~= transfers(
                batch + flat(after.purchases),
                registry,
            ));
        }
    } else {
        assert(after == s);
        assert(none + transfers(flat(s.purchases), registry) =~= transfers(
            flat(s.purchases),
            registry,
        ));
        assert(none + refunds(s.purchases, st.price) =~= refunds(s.purchases, st.price));
    }
}

/// A run of settlement calls hands over the first purchases of the ledger, or
/// refunds its first buyers, and leaves the rest in the ledger.
pub proof fn lemma_run(w: World, calls: Seq<Call>)
    requires
        in_hand(w),
        w.store.state is Some,
        faithful_run(w, calls),
    ensures
        ({
            let s = w.store;
            let st = s.state->0;
            let after = after_calls(w, calls).store;
            let msgs = issued(w, calls);
            let registry = s.config.token_address;
            &&& after.state is Some ==> {
                &&& after.config == s.config
                &&& after.state->0.price == st.price
                &&& after.state->0.amount_sold == st.amount_sold
                &&& after.state->0.min_tokens_sold == st.min_tokens_sold
            }
            &&& st.amount_sold >= st.min_tokens_sold ==> handovers(msgs) + transfers(
                flat(after.purchases),
                registry,
            ) == transfers(flat(s.purchases), registry)
            &&& st.amount_sold < st.min_tokens_sold ==> {
                &&& handovers(msgs) == Seq::<InstructionView>::empty()
                &&& sends(msgs) + refunds(after.purchases, st.price) == refunds(
                    s.purchases,
                    st.price,
                )
            }
        }),
    decreases calls.len(),
{
    let s = w.store;
    let st = s.state->0;
    let registry = s.config.token_address;
    let none = Seq::<InstructionView>::empty();
    lemma_chosen(none, false);
    lemma_chosen(none, true);
    if calls.len() == 0 {
        assert(none + transfers(flat(s.purchases), registry) =~= transfers(
            flat(s.purchases),
            registry,
        ));
        assert(none + refunds(s.purchases, st.price) =~= refunds(s.purchases, st.price));
    } else {
        let before = after_calls(w, calls.drop_last());
        let c = calls.last();
        let after = after_call(before, c).store;
        let earlier = issued(w, calls.drop_last());
        let now = issued_by(before, c);
        lemma_run(w, calls.drop_last());
        lemma_calls(w, calls.drop_last());
        lemma_chosen_add(earlier, now, false);
        lemma_chosen_add(earlier, now, true);
        if before.store.state is Some {
            lemma_step(before, c);
            if st.amount_sold >= st.min_tokens_sold {
                assert((handovers(earlier) + handovers(now)) + transfers(
                    flat(after.purchases),
                    registry,
                ) =~= handovers(earlier) + (handovers(now) + transfers(
                    flat(after.purchases),
                    registry,
                )));
            } else {
                assert(none + none =~= none);
                assert((sends(earlier) + sends(now)) + refunds(
                    after.purchases,
                    st.price,
                ) =~= sends(earlier) + (sends(now) + refunds(
                    after.purchases,
                    st.price,
                )));
            }
        } else {
            assert(now == none);
            assert(after == before.store);
            assert(earlier + none =~= earlier);
        }
    }
}

/// Batch size does not matter for what is handed out. Take a sale, with the
/// contract owning every token on offer, and settle it by a run of calls with any
/// limits, in which the registry answers truly, until no sale is left. Where the
/// sale reached its threshold, the instructions that hand tokens over are those of
/// the purchases of the ledger, in its order, each once. Where it missed it, no
/// token is handed over, and the payments are the refunds of the buyers of the
/// ledger, in its order, each once.
pub proof fn settling_hands_out_what_the_ledger_holds(w: World, calls: Seq<Call>)
    requires
        in_hand(w),
        w.store.state is Some,
        faithful_run(w, calls),
        after_calls(w, calls).store.state is None,
    ensures
        ({
            let s = w.store;
            let st = s.state->0;
            let msgs = issued(w, calls);
            &&& st.amount_sold >= st.min_tokens_sold ==> handovers(msgs) == transfers(
                flat(s.purchases),
                s.config.token_address,
            )
            &&& st.amount_sold < st.min_tokens_sold ==> {
                &&& handovers(msgs) == Seq::<InstructionView>::empty()
                &&& sends(msgs) == refunds(s.purchases, st.price)
            }
        }),
{
    let s = w.store;
    let st = s.state->0;
    let after = after_calls(w, calls).store;
    let registry = s.config.token_address;
    lemma_run(w, calls);
    lemma_calls(w, calls);
    assert(after.purchases.len() == 0);
    assert(flat(after.purchases) =~= Seq::empty());
    assert(handovers(issued(w, calls)) + transfers(flat(after.purchases), registry)
        =~= handovers(issued(w, calls)));
    assert(sends(issued(w, calls)) + refunds(after.purchases, st.price) =~= sends(issued(
        w,
        calls,
    )));
}

} // verus!
