//! Settling a sale: refunds where it missed its threshold, and where it reached it
//! the hand-over of the tokens, the payment of the proceeds and the release of what
//! was not sold. A call does one batch of this; calls are repeated until the sale is
//! gone from the store.

use crate::coin::{Coin, CoinView};
use crate::contract::{outcome, rejected, taken, Outcome, DEFAULT_LIMIT, MAX_LIMIT};
use crate::error::ContractError;
use crate::ledger::{
    drop_entries, ledger_wf, lemma_first_row, purchases_of, take_entries, without_row, Ledger,
    Purchase, PurchaseView, RowView,
};
use crate::merge::{merge_sub_msgs, merged};
use crate::msg::{
    nonpayable, Env, EnvView, Event, EventView, InfoView, Instruction, InstructionView,
    MessageInfo, Response, ResponseView,
};
use crate::state::{State, StateView, Store, StoreView};
use vstd::prelude::*;

verus! {

/// What a buyer paid for `purchases`: for each the price and its tax.
pub open spec fn refund_due(purchases: Seq<PurchaseView>, price: u128) -> int
    decreases purchases.len(),
{
    if purchases.len() == 0 {
        0
    } else {
        refund_due(purchases.drop_last(), price) + purchases.last().tax_amount + price
    }
}

/// The one payment that gives a buyer back what they paid for `purchases`; no
/// payment where that is nothing.
pub open spec fn refund_message(purchases: Seq<PurchaseView>, price: CoinView) -> Seq<InstructionView> {
    if purchases.len() > 0 && refund_due(purchases, price.amount) > 0 {
        seq![
            InstructionView::Send {
                to_address: purchases[0].purchaser,
                amount: seq![
                    CoinView {
                        denom: price.denom,
                        amount: refund_due(purchases, price.amount) as u128,
                    },
                ],
            },
        ]
    } else {
        Seq::empty()
    }
}

pub proof fn lemma_refund_due_nonnegative(purchases: Seq<PurchaseView>, price: u128)
    ensures
        0 <= refund_due(purchases, price),
    decreases purchases.len(),
{
    if purchases.len() > 0 {
        lemma_refund_due_nonnegative(purchases.drop_last(), price);
    }
}

pub proof fn lemma_refund_due_monotone(purchases: Seq<PurchaseView>, price: u128, i: int)
    requires
        0 <= i <= purchases.len(),
    ensures
        0 <= refund_due(purchases.take(i), price) <= refund_due(purchases, price),
    decreases purchases.len() - i,
{
    if i < purchases.len() {
        lemma_refund_due_monotone(purchases, price, i + 1);
        assert(purchases.take(i + 1).drop_last() =~= purchases.take(i));
    } else {
        assert(purchases.take(i) =~= purchases);
    }
    lemma_refund_due_nonnegative(purchases.take(i), price);
}

/// What a buyer paid for `purchases`; nothing where that does not fit in 128 bits.
fn refund_amount(purchases: &Vec<Purchase>, price: &Coin) -> (r: Option<u128>)
    ensures
        match r {
            Some(amount) => amount == refund_due(purchases.deep_view(), price.amount),
            None => refund_due(purchases.deep_view(), price.amount) > u128::MAX,
        },
{
    let ghost all = purchases.deep_view();
    let mut amount: u128 = 0;
    let mut i: usize = 0;
    while i < purchases.len()
        invariant
            i <= purchases.len(),
            all == purchases.deep_view(),
            amount == refund_due(all.take(i as int), price.amount),
        decreases purchases.len() - i,
    {
        proof {
            assert(all.take(i + 1).drop_last() =~= all.take(i as int));
            lemma_refund_due_monotone(all, price.amount, i + 1);
        }
        let paid = match purchases[i].tax_amount.checked_add(price.amount) {
            Some(paid) => paid,
            None => {
                return None;
            },
        };
        amount = match amount.checked_add(paid) {
            Some(sum) => sum,
            None => {
                return None;
            },
        };
        i += 1;
    }
    assert(all.take(purchases.len() as int) =~= all);
    Some(amount)
}

/// Refunds a buyer: gives the one payment that hands back what they paid for the
/// purchases that wait for them, and takes those purchases out of the ledger. There
/// is no payment where they paid nothing, and for a buyer without purchases nothing
/// happens. Fails, and leaves the ledger as it was, where the amount does not fit in
/// 128 bits.
pub fn process_refund(ledger: &mut Ledger, purchaser: &str, price: &Coin) -> (r: Result<
    Vec<Instruction>,
    ContractError,
>)
    requires
        old(ledger).wf(),
    ensures
        final(ledger).wf(),
        match r {
            Ok(messages) => {
                &&& refund_due(purchases_of(old(ledger)@, purchaser@), price.amount) <= u128::MAX
                &&& messages.deep_view() == refund_message(
                    purchases_of(old(ledger)@, purchaser@),
                    price@,
                )
                &&& final(ledger)@ == without_row(old(ledger)@, purchaser@)
            },
            Err(e) => {
                &&& e == ContractError::Overflow
                &&& refund_due(purchases_of(old(ledger)@, purchaser@), price.amount) > u128::MAX
                &&& final(ledger)@ == old(ledger)@
            },
        },
{
    let mut messages: Vec<Instruction> = Vec::new();
    match ledger.load(purchaser) {
        Some(purchases) => {
            let amount = match refund_amount(purchases, price) {
                Some(amount) => amount,
                None => {
                    return Err(ContractError::Overflow);
                },
            };
            if amount > 0 {
                let mut coins: Vec<Coin> = Vec::new();
                coins.push(Coin { denom: price.denom.clone(), amount });
                assert(coins.deep_view() =~= seq![CoinView { denom: price.denom@, amount }]);
                messages.push(
                    Instruction::Send { to_address: purchases[0].purchaser.clone(), amount: coins },
                );
            }
        },
        None => {},
    }
    ledger.remove(purchaser);
    Ok(messages)
}

/// Claiming a refund. There must be a sale, no funds may come with the call, the
/// sale's time must be over and its threshold missed, and the caller must have
/// bought something. The caller gets back what they paid, and their purchases leave
/// the ledger.
pub open spec fn claim_refund_outcome(s: StoreView, env: EnvView, info: InfoView) -> Outcome {
    let st = s.state->0;
    let mine = purchases_of(s.purchases, info.sender);
    if s.state is None {
        rejected(s, ContractError::NoOngoingSale)
    } else if info.funds.len() > 0 {
        rejected(s, ContractError::NonPayable)
    } else if !st.end_time.expired(env.block) {
        rejected(s, ContractError::SaleNotEnded)
    } else if st.amount_sold >= st.min_tokens_sold {
        rejected(s, ContractError::MinSalesExceeded)
    } else if mine.len() == 0 {
        rejected(s, ContractError::NoPurchases)
    } else if refund_due(mine, st.price.amount) > u128::MAX {
        rejected(s, ContractError::Overflow)
    } else {
        Outcome {
            result: Ok(
                ResponseView {
                    event: EventView::ClaimRefund,
                    messages: refund_message(mine, st.price),
                },
            ),
            store: StoreView { purchases: without_row(s.purchases, info.sender), ..s },
        }
    }
}

/// Refunds the caller; see [`claim_refund_outcome`].
pub fn execute_claim_refund(store: &mut Store, env: &Env, info: &MessageInfo) -> (r: Result<
    Response,
    ContractError,
>)
    requires
        old(store).wf(),
    ensures
        final(store).wf(),
        outcome(r, final(store)@) == claim_refund_outcome(old(store)@, env@, info@),
{
    let price = match &store.state {
        None => {
            return Err(ContractError::NoOngoingSale);
        },
        Some(state) => {
            if nonpayable(info).is_err() {
                return Err(ContractError::NonPayable);
            }
            if !state.end_time.is_expired(&env.block) {
                return Err(ContractError::SaleNotEnded);
            }
            if state.amount_sold >= state.min_tokens_sold {
                return Err(ContractError::MinSalesExceeded);
            }
            state.price.clone()
        },
    };
    if !store.purchases.has(info.sender.as_str()) {
        return Err(ContractError::NoPurchases);
    }
    match process_refund(&mut store.purchases, info.sender.as_str(), &price) {
        Ok(messages) => Ok(Response { event: Event::ClaimRefund, messages }),
        Err(e) => Err(e),
    }
}

/// How many steps a settlement call takes that was asked for with `limit`.
pub open spec fn batch_limit(limit: Option<u32>) -> int {
    match limit {
        Some(n) => if n < MAX_LIMIT { n as int } else { MAX_LIMIT as int },
        None => DEFAULT_LIMIT as int,
    }
}

/// The first `n` elements of `s`, or all of them where it holds fewer.
pub open spec fn first<A>(s: Seq<A>, n: int) -> Seq<A> {
    if n <= 0 {
        Seq::empty()
    } else if s.len() <= n {
        s
    } else {
        s.take(n)
    }
}

/// The instructions that have the registry destroy the tokens `ids`.
pub open spec fn burn_instructions(ids: Seq<Seq<char>>, registry: Seq<char>) -> Seq<InstructionView> {
    ids.map_values(
        |id: Seq<char>| InstructionView::Burn { contract_addr: registry, token_id: id },
    )
}

/// The number of tokens on offer after a release that left `after` of the tokens
/// `before`: each token gone counts once, down to zero.
pub open spec fn count_after_release(number: u128, before: Seq<Seq<char>>, after: Seq<Seq<char>>) -> u128 {
    let gone = before.len() - after.len();
    if number >= gone {
        (number - gone) as u128
    } else {
        0
    }
}

/// Taking tokens off the offer leaves it in order and no longer.
pub proof fn lemma_taken(tokens: Seq<Seq<char>>, ids: Seq<Seq<char>>)
    requires
        crate::order::ascending(tokens),
    ensures
        crate::order::ascending(taken(tokens, ids)),
        taken(tokens, ids).len() <= tokens.len(),
        ids.len() > 0 ==> taken(tokens, ids).len() <= taken(tokens, ids.drop_last()).len(),
    decreases ids.len(),
{
    if ids.len() > 0 {
        lemma_taken(tokens, ids.drop_last());
        crate::tokens::lemma_without_key(taken(tokens, ids.drop_last()), ids.last());
    }
}

/// Releases the first `limit` of the tokens `owned`, which the registry says the
/// contract owns: each is taken off the offer, counted off where it was on it, and
/// gets an instruction that has the registry destroy it.
pub fn get_burn_messages(store: &mut Store, owned: &Vec<String>, limit: usize) -> (r: Vec<
    Instruction,
>)
    requires
        old(store).wf(),
    ensures
        final(store).wf(),
        r.deep_view() == burn_instructions(
            first(owned.deep_view(), limit as int),
            old(store)@.config.token_address,
        ),
        final(store)@ == (StoreView {
            available_tokens: taken(
                old(store)@.available_tokens,
                first(owned.deep_view(), limit as int),
            ),
            number_of_tokens_available: count_after_release(
                old(store)@.number_of_tokens_available,
                old(store)@.available_tokens,
                taken(old(store)@.available_tokens, first(owned.deep_view(), limit as int)),
            ),
            ..old(store)@
        }),
{
    let ghost s = store@;
    let ghost ids = first(owned.deep_view(), limit as int);
    let n = if owned.len() <= limit { owned.len() } else { limit };
    let mut messages: Vec<Instruction> = Vec::new();
    let mut i: usize = 0;
    while i < n
        invariant
            i <= n,
            n <= owned.len(),
            ids.len() == n,
            forall|j: int| 0 <= j < n ==> ids[j] == owned[j]@,
            store.wf(),
            crate::order::ascending(s.available_tokens),
            store@ == (StoreView {
                available_tokens: taken(s.available_tokens, ids.take(i as int)),
                number_of_tokens_available: count_after_release(
                    s.number_of_tokens_available,
                    s.available_tokens,
                    taken(s.available_tokens, ids.take(i as int)),
                ),
                ..s
            }),
            messages.len() == i,
            forall|j: int|
                0 <= j < i ==> (#[trigger] messages[j])@ == (InstructionView::Burn {
                    contract_addr: s.config.token_address,
                    token_id: ids[j],
                }),
        decreases n - i,
    {
        proof {
            assert(ids.take(i + 1).drop_last() =~= ids.take(i as int));
            lemma_taken(s.available_tokens, ids.take(i as int));
            crate::tokens::lemma_without_key(
                taken(s.available_tokens, ids.take(i as int)),
                owned[i as int]@,
            );
        }
        if store.available_tokens.remove(owned[i].as_str()) {
            if store.number_of_tokens_available > 0 {
                store.number_of_tokens_available = store.number_of_tokens_available - 1;
            }
        }
        messages.push(
            Instruction::Burn {
                contract_addr: store.config.token_address.clone(),
                token_id: owned[i].clone(),
            },
        );
        i += 1;
    }
    proof {
        assert(ids.take(n as int) =~= ids);
    }
    messages
}

/// Ends the record of the sale: no sale is left, and nothing is counted as on offer.
pub fn clear_state(store: &mut Store)
    ensures
        final(store)@ == (StoreView {
            state: None,
            number_of_tokens_available: 0,
            ..old(store)@
        }),
        final(store).purchases == old(store).purchases,
        final(store).available_tokens == old(store).available_tokens,
{
    store.state = None;
    store.number_of_tokens_available = 0;
}

/// The refunds for the buyers of `rows`, one payment a buyer, in the order of rows.
pub open spec fn refunds(rows: Seq<RowView>, price: CoinView) -> Seq<InstructionView>
    decreases rows.len(),
{
    if rows.len() == 0 {
        Seq::empty()
    } else {
        refunds(rows.drop_last(), price) + refund_message(rows.last().purchases, price)
    }
}

/// Every buyer's refund fits in 128 bits.
pub open spec fn refunds_fit(rows: Seq<RowView>, price: u128) -> bool {
    forall|i: int| 0 <= i < rows.len() ==> refund_due((#[trigger] rows[i]).purchases, price) <= u128::MAX
}

/// The store after the tokens `ids` were released.
pub open spec fn released(s: StoreView, ids: Seq<Seq<char>>) -> StoreView {
    StoreView {
        available_tokens: taken(s.available_tokens, ids),
        number_of_tokens_available: count_after_release(
            s.number_of_tokens_available,
            s.available_tokens,
            taken(s.available_tokens, ids),
        ),
        ..s
    }
}

/// The store of a sale that is settled: no sale, and nothing counted as on offer.
pub open spec fn cleared(s: StoreView) -> StoreView {
    StoreView { state: None, number_of_tokens_available: 0, ..s }
}

/// One batch of settling a sale that missed its threshold; there must be a sale, and
/// the limit must not be zero. The first buyers of the
/// ledger, at most as many as the limit, get back what they paid and leave the
/// ledger; the first tokens that the contract owns, at most as many as the limit,
/// are released. Where there were neither buyers nor tokens, the sale is settled.
pub open spec fn refund_and_release(s: StoreView, limit: Option<u32>, owned: Seq<Seq<char>>) -> Outcome {
    let st = s.state->0;
    let k = batch_limit(limit);
    let rows = first(s.purchases, k);
    let burns = first(owned, k);
    let after = StoreView { purchases: s.purchases.skip(rows.len() as int), ..released(s, burns) };
    if s.state is None {
        rejected(s, ContractError::NoOngoingSale)
    } else if k == 0 {
        rejected(s, ContractError::LimitMustNotBeZero)
    } else if !refunds_fit(rows, st.price.amount) {
        rejected(s, ContractError::Overflow)
    } else {
        Outcome {
            result: Ok(
                ResponseView {
                    event: EventView::IssueRefundsAndBurnTokens,
                    messages: refunds(rows, st.price) + burn_instructions(
                        burns,
                        s.config.token_address,
                    ),
                },
            ),
            store: if rows.len() == 0 && burns.len() == 0 {
                cleared(after)
            } else {
                after
            },
        }
    }
}

/// The instructions that hand the tokens of `batch` to their buyers.
pub open spec fn transfers(batch: Seq<PurchaseView>, registry: Seq<char>) -> Seq<InstructionView> {
    batch.map_values(
        |p: PurchaseView|
            InstructionView::TransferNft {
                contract_addr: registry,
                recipient: p.purchaser,
                token_id: p.token_id,
            },
    )
}

/// The fee instructions that were recorded with the purchases of `batch`, purchase
/// by purchase.
pub open spec fn side_effects(batch: Seq<PurchaseView>) -> Seq<InstructionView>
    decreases batch.len(),
{
    if batch.len() == 0 {
        Seq::empty()
    } else {
        side_effects(batch.drop_last()) + batch.last().msgs
    }
}

/// The payment of the proceeds; none where nothing is owed.
pub open spec fn payout(st: StateView) -> Seq<InstructionView> {
    if st.amount_to_send > 0 {
        seq![
            InstructionView::Pay {
                payee: st.recipient,
                funds: seq![CoinView { denom: st.price.denom, amount: st.amount_to_send }],
            },
        ]
    } else {
        Seq::empty()
    }
}

/// One batch of settling a sale that reached its threshold; there must be a sale,
/// and the limit must not be zero.
///
/// While tokens sold wait for their buyers, the first purchases of the ledger, at
/// most as many as the limit, are settled: each token is handed to its buyer and
/// the fee instructions recorded with the purchases are passed on, payments to one
/// address merged into one. The purchases leave the ledger; a buyer whose purchases
/// the batch ends inside keeps the rest. Where tokens are due but no purchase waits,
/// there is nothing to hand over, and the call fails.
///
/// Once every token sold is with its buyer, the recipient is paid what is owed,
/// once, and the first tokens that the contract still owns, at most as many as the
/// limit, are released. Where there was none to release, the sale is settled.
pub open spec fn transfer_and_payout(s: StoreView, limit: Option<u32>, owned: Seq<Seq<char>>) -> Outcome {
    let st = s.state->0;
    let k = batch_limit(limit);
    if s.state is None {
        rejected(s, ContractError::NoOngoingSale)
    } else if k == 0 {
        rejected(s, ContractError::LimitMustNotBeZero)
    } else if st.amount_transferred == st.amount_sold {
        let burns = first(owned, k);
        let paid = StoreView { state: Some(StateView { amount_to_send: 0, ..st }), ..s };
        Outcome {
            result: Ok(
                ResponseView {
                    event: EventView::TransferTokensAndSendFunds,
                    messages: payout(st) + burn_instructions(burns, s.config.token_address),
                },
            ),
            store: if burns.len() == 0 {
                cleared(released(paid, burns))
            } else {
                released(paid, burns)
            },
        }
    } else {
        let batch = take_entries(s.purchases, k);
        let fees = merged(side_effects(batch));
        if batch.len() == 0 {
            rejected(s, ContractError::NothingToTransfer)
        } else if st.amount_transferred + batch.len() > u128::MAX || fees is Err {
            rejected(s, ContractError::Overflow)
        } else {
            Outcome {
                result: Ok(
                    ResponseView {
                        event: EventView::TransferTokensAndSendFunds,
                        messages: transfers(batch, s.config.token_address) + fees->Ok_0,
                    },
                ),
                store: StoreView {
                    purchases: drop_entries(s.purchases, k),
                    state: Some(
                        StateView {
                            amount_transferred: (st.amount_transferred + batch.len()) as u128,
                            ..st
                        },
                    ),
                    ..s
                },
            }
        }
    }
}

/// Whether the sale may be settled: its time is over, or nothing is left on offer,
/// or it reached its threshold and the owner asks.
pub open spec fn may_end(s: StoreView, env: EnvView, info: InfoView) -> bool {
    let st = s.state->0;
    st.end_time.expired(env.block) || s.number_of_tokens_available == 0 || (st.min_tokens_sold
        <= st.amount_sold && info.sender == s.owner)
}

/// Settling, one batch. There must be a sale, no funds may come with the call, and
/// the sale must be over; see [`may_end`]. A sale that missed its threshold is
/// refunded, one that reached it is paid out.
pub open spec fn end_sale_outcome(
    s: StoreView,
    env: EnvView,
    info: InfoView,
    limit: Option<u32>,
    owned: Seq<Seq<char>>,
) -> Outcome {
    let st = s.state->0;
    if s.state is None {
        rejected(s, ContractError::NoOngoingSale)
    } else if info.funds.len() > 0 {
        rejected(s, ContractError::NonPayable)
    } else if !may_end(s, env, info) {
        rejected(s, ContractError::SaleNotEnded)
    } else if st.amount_sold < st.min_tokens_sold {
        refund_and_release(s, limit, owned)
    } else {
        transfer_and_payout(s, limit, owned)
    }
}

/// How many steps a settlement call takes that is asked for with `limit`: as many
/// as it says, fifty where it says nothing, and never more than a hundred. This is
/// also how many tokens the asset registry is to be asked for ahead of the call.
pub fn batch_size(limit: Option<u32>) -> (r: u32)
    ensures
        r == batch_limit(limit),
{
    match limit {
        Some(n) => if n < MAX_LIMIT { n } else { MAX_LIMIT },
        None => DEFAULT_LIMIT,
    }
}

/// The limit that a settlement call works with.
fn resolve_limit(limit: Option<u32>) -> (r: usize)
    ensures
        r == batch_limit(limit),
{
    batch_size(limit) as usize
}

/// Moves the instructions of `more` to the end of `messages`.
fn extend(messages: &mut Vec<Instruction>, more: Vec<Instruction>)
    ensures
        final(messages).deep_view() == old(messages).deep_view() + more.deep_view(),
{
    let mut rest = more;
    let ghost added = rest.deep_view();
    messages.append(&mut rest);
    assert(messages.deep_view() =~= old(messages).deep_view() + added);
}

/// Whether every refund of the batch that a settlement step with `limit` would pay
/// at the price `price` fits in 128 bits.
pub(crate) fn batch_fits(store: &Store, price: &Coin, limit: Option<u32>) -> (r: bool)
    requires
        store.wf(),
    ensures
        r == refunds_fit(first(store@.purchases, batch_limit(limit)), price.amount),
{
    let k = resolve_limit(limit);
    let n = if store.purchases.len() <= k { store.purchases.len() } else { k };
    let ghost rows = first(store@.purchases, k as int);
    let mut i: usize = 0;
    while i < n
        invariant
            i <= n,
            n == rows.len(),
            n <= store.purchases@.len(),
            store.wf(),
            k == batch_limit(limit),
            rows == first(store@.purchases, k as int),
            forall|j: int| 0 <= j < n ==> rows[j] == store@.purchases[j],
            forall|j: int| 0 <= j < i ==> refund_due((#[trigger] rows[j]).purchases, price.amount) <= u128::MAX,
        decreases n - i,
    {
        if refund_amount(store.purchases.row(i), price).is_none() {
            assert(refund_due(rows[i as int].purchases, price.amount) > u128::MAX);
            return false;
        }
        i += 1;
    }
    true
}

/// Whether the sale may be settled; see [`may_end`].
pub(crate) fn sale_is_over(store: &Store, state: &State, env: &Env, info: &MessageInfo) -> (r: bool)
    requires
        store.state == Some(*state),
    ensures
        r == may_end(store@, env@, info@),
{
    let has_minimum_sold = state.min_tokens_sold <= state.amount_sold;
    let is_owner = crate::order::key_equal(info.sender.as_str(), store.owner.as_str());
    state.end_time.is_expired(&env.block) || store.number_of_tokens_available == 0 || (
    has_minimum_sold && is_owner)
}

/// Settles a batch of a sale that missed its threshold; see [`refund_and_release`].
pub(crate) fn issue_refunds_and_burn_tokens(store: &mut Store, limit: Option<u32>, owned: &Vec<String>) -> (r:
    Result<Response, ContractError>)
    requires
        old(store).wf(),
    ensures
        final(store).wf(),
        outcome(r, final(store)@) == refund_and_release(old(store)@, limit, owned.deep_view()),
{
    let ghost s = store@;
    let price = match &store.state {
        Some(state) => state.price.clone(),
        None => {
            return Err(ContractError::NoOngoingSale);
        },
    };
    let k = resolve_limit(limit);
    if k == 0 {
        return Err(ContractError::LimitMustNotBeZero);
    }
    let n = if store.purchases.len() <= k { store.purchases.len() } else { k };
    let ghost rows = first(s.purchases, k as int);
    // Nothing is refunded unless every refund of the batch can be paid.
    if !batch_fits(store, &price, limit) {
        return Err(ContractError::Overflow);
    }
    let mut messages: Vec<Instruction> = Vec::new();
    let mut j: usize = 0;
    proof {
        assert(s.purchases.skip(0) =~= s.purchases);
        assert(rows.take(0) =~= Seq::<RowView>::empty());
        assert(messages.deep_view() =~= Seq::<InstructionView>::empty());
    }
    while j < n
        invariant
            j <= n,
            n == rows.len(),
            n <= s.purchases.len(),
            store.wf(),
            ledger_wf(s.purchases),
            store@ == (StoreView { purchases: s.purchases.skip(j as int), ..s }),
            forall|i: int| 0 <= i < n ==> rows[i] == s.purchases[i],
            forall|i: int| 0 <= i < n ==> refund_due((#[trigger] rows[i]).purchases, price.amount) <= u128::MAX,
            messages.deep_view() == refunds(rows.take(j as int), price@),
        decreases n - j,
    {
        let ghost waiting = store.purchases@;
        proof {
            assert(waiting[0] == rows[j as int]);
            lemma_first_row(waiting);
            assert(rows.take(j + 1).drop_last() =~= rows.take(j as int));
            assert(rows.take(j + 1).last() == rows[j as int]);
            assert(waiting.drop_first() =~= s.purchases.skip(j + 1));
        }
        let purchaser = store.purchases.row(0)[0].purchaser.clone();
        if let Ok(refund) = process_refund(&mut store.purchases, purchaser.as_str(), &price) {
            extend(&mut messages, refund);
        }
        j += 1;
    }
    assert(rows.take(n as int) =~= rows);
    let burn_msgs = get_burn_messages(store, owned, k);
    if burn_msgs.len() == 0 && n == 0 {
        clear_state(store);
    }
    extend(&mut messages, burn_msgs);
    Ok(Response { event: Event::IssueRefundsAndBurnTokens, messages })
}

/// The state `state` with other counts of what is owed and what was handed over.
fn with_amounts(state: &State, amount_to_send: u128, amount_transferred: u128) -> (r: State)
    ensures
        r@ == (StateView { amount_to_send, amount_transferred, ..state@ }),
{
    State {
        end_time: state.end_time,
        price: state.price.clone(),
        min_tokens_sold: state.min_tokens_sold,
        max_amount_per_wallet: state.max_amount_per_wallet,
        amount_sold: state.amount_sold,
        amount_to_send,
        amount_transferred,
        recipient: state.recipient.clone(),
    }
}

/// Settles a batch of a sale that reached its threshold; see
/// [`transfer_and_payout`].
pub(crate) fn transfer_tokens_and_send_funds(store: &mut Store, limit: Option<u32>, owned: &Vec<String>) -> (r:
    Result<Response, ContractError>)
    requires
        old(store).wf(),
    ensures
        final(store).wf(),
        outcome(r, final(store)@) == transfer_and_payout(old(store)@, limit, owned.deep_view()),
{
    let ghost s = store@;
    let state = match &store.state {
        Some(state) => state.clone(),
        None => {
            return Err(ContractError::NoOngoingSale);
        },
    };
    let limit = resolve_limit(limit);
    if limit == 0 {
        return Err(ContractError::LimitMustNotBeZero);
    }
    let mut messages: Vec<Instruction> = Vec::new();
    if state.amount_transferred == state.amount_sold {
        if state.amount_to_send > 0 {
            let mut funds: Vec<Coin> = Vec::new();
            funds.push(Coin { denom: state.price.denom.clone(), amount: state.amount_to_send });
            assert(funds.deep_view() =~= seq![
                CoinView { denom: state.price.denom@, amount: state.amount_to_send },
            ]);
            messages.push(Instruction::Pay { payee: state.recipient.clone(), funds });
        }
        assert(messages.deep_view() =~= payout(state@));
        store.state = Some(with_amounts(&state, 0, state.amount_transferred));
        let burn_msgs = get_burn_messages(store, owned, limit);
        if burn_msgs.len() == 0 {
            clear_state(store);
        }
        extend(&mut messages, burn_msgs);
        return Ok(Response { event: Event::TransferTokensAndSendFunds, messages });
    }
    // One purchase more than the batch takes is read, to see whether the buyer at
    // the end of the batch goes on after it: their row is cut where they do, and
    // goes with the rows before it where they do not.
    let (batch, keep_boundary) = store.purchases.lookahead(limit);
    if batch.len() == 0 {
        return Err(ContractError::NothingToTransfer);
    }
    let amount_transferred = match state.amount_transferred.checked_add(batch.len() as u128) {
        Some(a) => a,
        None => {
            return Err(ContractError::Overflow);
        },
    };
    let ghost sold = batch.deep_view();
    let mut rate_messages: Vec<Instruction> = Vec::new();
    let mut i: usize = 0;
    while i < batch.len()
        invariant
            i <= batch.len(),
            sold == batch.deep_view(),
            messages.len() == i,
            forall|j: int|
                0 <= j < i ==> (#[trigger] messages[j])@ == (InstructionView::TransferNft {
                    contract_addr: store.config.token_address@,
                    recipient: sold[j].purchaser,
                    token_id: sold[j].token_id,
                }),
            rate_messages.deep_view() == side_effects(sold.take(i as int)),
        decreases batch.len() - i,
    {
        proof {
            assert(sold.take(i + 1).drop_last() =~= sold.take(i as int));
        }
        let purchase = &batch[i];
        messages.push(
            Instruction::TransferNft {
                contract_addr: store.config.token_address.clone(),
                recipient: purchase.purchaser.clone(),
                token_id: purchase.token_id.clone(),
            },
        );
        extend(&mut rate_messages, crate::msg::clone_instructions(&purchase.msgs));
        i += 1;
    }
    proof {
        assert(sold.take(batch.len() as int) =~= sold);
        assert(messages.deep_view() =~= transfers(sold, s.config.token_address));
    }
    let fees = match merge_sub_msgs(&rate_messages) {
        Ok(fees) => fees,
        Err(e) => {
            return Err(e);
        },
    };
    extend(&mut messages, fees);
    store.purchases.drop_front(limit, keep_boundary);
    store.state = Some(with_amounts(&state, state.amount_to_send, amount_transferred));
    Ok(Response { event: Event::TransferTokensAndSendFunds, messages })
}

/// Settles one batch of the sale; see [`end_sale_outcome`]. `owned` are the tokens
/// that the registry says the contract owns, at most as many as the limit is.
pub fn execute_end_sale(
    store: &mut Store,
    env: &Env,
    info: &MessageInfo,
    limit: Option<u32>,
    owned: &Vec<String>,
) -> (r: Result<Response, ContractError>)
    requires
        old(store).wf(),
    ensures
        final(store).wf(),
        outcome(r, final(store)@) == end_sale_outcome(
            old(store)@,
            env@,
            info@,
            limit,
            owned.deep_view(),
        ),
{
    let threshold_missed = match &store.state {
        None => {
            return Err(ContractError::NoOngoingSale);
        },
        Some(state) => {
            if nonpayable(info).is_err() {
                return Err(ContractError::NonPayable);
            }
            if !sale_is_over(store, state, env, info) {
                return Err(ContractError::SaleNotEnded);
            }
            state.amount_sold < state.min_tokens_sold
        },
    };
    if threshold_missed {
        issue_refunds_and_burn_tokens(store, limit, owned)
    } else {
        transfer_tokens_and_send_funds(store, limit, owned)
    }
}

} // verus!
