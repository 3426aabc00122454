//! The commands of a crowdfunding sale: setting a contract up, minting the tokens to
//! sell, opening a sale, buying, and settling the sale in batches.
//!
//! Each command is stated as a function from the store and the call to an
//! [`Outcome`]: the answer and the store after the call. A call that fails leaves
//! the store as it was.

use crate::coin::{clone_coins, covers, deduct_funds, deducted, has_coins, Coin, CoinView};
use crate::error::ContractError;
use crate::expiration::{
    expiration_from_milliseconds, expiration_of, get_and_validate_start_time, start_time_of,
    Expiration, Milliseconds,
};
use crate::ledger::{purchases_of, recorded, Ledger, Purchase, PurchaseView, RowView};
use crate::msg::{
    nonpayable, CrowdfundMintMsg, Env, EnvView, Event, EventView, InfoView, InstantiateMsg,
    Instruction, InstructionView, MessageInfo, MintMsgView, Recipient, Response, ResponseView,
    StartSaleMsg, StartSaleView,
};
use crate::rates::{get_tax_amount, tax_of, RatesResponse, RatesView};
use crate::state::{Config, ConfigView, State, StateView, Store, StoreView};
use crate::tokens::{listing, with_key, without_key, TokenSet};
use vstd::prelude::*;

verus! {

/// The most steps that one settlement call takes.
pub const MAX_LIMIT: u32 = 100;

/// How many steps a settlement call takes where no limit is given.
pub const DEFAULT_LIMIT: u32 = 50;

/// The most mint requests that one call takes.
pub const MAX_MINT_LIMIT: u32 = 100;

/// What a call comes to: its answer, and the store after it.
pub struct Outcome {
    pub result: Result<ResponseView, ContractError>,
    pub store: StoreView,
}

/// The outcome of a call that is rejected: the store stays as it was.
pub open spec fn rejected(s: StoreView, e: ContractError) -> Outcome {
    Outcome { result: Err(e), store: s }
}

/// The outcome that an answer and a store after the call make up.
pub open spec fn outcome(r: Result<Response, ContractError>, s: StoreView) -> Outcome {
    Outcome {
        result: match r {
            Ok(response) => Ok(response@),
            Err(e) => Err(e),
        },
        store: s,
    }
}

/// The store of a contract that was just set up.
pub open spec fn instantiated(env: EnvView, info: InfoView, msg: InstantiateMsg) -> StoreView {
    StoreView {
        owner: match msg.owner {
            Some(owner) => owner@,
            None => info.sender,
        },
        config: ConfigView {
            token_address: msg.token_address@,
            can_mint_after_sale: msg.can_mint_after_sale,
        },
        sale_conducted: false,
        number_of_tokens_available: 0,
        state: None,
        purchases: Seq::empty(),
        available_tokens: Seq::empty(),
    }
}

/// Sets a contract up: the caller owns it unless an owner is named, no sale has taken
/// place, and nothing is on offer.
pub fn instantiate(env: &Env, info: &MessageInfo, msg: InstantiateMsg) -> (r: (Store, Response))
    ensures
        r.0.wf(),
        r.0@ == instantiated(env@, info@, msg),
        r.1@ == (ResponseView { event: EventView::Instantiate, messages: Seq::empty() }),
{
    let owner = match msg.owner {
        Some(owner) => owner,
        None => info.sender.clone(),
    };
    let store = Store {
        owner,
        config: Config {
            token_address: msg.token_address,
            can_mint_after_sale: msg.can_mint_after_sale,
        },
        sale_conducted: false,
        number_of_tokens_available: 0,
        state: None,
        purchases: Ledger::new(),
        available_tokens: TokenSet::new(),
    };
    let response = Response { event: Event::Instantiate, messages: Vec::new() };
    assert(response.messages.deep_view() =~= Seq::empty());
    (store, response)
}

/// Who owns a token that is minted with `m`: the owner that it names, or the
/// contract itself.
pub open spec fn mint_owner(m: MintMsgView, contract: Seq<char>) -> Seq<char> {
    match m.owner {
        Some(owner) => owner,
        None => contract,
    }
}

/// The instruction that has the registry mint the token of `m`.
pub open spec fn mint_instruction(m: MintMsgView, contract: Seq<char>, registry: Seq<char>) -> InstructionView {
    InstructionView::Mint {
        contract_addr: registry,
        token_id: m.token_id,
        owner: mint_owner(m, contract),
        token_uri: m.token_uri,
        extension: m.extension,
    }
}

/// The tokens on offer once `msgs` are minted: those that the contract owns join
/// the offer, the others do not.
pub open spec fn offered(tokens: Seq<Seq<char>>, msgs: Seq<MintMsgView>, contract: Seq<char>) -> Seq<
    Seq<char>,
>
    decreases msgs.len(),
{
    if msgs.len() == 0 {
        tokens
    } else {
        let before = offered(tokens, msgs.drop_last(), contract);
        if mint_owner(msgs.last(), contract) == contract {
            with_key(before, msgs.last().token_id)
        } else {
            before
        }
    }
}

/// Minting. Only the owner mints, without funds, at most a hundred tokens a call,
/// while no sale exists, and after a sale only where the configuration allows it.
/// The tokens that the contract owns join the offer and are counted, each once.
pub open spec fn mint_outcome(s: StoreView, env: EnvView, info: InfoView, msgs: Seq<MintMsgView>) -> Outcome {
    let tokens = offered(s.available_tokens, msgs, env.contract_address);
    let count = s.number_of_tokens_available + (tokens.len() - s.available_tokens.len());
    if info.funds.len() > 0 {
        rejected(s, ContractError::NonPayable)
    } else if msgs.len() > MAX_MINT_LIMIT {
        rejected(s, ContractError::TooManyMintMessages { limit: MAX_MINT_LIMIT })
    } else if info.sender != s.owner {
        rejected(s, ContractError::Unauthorized)
    } else if s.state is Some {
        rejected(s, ContractError::SaleStarted)
    } else if s.sale_conducted && !s.config.can_mint_after_sale {
        rejected(s, ContractError::CannotMintAfterSaleConducted)
    } else if count > u128::MAX {
        rejected(s, ContractError::Overflow)
    } else {
        Outcome {
            result: Ok(
                ResponseView {
                    event: EventView::Mint { count: msgs.len() as usize },
                    messages: msgs.map_values(
                        |m: MintMsgView|
                            mint_instruction(m, env.contract_address, s.config.token_address),
                    ),
                },
            ),
            store: StoreView {
                available_tokens: tokens,
                number_of_tokens_available: count as u128,
                ..s
            },
        }
    }
}

/// The offer never shrinks while tokens are minted, and grows by at most one a token.
pub proof fn lemma_offered_grows(tokens: Seq<Seq<char>>, msgs: Seq<MintMsgView>, contract: Seq<char>)
    requires
        crate::order::ascending(tokens),
    ensures
        crate::order::ascending(offered(tokens, msgs, contract)),
        tokens.len() <= offered(tokens, msgs, contract).len() <= tokens.len() + msgs.len(),
        msgs.len() > 0 ==> offered(tokens, msgs.drop_last(), contract).len() <= offered(
            tokens,
            msgs,
            contract,
        ).len(),
    decreases msgs.len(),
{
    if msgs.len() > 0 {
        lemma_offered_grows(tokens, msgs.drop_last(), contract);
        crate::tokens::lemma_with_key(
            offered(tokens, msgs.drop_last(), contract),
            msgs.last().token_id,
        );
    }
}

/// Takes one mint request: puts the token on offer where the contract owns it, counts
/// it where it was not on offer before, and gives the instruction for the registry.
/// Fails, and changes nothing, where the count would leave its range.
pub fn mint(
    tokens: &mut TokenSet,
    count: &mut u128,
    crowdfund_contract: &str,
    token_contract: &str,
    mint_msg: &CrowdfundMintMsg,
) -> (r: Result<Instruction, ContractError>)
    requires
        old(tokens).wf(),
    ensures
        final(tokens).wf(),
        ({
            let m = mint_msg@;
            let joins = mint_owner(m, crowdfund_contract@) == crowdfund_contract@;
            let fresh = joins && !old(tokens)@.contains(m.token_id);
            match r {
                Ok(instruction) => {
                    &&& !(fresh && *old(count) == u128::MAX)
                    &&& instruction@ == mint_instruction(m, crowdfund_contract@, token_contract@)
                    &&& final(tokens)@ == if joins {
                        with_key(old(tokens)@, m.token_id)
                    } else {
                        old(tokens)@
                    }
                    &&& *final(count) == if fresh {
                        *old(count) + 1
                    } else {
                        *old(count) as int
                    }
                },
                Err(e) => {
                    &&& e == ContractError::Overflow
                    &&& fresh && *old(count) == u128::MAX
                    &&& final(tokens)@ == old(tokens)@
                    &&& *final(count) == *old(count)
                },
            }
        }),
{
    let owner = match &mint_msg.owner {
        Some(owner) => owner.clone(),
        None => crowdfund_contract.to_owned(),
    };
    if crate::order::key_equal(owner.as_str(), crowdfund_contract) {
        if !tokens.has(mint_msg.token_id.as_str()) {
            *count = match count.checked_add(1) {
                Some(c) => c,
                None => {
                    return Err(ContractError::Overflow);
                },
            };
        }
        tokens.save(mint_msg.token_id.clone());
    }
    Ok(
        Instruction::Mint {
            contract_addr: token_contract.to_owned(),
            token_id: mint_msg.token_id.clone(),
            owner,
            token_uri: crate::msg::clone_opt_string(&mint_msg.token_uri),
            extension: mint_msg.extension.clone(),
        },
    )
}

/// Mints the tokens of `mint_msgs`; see [`mint_outcome`].
pub fn execute_mint(store: &mut Store, env: &Env, info: &MessageInfo, mint_msgs: Vec<CrowdfundMintMsg>) -> (r:
    Result<Response, ContractError>)
    requires
        old(store).wf(),
    ensures
        final(store).wf(),
        outcome(r, final(store)@) == mint_outcome(old(store)@, env@, info@, mint_msgs.deep_view()),
{
    if nonpayable(info).is_err() {
        return Err(ContractError::NonPayable);
    }
    if mint_msgs.len() > MAX_MINT_LIMIT as usize {
        return Err(ContractError::TooManyMintMessages { limit: MAX_MINT_LIMIT });
    }
    if !crate::order::key_equal(info.sender.as_str(), store.owner.as_str()) {
        return Err(ContractError::Unauthorized);
    }
    if store.state.is_some() {
        return Err(ContractError::SaleStarted);
    }
    if store.sale_conducted && !store.config.can_mint_after_sale {
        return Err(ContractError::CannotMintAfterSaleConducted);
    }
    let ghost s = store@;
    let ghost msgs = mint_msgs.deep_view();
    let ghost contract = env.contract_address@;
    let mut tokens = store.available_tokens.copy();
    let mut count: u128 = store.number_of_tokens_available;
    let mut messages: Vec<Instruction> = Vec::new();
    let mut i: usize = 0;
    while i < mint_msgs.len()
        invariant
            i <= mint_msgs.len(),
            msgs == mint_msgs.deep_view(),
            contract == env.contract_address@,
            *store == *old(store),
            s == store@,
            store.wf(),
            mint_msgs.len() <= MAX_MINT_LIMIT,
            info@.funds.len() == 0,
            info@.sender == s.owner,
            s.state is None,
            !(s.sale_conducted && !s.config.can_mint_after_sale),
            crate::order::ascending(s.available_tokens),
            tokens.wf(),
            tokens@ == offered(s.available_tokens, msgs.take(i as int), contract),
            count == s.number_of_tokens_available + (tokens@.len() - s.available_tokens.len()),
            messages.len() == i,
            forall|j: int|
                0 <= j < i ==> (#[trigger] messages[j])@ == mint_instruction(
                    msgs[j],
                    contract,
                    s.config.token_address,
                ),
        decreases mint_msgs.len() - i,
    {
        let m = &mint_msgs[i];
        proof {
            assert(msgs.take(i + 1).drop_last() =~= msgs.take(i as int));
            crate::tokens::lemma_with_key(tokens@, m.token_id@);
        }
        let minted = mint(
            &mut tokens,
            &mut count,
            env.contract_address.as_str(),
            store.config.token_address.as_str(),
            m,
        );
        match minted {
            Ok(instruction) => {
                messages.push(instruction);
            },
            Err(e) => {
                proof {
                    lemma_offered_monotone(s.available_tokens, msgs, contract, i + 1);
                }
                return Err(e);
            },
        }
        i += 1;
    }
    proof {
        assert(msgs.take(mint_msgs.len() as int) =~= msgs);
        assert(messages.deep_view() =~= msgs.map_values(
            |m: MintMsgView| mint_instruction(m, contract, s.config.token_address),
        ));
    }
    store.available_tokens = tokens;
    store.number_of_tokens_available = count;
    Ok(Response { event: Event::Mint { count: mint_msgs.len() }, messages })
}

/// The offer after more mint requests is no smaller.
pub proof fn lemma_offered_monotone(
    tokens: Seq<Seq<char>>,
    msgs: Seq<MintMsgView>,
    contract: Seq<char>,
    i: int,
)
    requires
        crate::order::ascending(tokens),
        0 <= i <= msgs.len(),
    ensures
        offered(tokens, msgs.take(i), contract).len() <= offered(tokens, msgs, contract).len(),
    decreases msgs.len() - i,
{
    if i < msgs.len() {
        lemma_offered_monotone(tokens, msgs, contract, i + 1);
        assert(msgs.take(i + 1).drop_last() =~= msgs.take(i));
        lemma_offered_grows(tokens, msgs.take(i + 1), contract);
    } else {
        assert(msgs.take(i) =~= msgs);
    }
}

/// The store once a sale on the terms of `msg` is open; an error where a sale exists
/// already or the price is zero. One wallet may hold one token where the terms do
/// not say how many.
pub open spec fn sale_started(s: StoreView, msg: StartSaleView) -> Result<StoreView, ContractError> {
    if s.state is Some {
        Err(ContractError::SaleStarted)
    } else if msg.price.amount == 0 {
        Err(ContractError::InvalidZeroAmount)
    } else {
        Ok(
            StoreView {
                sale_conducted: true,
                state: Some(
                    StateView {
                        end_time: msg.expiration,
                        price: msg.price,
                        min_tokens_sold: msg.min_tokens_sold,
                        max_amount_per_wallet: match msg.max_amount_per_wallet {
                            Some(n) => n,
                            None => 1,
                        },
                        amount_sold: 0,
                        amount_to_send: 0,
                        amount_transferred: 0,
                        recipient: msg.recipient,
                    },
                ),
                ..s
            },
        )
    }
}

/// Opens a sale on the terms of `msg`, with nothing sold yet, and marks that a sale
/// has taken place; see [`sale_started`].
pub fn start_sale(store: &mut Store, msg: StartSaleMsg) -> (r: Result<(), ContractError>)
    requires
        old(store).wf(),
    ensures
        final(store).wf(),
        match r {
            Ok(_) => sale_started(old(store)@, msg@) == Ok::<StoreView, ContractError>(
                final(store)@,
            ),
            Err(e) => sale_started(old(store)@, msg@) == Err::<StoreView, ContractError>(e)
                && final(store)@ == old(store)@,
        },
{
    if store.state.is_some() {
        return Err(ContractError::SaleStarted);
    }
    if msg.price.amount == 0 {
        return Err(ContractError::InvalidZeroAmount);
    }
    let max_amount_per_wallet = match msg.max_amount_per_wallet {
        Some(n) => n,
        None => 1u32,
    };
    store.state = Some(
        State {
            end_time: msg.expiration,
            price: msg.price,
            min_tokens_sold: msg.min_tokens_sold,
            max_amount_per_wallet,
            amount_sold: 0,
            amount_to_send: 0,
            amount_transferred: 0,
            recipient: msg.recipient,
        },
    );
    store.sale_conducted = true;
    Ok(())
}

/// Starting a sale. Only the owner starts one, without funds. It starts at the time
/// asked for, which must lie after the current block's, or right after the current
/// block; it must end after it starts.
pub open spec fn start_sale_outcome(
    s: StoreView,
    env: EnvView,
    info: InfoView,
    start_time: Option<Milliseconds>,
    end_time: Milliseconds,
    price: CoinView,
    min_tokens_sold: u128,
    max_amount_per_wallet: Option<u32>,
    recipient: crate::msg::RecipientView,
) -> Outcome {
    if info.funds.len() > 0 {
        rejected(s, ContractError::NonPayable)
    } else if info.sender != s.owner {
        rejected(s, ContractError::Unauthorized)
    } else {
        match (start_time_of(env.block, start_time), expiration_of(end_time)) {
            (Err(e), _) => rejected(s, e),
            (Ok(_), Err(e)) => rejected(s, e),
            (Ok((start, _)), Ok(end)) => if !end.after(start) {
                rejected(s, ContractError::StartTimeAfterEndTime)
            } else {
                let terms = StartSaleView {
                    expiration: end,
                    price,
                    min_tokens_sold,
                    max_amount_per_wallet,
                    recipient,
                };
                match sale_started(s, terms) {
                    Err(e) => rejected(s, e),
                    Ok(store) => Outcome {
                        result: Ok(
                            ResponseView {
                                event: EventView::StartSale {
                                    start_time: start,
                                    end_time: end,
                                    price,
                                    min_tokens_sold,
                                    max_amount_per_wallet: store.state->0.max_amount_per_wallet,
                                },
                                messages: Seq::empty(),
                            },
                        ),
                        store,
                    },
                }
            },
        }
    }
}

/// Starts a sale; see [`start_sale_outcome`].
pub fn execute_start_sale(
    store: &mut Store,
    env: &Env,
    info: &MessageInfo,
    start_time: Option<Milliseconds>,
    end_time: Milliseconds,
    price: Coin,
    min_tokens_sold: u128,
    max_amount_per_wallet: Option<u32>,
    recipient: Recipient,
) -> (r: Result<Response, ContractError>)
    requires
        old(store).wf(),
    ensures
        final(store).wf(),
        outcome(r, final(store)@) == start_sale_outcome(
            old(store)@,
            env@,
            info@,
            start_time,
            end_time,
            price@,
            min_tokens_sold,
            max_amount_per_wallet,
            recipient@,
        ),
{
    if nonpayable(info).is_err() {
        return Err(ContractError::NonPayable);
    }
    if !crate::order::key_equal(info.sender.as_str(), store.owner.as_str()) {
        return Err(ContractError::Unauthorized);
    }
    let start_expiration = match get_and_validate_start_time(&env.block, start_time) {
        Ok((start, _)) => start,
        Err(e) => {
            return Err(e);
        },
    };
    let end_expiration = match expiration_from_milliseconds(end_time) {
        Ok(end) => end,
        Err(e) => {
            return Err(e);
        },
    };
    if !end_expiration.is_after(&start_expiration) {
        return Err(ContractError::StartTimeAfterEndTime);
    }
    let max = match max_amount_per_wallet {
        Some(n) => n,
        None => 1u32,
    };
    let reported = price.clone();
    let terms = StartSaleMsg {
        expiration: end_expiration,
        price,
        min_tokens_sold,
        max_amount_per_wallet,
        recipient,
    };
    match start_sale(store, terms) {
        Ok(_) => {},
        Err(e) => {
            return Err(e);
        },
    }
    let response = Response {
        event: Event::StartSale {
            start_time: start_expiration,
            end_time: end_expiration,
            price: reported,
            min_tokens_sold,
            max_amount_per_wallet: max,
        },
        messages: Vec::new(),
    };
    assert(response.messages.deep_view() =~= Seq::empty());
    Ok(response)
}

/// Whether a sale is open in `block`: it exists and its time is not over.
pub open spec fn sale_open(s: StoreView, block: crate::expiration::BlockInfo) -> bool {
    s.state is Some && !s.state->0.end_time.expired(block)
}

/// How many more tokens a wallet may buy that holds `held` unsettled ones.
pub open spec fn wallet_quota(st: StateView, held: nat) -> int {
    if held >= st.max_amount_per_wallet {
        0
    } else {
        st.max_amount_per_wallet - held
    }
}

/// How many tokens a purchase goes for: the quota, or the number asked for where
/// that is less.
pub open spec fn tokens_wanted(number_of_tokens: Option<u32>, quota: int) -> int {
    match number_of_tokens {
        Some(n) => if n < quota { n as int } else { quota },
        None => quota,
    }
}

/// The ledger after `purchaser` bought the tokens `ids`, in this order, each with
/// the same tax and fee instructions.
pub open spec fn bought(
    rows: Seq<RowView>,
    ids: Seq<Seq<char>>,
    tax: u128,
    msgs: Seq<InstructionView>,
    purchaser: Seq<char>,
) -> Seq<RowView>
    decreases ids.len(),
{
    if ids.len() == 0 {
        rows
    } else {
        recorded(
            bought(rows, ids.drop_last(), tax, msgs, purchaser),
            PurchaseView { token_id: ids.last(), tax_amount: tax, msgs, purchaser },
        )
    }
}

/// The offer after the tokens `ids` were taken off it.
pub open spec fn taken(tokens: Seq<Seq<char>>, ids: Seq<Seq<char>>) -> Seq<Seq<char>>
    decreases ids.len(),
{
    if ids.len() == 0 {
        tokens
    } else {
        without_key(taken(tokens, ids.drop_last()), ids.last())
    }
}

/// What buying the tokens `ids` comes to: the payment that it takes and the store
/// after it. Each token costs the price and the tax that follows from the fee
/// collaborator's answer; the seller is credited what the fees leave of each price.
/// The funds sent must cover the prices, and then prices and taxes together. No
/// amount and no count may leave its range.
pub open spec fn tokens_purchased(s: StoreView, info: InfoView, rates: RatesView, ids: Seq<Seq<char>>) -> Result<
    (CoinView, StoreView),
    ContractError,
> {
    let st = s.state->0;
    let n = ids.len();
    let price = st.price.amount;
    let left = rates.remainder.amount;
    if s.state is None {
        Err(ContractError::NoOngoingSale)
    } else if n == 0 {
        Err(ContractError::AllTokensPurchased)
    } else if price * n > u128::MAX {
        Err(ContractError::Overflow)
    } else if !covers(info.funds, CoinView { denom: st.price.denom, amount: (price * n) as u128 }) {
        Err(ContractError::InsufficientFunds)
    } else {
        match tax_of(rates.msgs, price, left) {
            Err(e) => Err(e),
            Ok(tax) => {
                let required = CoinView {
                    denom: st.price.denom,
                    amount: (price * n + tax * n) as u128,
                };
                if tax * n > u128::MAX || st.amount_to_send + left * n > u128::MAX
                    || st.amount_sold + n > u128::MAX || s.number_of_tokens_available < n
                    || price * n + tax * n > u128::MAX {
                    Err(ContractError::Overflow)
                } else if !covers(info.funds, required) {
                    Err(ContractError::InsufficientFunds)
                } else {
                    Ok(
                        (
                            required,
                            StoreView {
                                state: Some(
                                    StateView {
                                        amount_sold: (st.amount_sold + n) as u128,
                                        amount_to_send: (st.amount_to_send + left * n) as u128,
                                        ..st
                                    },
                                ),
                                purchases: bought(s.purchases, ids, tax, rates.msgs, info.sender),
                                available_tokens: taken(s.available_tokens, ids),
                                number_of_tokens_available: (s.number_of_tokens_available
                                    - n) as u128,
                                ..s
                            },
                        ),
                    )
                }
            },
        }
    }
}

/// What goes back to the buyer: everything that came with the call, less the payment,
/// where that leaves anything in the sale's denomination.
pub open spec fn surplus_refund(info: InfoView, required: CoinView) -> Seq<InstructionView> {
    let left = deducted(info.funds, required);
    if covers(left, CoinView { denom: required.denom, amount: 1 }) {
        seq![InstructionView::Send { to_address: info.sender, amount: left }]
    } else {
        Seq::empty()
    }
}

/// Buying the tokens `ids`: the purchase itself, and the answer that hands the
/// surplus back.
pub open spec fn buy_outcome(s: StoreView, info: InfoView, rates: RatesView, ids: Seq<Seq<char>>, event: EventView) -> Outcome {
    match tokens_purchased(s, info, rates, ids) {
        Err(e) => rejected(s, e),
        Ok((required, store)) => Outcome {
            result: Ok(ResponseView { event, messages: surplus_refund(info, required) }),
            store,
        },
    }
}

/// Buying by number. There must be an open sale and the buyer's wallet must have
/// room. The tokens bought are the first on offer, in ascending order: as many as
/// asked for, or as the wallet has room for where that is less or nothing is asked
/// for, or all that are on offer where they are fewer.
pub open spec fn purchase_outcome(
    s: StoreView,
    env: EnvView,
    info: InfoView,
    number_of_tokens: Option<u32>,
    rates: RatesView,
) -> Outcome {
    let st = s.state->0;
    let quota = wallet_quota(st, purchases_of(s.purchases, info.sender).len());
    let wanted = tokens_wanted(number_of_tokens, quota);
    let ids = listing(s.available_tokens, None, wanted);
    if !sale_open(s, env.block) {
        rejected(s, ContractError::NoOngoingSale)
    } else if quota == 0 {
        rejected(s, ContractError::PurchaseLimitReached)
    } else {
        buy_outcome(
            s,
            info,
            rates,
            ids,
            EventView::Purchase {
                number_of_tokens_wanted: wanted as u32,
                number_of_tokens_purchased: ids.len() as u32,
            },
        )
    }
}

/// Buying one token of the buyer's choice. There must be an open sale, the token
/// must be on offer and the buyer's wallet must have room.
pub open spec fn purchase_by_token_id_outcome(
    s: StoreView,
    env: EnvView,
    info: InfoView,
    token_id: Seq<char>,
    rates: RatesView,
) -> Outcome {
    let st = s.state->0;
    let quota = wallet_quota(st, purchases_of(s.purchases, info.sender).len());
    if !sale_open(s, env.block) {
        rejected(s, ContractError::NoOngoingSale)
    } else if !s.available_tokens.contains(token_id) {
        rejected(s, ContractError::TokenNotAvailable)
    } else if quota == 0 {
        rejected(s, ContractError::PurchaseLimitReached)
    } else {
        buy_outcome(s, info, rates, seq![token_id], EventView::PurchaseByTokenId { token_id })
    }
}

/// Buying keeps the ledger and the offer in order.
pub proof fn lemma_bought_taken(
    rows: Seq<RowView>,
    tokens: Seq<Seq<char>>,
    ids: Seq<Seq<char>>,
    tax: u128,
    msgs: Seq<InstructionView>,
    purchaser: Seq<char>,
)
    requires
        crate::ledger::ledger_wf(rows),
        crate::order::ascending(tokens),
    ensures
        crate::ledger::ledger_wf(bought(rows, ids, tax, msgs, purchaser)),
        crate::order::ascending(taken(tokens, ids)),
    decreases ids.len(),
{
    if ids.len() > 0 {
        lemma_bought_taken(rows, tokens, ids.drop_last(), tax, msgs, purchaser);
        crate::ledger::lemma_recorded(
            bought(rows, ids.drop_last(), tax, msgs, purchaser),
            PurchaseView { token_id: ids.last(), tax_amount: tax, msgs, purchaser },
        );
        crate::tokens::lemma_without_key(taken(tokens, ids.drop_last()), ids.last());
    }
}

/// Sells the tokens `token_ids` to the caller and gives the payment that it takes;
/// see [`tokens_purchased`].
pub fn purchase_tokens(store: &mut Store, token_ids: &Vec<String>, info: &MessageInfo, rates: &RatesResponse) -> (r:
    Result<Coin, ContractError>)
    requires
        old(store).wf(),
    ensures
        final(store).wf(),
        match r {
            Ok(required) => tokens_purchased(old(store)@, info@, rates@, token_ids.deep_view())
                == Ok::<(CoinView, StoreView), ContractError>((required@, final(store)@)),
            Err(e) => tokens_purchased(old(store)@, info@, rates@, token_ids.deep_view())
                == Err::<(CoinView, StoreView), ContractError>(e) && final(store)@ == old(
                store,
            )@,
        },
{
    let ghost s = store@;
    let ghost ids = token_ids.deep_view();
    let state = match &store.state {
        Some(state) => state.clone(),
        None => {
            return Err(ContractError::NoOngoingSale);
        },
    };
    if token_ids.len() == 0 {
        return Err(ContractError::AllTokensPurchased);
    }
    let n: u128 = token_ids.len() as u128;
    let price = state.price.amount;
    let left = rates.remainder.amount;
    let cost = match price.checked_mul(n) {
        Some(cost) => cost,
        None => {
            return Err(ContractError::Overflow);
        },
    };
    let total_cost = Coin { denom: state.price.denom.clone(), amount: cost };
    if !has_coins(&info.funds, &total_cost) {
        return Err(ContractError::InsufficientFunds);
    }
    let tax = match get_tax_amount(&rates.msgs, price, left) {
        Ok(tax) => tax,
        Err(e) => {
            return Err(e);
        },
    };
    let total_tax = match tax.checked_mul(n) {
        Some(t) => t,
        None => {
            return Err(ContractError::Overflow);
        },
    };
    let proceeds = match left.checked_mul(n) {
        Some(p) => p,
        None => {
            return Err(ContractError::Overflow);
        },
    };
    let amount_to_send = match state.amount_to_send.checked_add(proceeds) {
        Some(a) => a,
        None => {
            return Err(ContractError::Overflow);
        },
    };
    let amount_sold = match state.amount_sold.checked_add(n) {
        Some(a) => a,
        None => {
            return Err(ContractError::Overflow);
        },
    };
    let number = match store.number_of_tokens_available.checked_sub(n) {
        Some(a) => a,
        None => {
            return Err(ContractError::Overflow);
        },
    };
    let payment = match cost.checked_add(total_tax) {
        Some(a) => a,
        None => {
            return Err(ContractError::Overflow);
        },
    };
    let required_payment = Coin { denom: state.price.denom.clone(), amount: payment };
    if !has_coins(&info.funds, &required_payment) {
        return Err(ContractError::InsufficientFunds);
    }
    let mut i: usize = 0;
    while i < token_ids.len()
        invariant
            i <= token_ids.len(),
            ids == token_ids.deep_view(),
            store.wf(),
            store.purchases@ == bought(
                s.purchases,
                ids.take(i as int),
                tax,
                rates@.msgs,
                info@.sender,
            ),
            store.available_tokens@ == taken(s.available_tokens, ids.take(i as int)),
            store.owner == old(store).owner,
            store.config == old(store).config,
            store.sale_conducted == old(store).sale_conducted,
            store.number_of_tokens_available == old(store).number_of_tokens_available,
            store.state == old(store).state,
        decreases token_ids.len() - i,
    {
        proof {
            assert(ids.take(i + 1).drop_last() =~= ids.take(i as int));
        }
        let purchase = Purchase {
            token_id: token_ids[i].clone(),
            tax_amount: tax,
            msgs: crate::msg::clone_instructions(&rates.msgs),
            purchaser: info.sender.clone(),
        };
        store.purchases.record(purchase);
        store.available_tokens.remove(token_ids[i].as_str());
        i += 1;
    }
    assert(ids.take(token_ids.len() as int) =~= ids);
    store.number_of_tokens_available = number;
    store.state = Some(
        State {
            end_time: state.end_time,
            price: state.price,
            min_tokens_sold: state.min_tokens_sold,
            max_amount_per_wallet: state.max_amount_per_wallet,
            amount_sold,
            amount_to_send,
            amount_transferred: state.amount_transferred,
            recipient: state.recipient,
        },
    );
    Ok(required_payment)
}

/// What is handed back of the funds that came with a purchase; see
/// [`surplus_refund`].
fn refund_surplus(info: &MessageInfo, required: &Coin) -> (r: Vec<Instruction>)
    requires
        covers(info@.funds, required@),
    ensures
        r.deep_view() == surplus_refund(info@, required@),
{
    let mut funds = clone_coins(&info.funds);
    deduct_funds(&mut funds, required);
    let one = Coin { denom: required.denom.clone(), amount: 1 };
    let mut messages: Vec<Instruction> = Vec::new();
    if has_coins(&funds, &one) {
        messages.push(Instruction::Send { to_address: info.sender.clone(), amount: funds });
    }
    messages
}

/// Whether buying `n` tokens gets as far as the fees: there is a token to buy, and
/// the funds sent cover the prices.
pub open spec fn reaches_fees(s: StoreView, info: InfoView, n: nat) -> bool {
    let st = s.state->0;
    &&& n > 0
    &&& st.price.amount * n <= u128::MAX
    &&& covers(
        info.funds,
        CoinView { denom: st.price.denom, amount: (st.price.amount * n) as u128 },
    )
}

/// Whether the funds of the call cover the price of `n` tokens, of which there is at
/// least one.
pub(crate) fn covers_prices(state: &State, info: &MessageInfo, n: usize) -> (r: bool)
    ensures
        r == ({
            &&& n > 0
            &&& state.price.amount * n <= u128::MAX
            &&& covers(
                info@.funds,
                CoinView { denom: state.price.denom@, amount: (state.price.amount * n) as u128 },
            )
        }),
{
    if n == 0 {
        return false;
    }
    match state.price.amount.checked_mul(n as u128) {
        Some(cost) => has_coins(&info.funds, &Coin { denom: state.price.denom.clone(), amount: cost }),
        None => false,
    }
}

/// How many more tokens the caller's wallet may buy.
pub(crate) fn quota_of(store: &Store, state: &State, info: &MessageInfo) -> (r: u32)
    requires
        store.wf(),
    ensures
        r == wallet_quota(state@, purchases_of(store@.purchases, info@.sender).len()),
{
    let held = store.purchases.count_of(info.sender.as_str());
    if held >= state.max_amount_per_wallet as usize {
        0
    } else {
        state.max_amount_per_wallet - held as u32
    }
}

/// Buys tokens by number; see [`purchase_outcome`].
pub fn execute_purchase(
    store: &mut Store,
    env: &Env,
    info: &MessageInfo,
    number_of_tokens: Option<u32>,
    rates: &RatesResponse,
) -> (r: Result<Response, ContractError>)
    requires
        old(store).wf(),
    ensures
        final(store).wf(),
        outcome(r, final(store)@) == purchase_outcome(
            old(store)@,
            env@,
            info@,
            number_of_tokens,
            rates@,
        ),
{
    let max_possible = match &store.state {
        Some(state) => {
            if state.end_time.is_expired(&env.block) {
                return Err(ContractError::NoOngoingSale);
            }
            quota_of(store, state, info)
        },
        None => {
            return Err(ContractError::NoOngoingSale);
        },
    };
    if max_possible == 0 {
        return Err(ContractError::PurchaseLimitReached);
    }
    let number_of_tokens_wanted = match number_of_tokens {
        Some(n) => if n < max_possible { n } else { max_possible },
        None => max_possible,
    };
    let token_ids = store.available_tokens.keys(None, number_of_tokens_wanted as usize);
    let number_of_tokens_purchased = token_ids.len();
    let required_payment = match purchase_tokens(store, &token_ids, info, rates) {
        Ok(required) => required,
        Err(e) => {
            return Err(e);
        },
    };
    let messages = refund_surplus(info, &required_payment);
    Ok(
        Response {
            event: Event::Purchase {
                number_of_tokens_wanted,
                number_of_tokens_purchased: number_of_tokens_purchased as u32,
            },
            messages,
        },
    )
}

/// Buys the token `token_id`; see [`purchase_by_token_id_outcome`].
pub fn execute_purchase_by_token_id(
    store: &mut Store,
    env: &Env,
    info: &MessageInfo,
    token_id: String,
    rates: &RatesResponse,
) -> (r: Result<Response, ContractError>)
    requires
        old(store).wf(),
    ensures
        final(store).wf(),
        outcome(r, final(store)@) == purchase_by_token_id_outcome(
            old(store)@,
            env@,
            info@,
            token_id@,
            rates@,
        ),
{
    let max_possible = match &store.state {
        Some(state) => {
            if state.end_time.is_expired(&env.block) {
                return Err(ContractError::NoOngoingSale);
            }
            quota_of(store, state, info)
        },
        None => {
            return Err(ContractError::NoOngoingSale);
        },
    };
    if !store.available_tokens.has(token_id.as_str()) {
        return Err(ContractError::TokenNotAvailable);
    }
    if max_possible == 0 {
        return Err(ContractError::PurchaseLimitReached);
    }
    let mut token_ids: Vec<String> = Vec::new();
    token_ids.push(token_id.clone());
    assert(token_ids.deep_view() =~= seq![token_id@]);
    let required_payment = match purchase_tokens(store, &token_ids, info, rates) {
        Ok(required) => required,
        Err(e) => {
            return Err(e);
        },
    };
    let messages = refund_surplus(info, &required_payment);
    Ok(Response { event: Event::PurchaseByTokenId { token_id }, messages })
}

} // verus!
