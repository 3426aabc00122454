//! The single way into the contract for commands, and the questions that it answers.

use crate::contract::{
    covers_prices, execute_mint, execute_purchase, execute_purchase_by_token_id,
    execute_start_sale, mint_outcome, outcome, purchase_by_token_id_outcome, purchase_outcome,
    quota_of, reaches_fees, rejected, sale_open, start_sale_outcome, tokens_wanted, wallet_quota,
    Outcome,
};
use crate::ledger::purchases_of;
use crate::error::ContractError;
use crate::msg::{
    nonpayable, Env, EnvView, Event, EventView, ExecuteMsg, InfoView, MessageInfo, QueryMsg,
    Response, ResponseView,
};
use crate::rates::{RatesResponse, RatesView};
use crate::settlement::{
    batch_fits, batch_limit, batch_size, claim_refund_outcome, end_sale_outcome,
    execute_claim_refund, execute_end_sale, first, may_end, refunds_fit, sale_is_over,
};
use crate::state::{
    get_available_tokens, listing_limit, Config, ConfigView, State, StateView, Store, StoreView,
};
use crate::tokens::listing;
use vstd::prelude::*;

verus! {

/// What the outside collaborators answered when the caller asked them ahead of the
/// call.
#[derive(Debug, Clone, PartialEq, Eq)]
pub struct Querier {
    /// The fee collaborator's answer for a payment of one unit price of the sale.
    pub rates: RatesResponse,
    /// The tokens that the asset registry lists as the contract's own, from the first
    /// on, as many as a settlement batch may release.
    pub tokens: Vec<String>,
    /// Whether the address that is to become the asset registry answers as one.
    pub is_registry: bool,
}

/// What a [`Querier`] stands for.
pub struct QuerierView {
    pub rates: RatesView,
    pub tokens: Seq<Seq<char>>,
    pub is_registry: bool,
}

impl View for Querier {
    type V = QuerierView;

    open spec fn view(&self) -> QuerierView {
        QuerierView {
            rates: self.rates@,
            tokens: self.tokens.deep_view(),
            is_registry: self.is_registry,
        }
    }
}

/// Naming another asset registry. Only the owner does so, without funds, while
/// nothing is counted as on offer, and the address must answer as a registry; who
/// fails any of the last three is not authorized.
pub open spec fn update_token_contract_outcome(
    s: StoreView,
    info: InfoView,
    address: Seq<char>,
    is_registry: bool,
) -> Outcome {
    if info.funds.len() > 0 {
        rejected(s, ContractError::NonPayable)
    } else if info.sender != s.owner || s.number_of_tokens_available != 0 || !is_registry {
        rejected(s, ContractError::Unauthorized)
    } else {
        Outcome {
            result: Ok(
                ResponseView { event: EventView::UpdateTokenContract, messages: Seq::empty() },
            ),
            store: StoreView {
                config: ConfigView { token_address: address, ..s.config },
                ..s
            },
        }
    }
}

/// Names another asset registry; see [`update_token_contract_outcome`].
pub fn execute_update_token_contract(
    store: &mut Store,
    info: &MessageInfo,
    address: String,
    is_registry: bool,
) -> (r: Result<Response, ContractError>)
    requires
        old(store).wf(),
    ensures
        final(store).wf(),
        outcome(r, final(store)@) == update_token_contract_outcome(
            old(store)@,
            info@,
            address@,
            is_registry,
        ),
{
    if nonpayable(info).is_err() {
        return Err(ContractError::NonPayable);
    }
    if !crate::order::key_equal(info.sender.as_str(), store.owner.as_str()) {
        return Err(ContractError::Unauthorized);
    }
    if store.number_of_tokens_available != 0 {
        return Err(ContractError::Unauthorized);
    }
    if !is_registry {
        return Err(ContractError::Unauthorized);
    }
    store.config.token_address = address;
    let response = Response { event: Event::UpdateTokenContract, messages: Vec::new() };
    assert(response.messages.deep_view() =~= Seq::empty());
    Ok(response)
}

/// Whether the command reads the fee collaborator's answer: it is a purchase that
/// gets as far as the fees. The sale is open, the wallet has room, there is a token
/// to buy, and the funds cover the prices.
pub open spec fn reads_rates(s: StoreView, env: EnvView, info: InfoView, msg: ExecuteMsg) -> bool {
    let st = s.state->0;
    let quota = wallet_quota(st, purchases_of(s.purchases, info.sender).len());
    match msg {
        ExecuteMsg::Purchase { number_of_tokens } => sale_open(s, env.block) && quota > 0
            && reaches_fees(
            s,
            info,
            listing(s.available_tokens, None, tokens_wanted(number_of_tokens, quota)).len(),
        ),
        ExecuteMsg::PurchaseByTokenId { token_id } => sale_open(s, env.block)
            && s.available_tokens.contains(token_id@) && quota > 0 && reaches_fees(s, info, 1),
        _ => false,
    }
}

/// Whether the command reads the fee collaborator's answer, so that the collaborator
/// is to be asked ahead of it; see [`reads_rates`].
pub fn asks_rates(store: &Store, env: &Env, info: &MessageInfo, msg: &ExecuteMsg) -> (r: bool)
    requires
        store.wf(),
    ensures
        r == reads_rates(store@, env@, info@, *msg),
{
    let state = match &store.state {
        Some(state) => state,
        None => {
            return false;
        },
    };
    if state.end_time.is_expired(&env.block) {
        return false;
    }
    let quota = quota_of(store, state, info);
    if quota == 0 {
        return false;
    }
    let n: usize = match msg {
        ExecuteMsg::Purchase { number_of_tokens } => {
            let wanted = match number_of_tokens {
                Some(n) => if *n < quota { *n } else { quota },
                None => quota,
            };
            if wanted as usize <= store.available_tokens.len() {
                wanted as usize
            } else {
                store.available_tokens.len()
            }
        },
        ExecuteMsg::PurchaseByTokenId { token_id } => {
            if !store.available_tokens.has(token_id.as_str()) {
                return false;
            }
            1
        },
        _ => {
            return false;
        },
    };
    covers_prices(state, info, n)
}

/// How many of the tokens that the asset registry names the command reads: as many
/// as a settlement step may release, where the step gets as far as releasing. There is a
/// sale, no funds came with the call, the sale is over, and either it missed its
/// threshold and the refunds of the batch can be paid, or every token sold is with
/// its buyer. Every other command reads none.
pub open spec fn reads_tokens(s: StoreView, env: EnvView, info: InfoView, msg: ExecuteMsg) -> int {
    let st = s.state->0;
    match msg {
        ExecuteMsg::EndSale { limit } => if s.state is Some && info.funds.len() == 0 && may_end(
            s,
            env,
            info,
        ) && (if st.amount_sold < st.min_tokens_sold {
            refunds_fit(first(s.purchases, batch_limit(limit)), st.price.amount)
        } else {
            st.amount_transferred == st.amount_sold
        }) {
            batch_limit(limit)
        } else {
            0
        },
        _ => 0,
    }
}

/// How many of the contract's tokens the asset registry is to be asked for ahead of
/// the command, and none where the command does not read the answer; see
/// [`reads_tokens`].
pub fn asks_tokens(store: &Store, env: &Env, info: &MessageInfo, msg: &ExecuteMsg) -> (r: u32)
    requires
        store.wf(),
    ensures
        r == reads_tokens(store@, env@, info@, *msg),
{
    let limit = match msg {
        ExecuteMsg::EndSale { limit } => *limit,
        _ => {
            return 0;
        },
    };
    let state = match &store.state {
        Some(state) => state,
        None => {
            return 0;
        },
    };
    if nonpayable(info).is_err() || !sale_is_over(store, state, env, info) {
        return 0;
    }
    let releases = if state.amount_sold < state.min_tokens_sold {
        batch_fits(store, &state.price, limit)
    } else {
        state.amount_transferred == state.amount_sold
    };
    if releases {
        batch_size(limit)
    } else {
        0
    }
}

/// What a command comes to.
pub open spec fn execute_outcome(
    s: StoreView,
    querier: QuerierView,
    env: EnvView,
    info: InfoView,
    msg: ExecuteMsg,
) -> Outcome {
    match msg {
        ExecuteMsg::Mint(mint_msgs) => mint_outcome(s, env, info, mint_msgs.deep_view()),
        ExecuteMsg::StartSale {
            start_time,
            end_time,
            price,
            min_tokens_sold,
            max_amount_per_wallet,
            recipient,
        } => start_sale_outcome(
            s,
            env,
            info,
            start_time,
            end_time,
            price@,
            min_tokens_sold,
            max_amount_per_wallet,
            recipient@,
        ),
        ExecuteMsg::Purchase { number_of_tokens } => purchase_outcome(
            s,
            env,
            info,
            number_of_tokens,
            querier.rates,
        ),
        ExecuteMsg::PurchaseByTokenId { token_id } => purchase_by_token_id_outcome(
            s,
            env,
            info,
            token_id@,
            querier.rates,
        ),
        ExecuteMsg::ClaimRefund {  } => claim_refund_outcome(s, env, info),
        ExecuteMsg::EndSale { limit } => end_sale_outcome(s, env, info, limit, querier.tokens),
        ExecuteMsg::UpdateTokenContract { address } => update_token_contract_outcome(
            s,
            info,
            address@,
            querier.is_registry,
        ),
    }
}

/// Carries a command out; see [`execute_outcome`].
pub fn handle_execute(
    store: &mut Store,
    querier: &Querier,
    env: &Env,
    info: &MessageInfo,
    msg: ExecuteMsg,
) -> (r: Result<Response, ContractError>)
    requires
        old(store).wf(),
    ensures
        final(store).wf(),
        outcome(r, final(store)@) == execute_outcome(old(store)@, querier@, env@, info@, msg),
{
    match msg {
        ExecuteMsg::Mint(mint_msgs) => execute_mint(store, env, info, mint_msgs),
        ExecuteMsg::StartSale {
            start_time,
            end_time,
            price,
            min_tokens_sold,
            max_amount_per_wallet,
            recipient,
        } => execute_start_sale(
            store,
            env,
            info,
            start_time,
            end_time,
            price,
            min_tokens_sold,
            max_amount_per_wallet,
            recipient,
        ),
        ExecuteMsg::Purchase { number_of_tokens } => execute_purchase(
            store,
            env,
            info,
            number_of_tokens,
            &querier.rates,
        ),
        ExecuteMsg::PurchaseByTokenId { token_id } => execute_purchase_by_token_id(
            store,
            env,
            info,
            token_id,
            &querier.rates,
        ),
        ExecuteMsg::ClaimRefund {  } => execute_claim_refund(store, env, info),
        ExecuteMsg::EndSale { limit } => execute_end_sale(
            store,
            env,
            info,
            limit,
            &querier.tokens,
        ),
        ExecuteMsg::UpdateTokenContract { address } => execute_update_token_contract(
            store,
            info,
            address,
            querier.is_registry,
        ),
    }
}

/// The way in for commands; see [`execute_outcome`]. A command that fails leaves
/// the store as it was.
pub fn execute(
    store: &mut Store,
    querier: &Querier,
    env: &Env,
    info: &MessageInfo,
    msg: ExecuteMsg,
) -> (r: Result<Response, ContractError>)
    requires
        old(store).wf(),
    ensures
        final(store).wf(),
        outcome(r, final(store)@) == execute_outcome(old(store)@, querier@, env@, info@, msg),
        r is Err ==> final(store)@ == old(store)@,
{
    handle_execute(store, querier, env, info, msg)
}

/// An answer to a question.
#[derive(Debug, Clone, PartialEq, Eq)]
pub enum QueryResponse {
    /// The sale, if there is one.
    State(Option<State>),
    Config(Config),
    AvailableTokens(Vec<String>),
    IsTokenAvailable(bool),
}

/// The sale; none where none is open or unsettled.
pub fn query_state(store: &Store) -> (r: Option<State>)
    ensures
        r.deep_view() == store@.state,
{
    match &store.state {
        Some(state) => Some(state.clone()),
        None => None,
    }
}

/// The settings.
pub fn query_config(store: &Store) -> (r: Config)
    ensures
        r@ == store@.config,
{
    store.config.clone()
}

/// The tokens on offer after `start_after`, ascending, as many as `limit` says:
/// twenty where it says nothing, and never more than fifty.
pub fn query_available_tokens(store: &Store, start_after: Option<String>, limit: Option<u32>) -> (r:
    Vec<String>)
    requires
        store.wf(),
    ensures
        r.deep_view() == listing(
            store@.available_tokens,
            start_after.deep_view(),
            listing_limit(limit),
        ),
{
    match &start_after {
        Some(k) => get_available_tokens(&store.available_tokens, Some(k.as_str()), limit),
        None => get_available_tokens(&store.available_tokens, None, limit),
    }
}

/// Whether the token `id` is on offer.
pub fn query_is_token_available(store: &Store, id: &str) -> (r: bool)
    ensures
        r == store@.available_tokens.contains(id@),
{
    store.available_tokens.has(id)
}

/// Answers a question.
pub fn query(store: &Store, msg: QueryMsg) -> (r: QueryResponse)
    requires
        store.wf(),
    ensures
        match msg {
            QueryMsg::State {  } => r matches QueryResponse::State(state) && state.deep_view()
                == store@.state,
            QueryMsg::Config {  } => r matches QueryResponse::Config(config) && config@
                == store@.config,
            QueryMsg::AvailableTokens { start_after, limit } => r matches QueryResponse::AvailableTokens(
                tokens,
            ) && tokens.deep_view() == listing(
                store@.available_tokens,
                start_after.deep_view(),
                listing_limit(limit),
            ),
            QueryMsg::IsTokenAvailable { id } => r matches QueryResponse::IsTokenAvailable(b)
                && b == store@.available_tokens.contains(id@),
        },
{
    match msg {
        QueryMsg::State {  } => QueryResponse::State(query_state(store)),
        QueryMsg::Config {  } => QueryResponse::Config(query_config(store)),
        QueryMsg::AvailableTokens { start_after, limit } => QueryResponse::AvailableTokens(
            query_available_tokens(store, start_after, limit),
        ),
        QueryMsg::IsTokenAvailable { id } => QueryResponse::IsTokenAvailable(
            query_is_token_available(store, id.as_str()),
        ),
    }
}

} // verus!
