//! What a contract keeps between calls.

use crate::coin::{Coin, CoinView};
use crate::expiration::Expiration;
use crate::ledger::{Ledger, RowView};
use crate::msg::{Recipient, RecipientView};
use crate::tokens::{listing, TokenSet};
use vstd::prelude::*;

verus! {

/// The most tokens that one listing holds.
pub const MAX_LIMIT: u32 = 50;

/// How many tokens a listing holds where no limit is given.
pub const DEFAULT_LIMIT: u32 = 20;

/// Settings that outlive sales.
#[derive(Debug, PartialEq, Eq)]
pub struct Config {
    /// The asset registry whose tokens are sold.
    pub token_address: String,
    /// Whether tokens may still be minted once a sale has taken place.
    pub can_mint_after_sale: bool,
}

/// What a [`Config`] stands for.
pub struct ConfigView {
    pub token_address: Seq<char>,
    pub can_mint_after_sale: bool,
}

impl DeepView for Config {
    type V = ConfigView;

    open spec fn deep_view(&self) -> ConfigView {
        ConfigView {
            token_address: self.token_address@,
            can_mint_after_sale: self.can_mint_after_sale,
        }
    }
}

impl View for Config {
    type V = ConfigView;

    open spec fn view(&self) -> ConfigView {
        self.deep_view()
    }
}

impl Clone for Config {
    fn clone(&self) -> (r: Self)
        ensures
            r@ == self@,
    {
        Config {
            token_address: self.token_address.clone(),
            can_mint_after_sale: self.can_mint_after_sale,
        }
    }
}

/// The sale that is open or not yet settled.
#[derive(Debug, PartialEq, Eq)]
pub struct State {
    /// When the sale ends.
    pub end_time: Expiration,
    /// The price of one token.
    pub price: Coin,
    /// How many tokens must sell for the sale to go through.
    pub min_tokens_sold: u128,
    /// How many tokens one wallet may hold unsettled.
    pub max_amount_per_wallet: u32,
    /// How many tokens were sold.
    pub amount_sold: u128,
    /// What the recipient is still owed: the prices paid, less what the fee
    /// collaborator takes out of them.
    pub amount_to_send: u128,
    /// How many of the tokens sold were handed to their buyers.
    pub amount_transferred: u128,
    /// Who gets the proceeds.
    pub recipient: Recipient,
}

/// What a [`State`] stands for.
pub struct StateView {
    pub end_time: Expiration,
    pub price: CoinView,
    pub min_tokens_sold: u128,
    pub max_amount_per_wallet: u32,
    pub amount_sold: u128,
    pub amount_to_send: u128,
    pub amount_transferred: u128,
    pub recipient: RecipientView,
}

impl DeepView for State {
    type V = StateView;

    open spec fn deep_view(&self) -> StateView {
        StateView {
            end_time: self.end_time,
            price: self.price@,
            min_tokens_sold: self.min_tokens_sold,
            max_amount_per_wallet: self.max_amount_per_wallet,
            amount_sold: self.amount_sold,
            amount_to_send: self.amount_to_send,
            amount_transferred: self.amount_transferred,
            recipient: self.recipient@,
        }
    }
}

impl View for State {
    type V = StateView;

    open spec fn view(&self) -> StateView {
        self.deep_view()
    }
}

impl Clone for State {
    fn clone(&self) -> (r: Self)
        ensures
            r@ == self@,
    {
        State {
            end_time: self.end_time,
            price: self.price.clone(),
            min_tokens_sold: self.min_tokens_sold,
            max_amount_per_wallet: self.max_amount_per_wallet,
            amount_sold: self.amount_sold,
            amount_to_send: self.amount_to_send,
            amount_transferred: self.amount_transferred,
            recipient: self.recipient.clone(),
        }
    }
}

/// Everything that a contract keeps: who owns it, its settings, whether a sale has
/// ever been started, the sale if there is one, the purchases that wait for
/// settlement, the tokens on offer and their number.
#[derive(Debug, Clone, PartialEq, Eq)]
pub struct Store {
    pub owner: String,
    pub config: Config,
    /// Set once a sale has been started, and for good.
    pub sale_conducted: bool,
    /// How many tokens are on offer.
    pub number_of_tokens_available: u128,
    /// The sale; none before the first, and none again once a sale is settled.
    pub state: Option<State>,
    pub purchases: Ledger,
    pub available_tokens: TokenSet,
}

/// What a [`Store`] stands for.
pub struct StoreView {
    pub owner: Seq<char>,
    pub config: ConfigView,
    pub sale_conducted: bool,
    pub number_of_tokens_available: u128,
    pub state: Option<StateView>,
    /// The ledger's rows, buyers ascending.
    pub purchases: Seq<RowView>,
    /// The tokens on offer, ascending.
    pub available_tokens: Seq<Seq<char>>,
}

impl View for Store {
    type V = StoreView;

    open spec fn view(&self) -> StoreView {
        StoreView {
            owner: self.owner@,
            config: self.config@,
            sale_conducted: self.sale_conducted,
            number_of_tokens_available: self.number_of_tokens_available,
            state: self.state.deep_view(),
            purchases: self.purchases@,
            available_tokens: self.available_tokens@,
        }
    }
}

impl Store {
    /// The ledger and the set of tokens are in order.
    pub open spec fn wf(&self) -> bool {
        self.purchases.wf() && self.available_tokens.wf()
    }
}

/// How many tokens a listing holds that was asked for with `limit`.
pub open spec fn listing_limit(limit: Option<u32>) -> int {
    match limit {
        Some(n) => if n < MAX_LIMIT { n as int } else { MAX_LIMIT as int },
        None => DEFAULT_LIMIT as int,
    }
}

/// The tokens on offer after `start_after`, in ascending order: as many as `limit`
/// says, twenty where it says nothing, and never more than fifty.
pub fn get_available_tokens(tokens: &TokenSet, start_after: Option<&str>, limit: Option<u32>) -> (r:
    Vec<String>)
    requires
        tokens.wf(),
    ensures
        r.deep_view() == listing(tokens@, start_after.deep_view(), listing_limit(limit)),
{
    let limit: u32 = match limit {
        Some(n) => if n < MAX_LIMIT { n } else { MAX_LIMIT },
        None => DEFAULT_LIMIT,
    };
    tokens.keys(start_after, limit as usize)
}

} // verus!
