//! Auctions of tokens: what is kept of an auction and of its bids, the commands and
//! the questions.

use crate::expiration::{Expiration, Milliseconds};
use crate::msg::Recipient;
use vstd::prelude::*;

verus! {

/// What an auction contract is set up with.
#[derive(Debug, Clone, PartialEq, Eq)]
pub struct InstantiateMsg {
    /// The asset registries whose tokens may be auctioned; any where none is named.
    pub authorized_token_addresses: Option<Vec<String>>,
}

/// A token that was sent to the contract, with the message that came with it.
#[derive(Debug, Clone, PartialEq, Eq)]
pub struct Cw721ReceiveMsg {
    pub sender: String,
    pub token_id: String,
    pub msg: Vec<u8>,
}

/// The commands of an auction contract.
#[derive(Debug, Clone, PartialEq, Eq)]
pub enum ExecuteMsg {
    ReceiveNft(Cw721ReceiveMsg),
    /// Bids on the token with the funds sent. Who is outbid gets their bid back.
    PlaceBid { token_id: String, token_address: String },
    /// Hands the token to the winner once the auction is over.
    Claim { token_id: String, token_address: String },
    UpdateAuction {
        token_id: String,
        token_address: String,
        start_time: Option<Milliseconds>,
        end_time: Milliseconds,
        coin_denom: String,
        whitelist: Option<Vec<String>>,
        min_bid: Option<u128>,
        recipient: Option<Recipient>,
    },
    CancelAuction { token_id: String, token_address: String },
    /// For the owner only.
    AuthorizeTokenContract { addr: String, expiration: Option<Expiration> },
    /// For the owner only.
    DeauthorizeTokenContract { addr: String },
}

/// What may come with a token that is sent to the contract.
#[derive(Debug, Clone, PartialEq, Eq)]
pub enum Cw721HookMsg {
    /// Starts an auction of the token. Its terms can be changed until it has started.
    StartAuction {
        /// In milliseconds since the epoch.
        start_time: Option<Milliseconds>,
        end_time: Milliseconds,
        coin_denom: String,
        min_bid: Option<u128>,
        whitelist: Option<Vec<String>>,
        recipient: Option<Recipient>,
    },
}

/// The order in which a listing goes.
#[derive(Debug, Clone, Copy, PartialEq, Eq, Structural)]
pub enum OrderBy {
    Asc,
    Desc,
}

/// The questions that an auction contract answers.
#[derive(Debug, Clone, PartialEq, Eq)]
#[allow(inconsistent_fields)]
pub enum QueryMsg {
    /// The auction of the token that is running, or the last that ran.
    LatestAuctionState { token_id: String, token_address: String },
    AuctionState { auction_id: u128 },
    AuctionIds { token_id: String, token_address: String },
    AuctionInfosForAddress { token_address: String, start_after: Option<String>, limit: Option<u64> },
    AuthorizedAddresses { start_after: Option<String>, limit: Option<u32>, order_by: Option<OrderBy> },
    /// The bids of an auction; `start_after` counts from zero.
    Bids { auction_id: u128, start_after: Option<u64>, limit: Option<u64>, order_by: Option<OrderBy> },
    IsCancelled { token_id: String, token_address: String },
    /// Whether the auction was cancelled, the token claimed or the time is over.
    IsClosed { token_id: String, token_address: String },
    IsClaimed { token_id: String, token_address: String },
}

/// The addresses that may send tokens to an auction.
#[derive(Debug, Clone, PartialEq, Eq)]
pub struct AuthorizedAddressesResponse {
    pub addresses: Vec<String>,
}

/// The auctions that were held for one token, oldest first.
#[derive(Debug, Clone, PartialEq, Eq)]
pub struct AuctionInfo {
    pub auction_ids: Vec<u128>,
    pub token_address: String,
    pub token_id: String,
}

/// The auctions that were held for one token.
#[derive(Debug, Clone, PartialEq, Eq)]
pub struct AuctionIdsResponse {
    pub auction_ids: Vec<u128>,
}

impl Default for AuctionInfo {
    /// A record without auctions, for no token yet.
    fn default() -> (r: Self)
        ensures
            r.auction_ids@ == Seq::<u128>::empty(),
            r.token_address@ == Seq::<char>::empty(),
            r.token_id@ == Seq::<char>::empty(),
    {
        AuctionInfo { auction_ids: Vec::new(), token_address: String::new(), token_id: String::new() }
    }
}

impl AuctionInfo {
    /// The latest auction; none where none was held.
    pub fn last(&self) -> (r: Option<&u128>)
        ensures
            self.auction_ids@.len() == 0 ==> r is None,
            self.auction_ids@.len() > 0 ==> r is Some && *r->0 == self.auction_ids@.last(),
    {
        if self.auction_ids.len() == 0 {
            None
        } else {
            Some(&self.auction_ids[self.auction_ids.len() - 1])
        }
    }

    /// Adds an auction as the latest.
    pub fn push(&mut self, e: u128)
        ensures
            final(self).auction_ids@ == old(self).auction_ids@.push(e),
            final(self).token_address == old(self).token_address,
            final(self).token_id == old(self).token_id,
    {
        self.auction_ids.push(e)
    }
}

/// What is kept of an auction.
#[derive(Debug, Clone, PartialEq, Eq)]
pub struct TokenAuctionState {
    pub start_time: Expiration,
    pub end_time: Expiration,
    pub high_bidder_addr: String,
    pub high_bidder_amount: u128,
    pub coin_denom: String,
    pub auction_id: u128,
    pub whitelist: Option<Vec<String>>,
    pub min_bid: Option<u128>,
    pub owner: String,
    pub token_id: String,
    pub token_address: String,
    pub is_cancelled: bool,
    pub recipient: Option<Recipient>,
}

/// A bid.
#[derive(Debug, Clone, PartialEq, Eq)]
pub struct Bid {
    pub bidder: String,
    pub amount: u128,
    /// When the bid was placed, in nanoseconds since the epoch.
    pub timestamp: u64,
}

/// What an auction tells of itself.
#[derive(Debug, Clone, PartialEq, Eq)]
pub struct AuctionStateResponse {
    pub start_time: Expiration,
    pub end_time: Expiration,
    pub high_bidder_addr: String,
    pub high_bidder_amount: u128,
    pub auction_id: u128,
    pub coin_denom: String,
    pub whitelist: Option<Vec<String>>,
    pub min_bid: Option<u128>,
    pub is_cancelled: bool,
    pub owner: String,
}

/// The bids of an auction.
#[derive(Debug, Clone, PartialEq, Eq)]
pub struct BidsResponse {
    pub bids: Vec<Bid>,
}

impl From<TokenAuctionState> for AuctionStateResponse {
    fn from(token_auction_state: TokenAuctionState) -> (r: AuctionStateResponse) {
        AuctionStateResponse {
            start_time: token_auction_state.start_time,
            end_time: token_auction_state.end_time,
            high_bidder_addr: token_auction_state.high_bidder_addr,
            high_bidder_amount: token_auction_state.high_bidder_amount,
            coin_denom: token_auction_state.coin_denom,
            auction_id: token_auction_state.auction_id,
            whitelist: token_auction_state.whitelist,
            is_cancelled: token_auction_state.is_cancelled,
            min_bid: token_auction_state.min_bid,
            owner: token_auction_state.owner,
        }
    }
}

impl vstd::std_specs::convert::FromSpecImpl<TokenAuctionState> for AuctionStateResponse {
    open spec fn obeys_from_spec() -> bool {
        true
    }

    /// What an auction tells of itself is what is kept of it, but for the token and
    /// the recipient.
    open spec fn from_spec(token_auction_state: TokenAuctionState) -> AuctionStateResponse {
        AuctionStateResponse {
            start_time: token_auction_state.start_time,
            end_time: token_auction_state.end_time,
            high_bidder_addr: token_auction_state.high_bidder_addr,
            high_bidder_amount: token_auction_state.high_bidder_amount,
            coin_denom: token_auction_state.coin_denom,
            auction_id: token_auction_state.auction_id,
            whitelist: token_auction_state.whitelist,
            is_cancelled: token_auction_state.is_cancelled,
            min_bid: token_auction_state.min_bid,
            owner: token_auction_state.owner,
        }
    }
}

} // verus!
