//! The ways in which a call is rejected.

use vstd::prelude::*;

verus! {

/// Why a call failed. A failed call changes nothing.
#[derive(Debug, Clone, Copy, PartialEq, Eq, Structural)]
pub enum ContractError {
    /// An owner-only command came from someone else.
    Unauthorized,
    /// A price of zero.
    InvalidZeroAmount,
    /// A sale exists already, so none can be started and nothing can be minted.
    SaleStarted,
    /// The sale cannot be settled or refunded yet.
    SaleNotEnded,
    /// There is no sale, or its time is over.
    NoOngoingSale,
    /// The token is not on offer.
    TokenNotAvailable,
    /// The buyer already holds as many tokens as one wallet may.
    PurchaseLimitReached,
    /// The funds sent do not cover what is owed.
    InsufficientFunds,
    /// Nothing is left to buy.
    AllTokensPurchased,
    /// A batch limit of zero.
    LimitMustNotBeZero,
    /// The sale reached its threshold, so nothing is refunded.
    MinSalesExceeded,
    /// The caller has bought nothing.
    NoPurchases,
    /// Tokens are counted as sold and not yet handed over, but no purchase waits for
    /// them in the ledger.
    NothingToTransfer,
    /// A sale has taken place and the configuration forbids minting after one.
    CannotMintAfterSaleConducted,
    /// More mint requests in one call than the limit.
    TooManyMintMessages { limit: u32 },
    /// The start time given is not after the current block's time.
    StartTimeInThePast { current_time: u64, current_block: u64 },
    /// The sale would end no later than it starts.
    StartTimeAfterEndTime,
    /// A time in milliseconds too large to be held in nanoseconds.
    InvalidExpirationTime,
    /// Funds came with a command that takes none.
    NonPayable,
    /// An amount or a count left the range of its type.
    Overflow,
    /// A counter of remaining uses was already at zero.
    Underflow,
    /// A list of recipients with nobody in it.
    EmptyRecipientsList,
    /// A list of more recipients than the limit.
    ReachedRecipientLimit,
    /// Shares that add up to more than the whole.
    AmountExceededHundredPrecent,
    /// A recipient named twice.
    DuplicateRecipient,
    /// Nothing is kept under the key.
    NotFound,
}

} // verus!
