//! Points in time: block heights and block times, and when they are reached.

use crate::error::ContractError;
use vstd::prelude::*;

verus! {

/// Nanoseconds in a millisecond.
pub const MILLISECONDS_TO_NANOSECONDS_RATIO: u64 = 1_000_000;

/// A time in milliseconds since the epoch.
#[derive(Debug, Clone, Copy, PartialEq, Eq, Structural)]
pub struct Milliseconds(pub u64);

/// The block in which a call runs.
#[derive(Debug, Clone, Copy, PartialEq, Eq, Structural)]
pub struct BlockInfo {
    pub height: u64,
    /// Nanoseconds since the epoch.
    pub time: u64,
}

/// A point at which something expires.
#[derive(Debug, Clone, Copy, PartialEq, Eq, Structural)]
pub enum Expiration {
    /// Expired from the block of this height on.
    AtHeight(u64),
    /// Expired from this time on, in nanoseconds since the epoch.
    AtTime(u64),
    /// Never expired.
    Never,
}

impl Milliseconds {
    pub open spec fn spec_zero() -> Milliseconds {
        Milliseconds(0)
    }

    /// The epoch itself.
    #[verifier::when_used_as_spec(spec_zero)]
    pub fn zero() -> (r: Milliseconds)
        ensures
            r == Milliseconds(0),
    {
        Milliseconds(0)
    }

    /// The time that holds `nanos` nanoseconds, rounded down to whole milliseconds.
    pub fn from_nanos(nanos: u64) -> (r: Milliseconds)
        ensures
            r.0 == nanos / MILLISECONDS_TO_NANOSECONDS_RATIO,
    {
        Milliseconds(nanos / MILLISECONDS_TO_NANOSECONDS_RATIO)
    }

    pub open spec fn spec_is_zero(&self) -> bool {
        self.0 == 0
    }

    #[verifier::when_used_as_spec(spec_is_zero)]
    pub fn is_zero(&self) -> (r: bool)
        ensures
            r == (self.0 == 0),
    {
        self.0 == 0
    }

    pub open spec fn spec_milliseconds(&self) -> u64 {
        self.0
    }

    #[verifier::when_used_as_spec(spec_milliseconds)]
    pub fn milliseconds(&self) -> (r: u64)
        ensures
            r == self.0,
    {
        self.0
    }
}

impl Expiration {
    /// Whether the point has been reached in `block`.
    pub open spec fn expired(self, block: BlockInfo) -> bool {
        match self {
            Expiration::AtHeight(height) => block.height >= height,
            Expiration::AtTime(time) => block.time >= time,
            Expiration::Never => false,
        }
    }

    /// Whether `self` is known to come after `other`. Two heights compare, and two
    /// times; never comes after every height and every time; a height and a time
    /// do not compare.
    pub open spec fn after(self, other: Expiration) -> bool {
        match (self, other) {
            (Expiration::AtHeight(a), Expiration::AtHeight(b)) => a > b,
            (Expiration::AtTime(a), Expiration::AtTime(b)) => a > b,
            (Expiration::Never, Expiration::Never) => false,
            (Expiration::Never, _) => true,
            _ => false,
        }
    }

    /// Whether the point has been reached in `block`.
    pub fn is_expired(&self, block: &BlockInfo) -> (r: bool)
        ensures
            r == self.expired(*block),
    {
        expired_in(self, block)
    }

    /// Whether `self` is known to come after `other`.
    pub fn is_after(&self, other: &Expiration) -> (r: bool)
        ensures
            r == self.after(*other),
    {
        greater(self, other)
    }
}

/// Calls `cw_utils::Expiration::is_expired`: a height has expired once the block's
/// height has reached it, a time once the block's time has, and never has not.
#[verifier::external_body]
fn expired_in(expiration: &Expiration, block: &BlockInfo) -> (r: bool)
    ensures
        r == expiration.expired(*block),
{
    let block = cosmwasm_std::BlockInfo {
        height: block.height,
        time: cosmwasm_std::Timestamp::from_nanos(block.time),
        chain_id: String::new(),
    };
    let expiration = match expiration {
        Expiration::AtHeight(h) => cw_utils::Expiration::AtHeight(*h),
        Expiration::AtTime(t) => cw_utils::Expiration::AtTime(cosmwasm_std::Timestamp::from_nanos(*t)),
        Expiration::Never => cw_utils::Expiration::Never {},
    };
    expiration.is_expired(&block)
}

/// Compares with `>` on `cw_utils::Expiration`, whose order puts two heights and two
/// times by their numbers, never above both, and leaves a height and a time
/// unordered.
#[verifier::external_body]
fn greater(a: &Expiration, b: &Expiration) -> (r: bool)
    ensures
        r == a.after(*b),
{
    let a = match a {
        Expiration::AtHeight(h) => cw_utils::Expiration::AtHeight(*h),
        Expiration::AtTime(t) => cw_utils::Expiration::AtTime(cosmwasm_std::Timestamp::from_nanos(*t)),
        Expiration::Never => cw_utils::Expiration::Never {},
    };
    let b = match b {
        Expiration::AtHeight(h) => cw_utils::Expiration::AtHeight(*h),
        Expiration::AtTime(t) => cw_utils::Expiration::AtTime(cosmwasm_std::Timestamp::from_nanos(*t)),
        Expiration::Never => cw_utils::Expiration::Never {},
    };
    a > b
}

/// The time `time` as a point of expiry, where it can be held in nanoseconds.
pub open spec fn expiration_of(time: Milliseconds) -> Result<Expiration, ContractError> {
    if time.0 <= u64::MAX / MILLISECONDS_TO_NANOSECONDS_RATIO {
        Ok(Expiration::AtTime((time.0 * MILLISECONDS_TO_NANOSECONDS_RATIO) as u64))
    } else {
        Err(ContractError::InvalidExpirationTime)
    }
}

/// The time `time` as a point of expiry. Fails with `InvalidExpirationTime` where the
/// time in nanoseconds does not fit in 64 bits.
pub fn expiration_from_milliseconds(time: Milliseconds) -> (r: Result<Expiration, ContractError>)
    ensures
        r == expiration_of(time),
{
    if time.0 > u64::MAX / MILLISECONDS_TO_NANOSECONDS_RATIO {
        return Err(ContractError::InvalidExpirationTime);
    }
    Ok(Expiration::AtTime(time.0 * MILLISECONDS_TO_NANOSECONDS_RATIO))
}

/// The start that a sale gets in `block`: the time asked for, or one millisecond
/// after the block's time where none is asked for; an error where the time cannot
/// be held or is not after the block's time. With the start comes the block's time
/// in whole milliseconds.
pub open spec fn start_time_of(block: BlockInfo, start_time: Option<Milliseconds>) -> Result<
    (Expiration, Milliseconds),
    ContractError,
> {
    let current_time = (block.time / MILLISECONDS_TO_NANOSECONDS_RATIO) as u64;
    let asked = match start_time {
        Some(t) => t,
        None => Milliseconds((current_time + 1) as u64),
    };
    match expiration_of(asked) {
        Err(e) => Err(e),
        Ok(start) => if start.after(Expiration::AtTime(block.time)) {
            Ok((start, Milliseconds(current_time)))
        } else {
            Err(
                ContractError::StartTimeInThePast {
                    current_time,
                    current_block: block.height,
                },
            )
        },
    }
}

/// Resolves and validates the start of a sale; see [`start_time_of`].
pub fn get_and_validate_start_time(block: &BlockInfo, start_time: Option<Milliseconds>) -> (r:
    Result<(Expiration, Milliseconds), ContractError>)
    ensures
        r == start_time_of(*block, start_time),
{
    let current_time = Milliseconds::from_nanos(block.time).milliseconds();
    let asked = match start_time {
        Some(t) => t,
        None => Milliseconds(current_time + 1),
    };
    let start = match expiration_from_milliseconds(asked) {
        Ok(start) => start,
        Err(e) => { return Err(e); },
    };
    let now = Expiration::AtTime(block.time);
    if !start.is_after(&now) {
        return Err(
            ContractError::StartTimeInThePast { current_time, current_block: block.height },
        );
    }
    Ok((start, Milliseconds(current_time)))
}

} // verus!
