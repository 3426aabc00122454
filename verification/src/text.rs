//! Points of expiry, written out.

use crate::expiration::Expiration;
use vstd::prelude::*;

verus! {

/// What `cw_utils` writes for a point of expiry: for a height the words
/// `expiration height: ` and the number, for a time the words `expiration time: `
/// and the time in seconds with its nanoseconds behind a point, and for never the
/// words `expiration: never`.
pub uninterp spec fn expiration_display(e: Expiration) -> Seq<char>;

/// Calls `to_string` on `cw_utils::Expiration`, which writes the point of expiry
/// out through its `Display`. The text depends on the point alone.
#[verifier::external_body]
fn display(e: &Expiration) -> (r: String)
    ensures
        r@ == expiration_display(*e),
{
    let e = match e {
        Expiration::AtHeight(h) => cw_utils::Expiration::AtHeight(*h),
        Expiration::AtTime(t) => cw_utils::Expiration::AtTime(cosmwasm_std::Timestamp::from_nanos(*t)),
        Expiration::Never => cw_utils::Expiration::Never {},
    };
    e.to_string()
}

/// A point of expiry, written out; see [`expiration_display`].
pub fn expiration_text(e: &Expiration) -> (r: String)
    ensures
        r@ == expiration_display(*e),
{
    display(e)
}

} // verus!
