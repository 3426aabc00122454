//! Splitting funds among recipients: who gets which share, and when such a list of
//! shares is in order.

use crate::error::ContractError;
use crate::expiration::Milliseconds;
use crate::msg::{Recipient, RecipientView};
use crate::order::key_equal;
use crate::decimal::{Decimal, DECIMAL_ONE};
use vstd::prelude::*;

verus! {

/// The most recipients that a list holds.
pub const MAX_RECIPIENTS: usize = 100;

impl Recipient {
    /// Where the recipient is to be reached.
    pub fn address(&self) -> (r: &String)
        ensures
            r@ == address_of(self@),
    {
        match self {
            Recipient::Direct { address } => address,
            Recipient::Routed { address, msg } => address,
        }
    }
}

/// Where a recipient is to be reached.
pub open spec fn address_of(r: RecipientView) -> Seq<char> {
    match r {
        RecipientView::Direct { address } => address,
        RecipientView::Routed { address, msg } => address,
    }
}

/// A recipient and the share that they get.
#[derive(Debug, Clone, PartialEq, Eq)]
pub struct AddressPercent {
    pub recipient: Recipient,
    pub percent: Decimal,
}

/// What an [`AddressPercent`] stands for.
pub struct ShareView {
    pub recipient: RecipientView,
    pub percent: Decimal,
}

impl DeepView for AddressPercent {
    type V = ShareView;

    open spec fn deep_view(&self) -> ShareView {
        ShareView { recipient: self.recipient@, percent: self.percent }
    }
}

impl View for AddressPercent {
    type V = ShareView;

    open spec fn view(&self) -> ShareView {
        self.deep_view()
    }
}

impl AddressPercent {
    pub fn new(recipient: Recipient, percent: Decimal) -> (r: Self)
        ensures
            r.recipient == recipient,
            r.percent == percent,
    {
        AddressPercent { recipient, percent }
    }
}

/// The settings of a splitter.
#[derive(Debug, Clone, PartialEq, Eq)]
pub struct Splitter {
    /// Who gets which share of what is sent.
    pub recipients: Vec<AddressPercent>,
    /// Until when the settings are locked.
    pub lock: Milliseconds,
}

/// What a splitter is set up with.
#[derive(Debug, Clone, PartialEq, Eq)]
pub struct InstantiateMsg {
    pub recipients: Vec<AddressPercent>,
    pub lock_time: Option<Milliseconds>,
}

/// The commands of a splitter.
#[derive(Debug, Clone, PartialEq, Eq)]
pub enum ExecuteMsg {
    /// Puts another list of recipients in place.
    UpdateRecipients { recipients: Vec<AddressPercent> },
    /// Locks the settings for some time.
    UpdateLock { lock_time: Milliseconds },
    /// Divides the funds sent among the recipients.
    Send {  },
}

/// The questions that a splitter answers.
#[derive(Debug, Clone, PartialEq, Eq)]
pub enum QueryMsg {
    GetSplitterConfig {  },
}

/// The settings of a splitter, as an answer.
#[derive(Debug, Clone, PartialEq, Eq)]
pub struct GetSplitterConfigResponse {
    pub config: Splitter,
}

/// The shares of the first `n` recipients together.
pub open spec fn share_sum(shares: Seq<ShareView>, n: int) -> int
    decreases n,
{
    if n <= 0 {
        0
    } else {
        share_sum(shares, n - 1) + shares[n - 1].percent.atomics
    }
}

/// The recipient at `i` is named before.
pub open spec fn named_before(shares: Seq<ShareView>, i: int) -> bool {
    exists|j: int| 0 <= j < i && address_of(#[trigger] shares[j].recipient) == address_of(shares[i].recipient)
}

/// What is wrong with the recipient at `i`, where nothing is wrong before: the
/// shares up to it do not fit, or are more than the whole, or the recipient is
/// named before.
pub open spec fn fault_at(shares: Seq<ShareView>, i: int) -> Option<ContractError> {
    if share_sum(shares, i + 1) > u128::MAX {
        Some(ContractError::Overflow)
    } else if share_sum(shares, i + 1) > DECIMAL_ONE {
        Some(ContractError::AmountExceededHundredPrecent)
    } else if named_before(shares, i) {
        Some(ContractError::DuplicateRecipient)
    } else {
        None
    }
}

/// What is wrong with the first of the first `n` recipients with whom anything is.
pub open spec fn first_fault(shares: Seq<ShareView>, n: int) -> Option<ContractError>
    decreases n,
{
    if n <= 0 {
        None
    } else {
        match first_fault(shares, n - 1) {
            Some(e) => Some(e),
            None => fault_at(shares, n - 1),
        }
    }
}

/// What is wrong with a list of recipients, if anything: it is empty, it holds more
/// than a hundred recipients, or something is wrong with one of them.
pub open spec fn recipient_list_fault(shares: Seq<ShareView>) -> Option<ContractError> {
    if shares.len() == 0 {
        Some(ContractError::EmptyRecipientsList)
    } else if shares.len() > MAX_RECIPIENTS {
        Some(ContractError::ReachedRecipientLimit)
    } else {
        first_fault(shares, shares.len() as int)
    }
}

/// What is wrong with the first faulty recipient stays what is wrong with the list
/// however many more recipients follow.
pub proof fn lemma_first_fault_stays(shares: Seq<ShareView>, m: int, n: int)
    requires
        0 <= m <= n,
        first_fault(shares, m) is Some,
    ensures
        first_fault(shares, n) == first_fault(shares, m),
    decreases n - m,
{
    if m < n {
        lemma_first_fault_stays(shares, m, n - 1);
    }
}

/// Whether the address `address` is among `seen`.
fn is_seen(seen: &Vec<String>, address: &String) -> (r: bool)
    ensures
        r == exists|j: int| 0 <= j < seen.len() && (#[trigger] seen[j])@ == address@,
{
    let mut j: usize = 0;
    while j < seen.len()
        invariant
            j <= seen.len(),
            forall|k: int| 0 <= k < j ==> (#[trigger] seen[k])@ != address@,
        decreases seen.len() - j,
    {
        if key_equal(seen[j].as_str(), address.as_str()) {
            return true;
        }
        j += 1;
    }
    false
}

/// Checks a list of recipients: there must be at least one and at most a hundred,
/// their shares must not add up to more than the whole, and nobody may be named
/// twice. The error is that of the first recipient with whom something is wrong;
/// see [`recipient_list_fault`].
pub fn validate_recipient_list(recipients: &Vec<AddressPercent>) -> (r: Result<(), ContractError>)
    ensures
        match r {
            Ok(_) => recipient_list_fault(recipients.deep_view()) is None,
            Err(e) => recipient_list_fault(recipients.deep_view()) == Some(e),
        },
{
    if recipients.len() == 0 {
        return Err(ContractError::EmptyRecipientsList);
    }
    if recipients.len() > MAX_RECIPIENTS {
        return Err(ContractError::ReachedRecipientLimit);
    }
    let ghost shares = recipients.deep_view();
    let mut percent_sum = Decimal::zero();
    let mut seen: Vec<String> = Vec::new();
    let mut i: usize = 0;
    while i < recipients.len()
        invariant
            i <= recipients.len(),
            0 < recipients.len() <= MAX_RECIPIENTS,
            shares == recipients.deep_view(),
            first_fault(shares, i as int) is None,
            percent_sum.atomics == share_sum(shares, i as int),
            seen.len() == i,
            forall|j: int| 0 <= j < i ==> (#[trigger] seen[j])@ == address_of(shares[j].recipient),
        decreases recipients.len() - i,
    {
        let rec = &recipients[i];
        percent_sum = match percent_sum.checked_add(rec.percent) {
            Some(sum) => sum,
            None => {
                proof {
                    lemma_first_fault_stays(shares, i + 1, shares.len() as int);
                }
                return Err(ContractError::Overflow);
            },
        };
        if percent_sum.atomics > DECIMAL_ONE {
            proof {
                lemma_first_fault_stays(shares, i + 1, shares.len() as int);
            }
            return Err(ContractError::AmountExceededHundredPrecent);
        }
        let address = rec.recipient.address();
        let duplicate = is_seen(&seen, address);
        proof {
            if duplicate {
                let j = choose|j: int| 0 <= j < seen.len() && (#[trigger] seen[j])@ == address@;
            }
            if named_before(shares, i as int) {
                let j = choose|j: int|
                    0 <= j < i && address_of(#[trigger] shares[j].recipient) == address_of(
                        shares[i as int].recipient,
                    );
                assert(seen[j]@ == address@);
            }
        }
        if duplicate {
            proof {
                lemma_first_fault_stays(shares, i + 1, shares.len() as int);
            }
            return Err(ContractError::DuplicateRecipient);
        }
        seen.push(address.clone());
        i += 1;
    }
    Ok(())
}

impl InstantiateMsg {
    /// Checks the list of recipients; see [`validate_recipient_list`].
    pub fn validate(&self) -> (r: Result<(), ContractError>)
        ensures
            match r {
                Ok(_) => recipient_list_fault(self.recipients.deep_view()) is None,
                Err(e) => recipient_list_fault(self.recipients.deep_view()) == Some(e),
            },
    {
        validate_recipient_list(&self.recipients)
    }
}

} // verus!
