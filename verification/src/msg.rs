//! What goes into a call and what comes out of it: the caller and the funds, the
//! commands, and the instructions that a call hands back for the chain to carry out.

use crate::coin::{clone_coins, Coin, CoinView};
use crate::expiration::{BlockInfo, Expiration, Milliseconds};
use vstd::prelude::*;

verus! {

/// Where and when a call runs.
#[derive(Debug, Clone, PartialEq, Eq)]
pub struct Env {
    pub block: BlockInfo,
    /// The address of the contract itself.
    pub contract_address: String,
}

/// Who calls, and the funds that come with the call.
#[derive(Debug, Clone, PartialEq, Eq)]
pub struct MessageInfo {
    pub sender: String,
    pub funds: Vec<Coin>,
}

/// What an [`Env`] stands for.
pub struct EnvView {
    pub block: BlockInfo,
    pub contract_address: Seq<char>,
}

impl DeepView for Env {
    type V = EnvView;

    open spec fn deep_view(&self) -> EnvView {
        EnvView { block: self.block, contract_address: self.contract_address@ }
    }
}

impl View for Env {
    type V = EnvView;

    open spec fn view(&self) -> EnvView {
        self.deep_view()
    }
}

/// What a [`MessageInfo`] stands for.
pub struct InfoView {
    pub sender: Seq<char>,
    pub funds: Seq<CoinView>,
}

impl DeepView for MessageInfo {
    type V = InfoView;

    open spec fn deep_view(&self) -> InfoView {
        InfoView { sender: self.sender@, funds: self.funds.deep_view() }
    }
}

impl View for MessageInfo {
    type V = InfoView;

    open spec fn view(&self) -> InfoView {
        self.deep_view()
    }
}

/// The error that `cw_utils` gives for a payment that is not as it should be.
#[verifier::external_type_specification]
#[verifier::external_body]
pub struct ExPaymentError(cw_utils::PaymentError);

/// Calls `cw_utils::nonpayable`, which accepts a call exactly where no coins came
/// with it.
#[verifier::external_body]
pub(crate) fn nonpayable(info: &MessageInfo) -> (r: Result<(), cw_utils::PaymentError>)
    ensures
        r is Ok <==> info@.funds.len() == 0,
{
    let info = cosmwasm_std::MessageInfo {
        sender: cosmwasm_std::Addr::unchecked(info.sender.clone()),
        funds: info.funds.iter().map(|c| cosmwasm_std::Coin::new(c.amount, c.denom.clone())).collect(),
    };
    cw_utils::nonpayable(&info)
}

/// Who gets the proceeds of a sale: an address that is paid directly, or an address
/// that the payment is routed to together with a message for it.
#[derive(Debug, PartialEq, Eq)]
pub enum Recipient {
    Direct { address: String },
    Routed { address: String, msg: Vec<u8> },
}

/// What a [`Recipient`] stands for.
pub enum RecipientView {
    Direct { address: Seq<char> },
    Routed { address: Seq<char>, msg: Seq<u8> },
}

impl DeepView for Recipient {
    type V = RecipientView;

    open spec fn deep_view(&self) -> RecipientView {
        match self {
            Recipient::Direct { address } => RecipientView::Direct { address: address@ },
            Recipient::Routed { address, msg } => RecipientView::Routed {
                address: address@,
                msg: msg@,
            },
        }
    }
}

impl View for Recipient {
    type V = RecipientView;

    open spec fn view(&self) -> RecipientView {
        self.deep_view()
    }
}

/// A copy of `bytes`.
pub fn clone_bytes(bytes: &Vec<u8>) -> (r: Vec<u8>)
    ensures
        r@ == bytes@,
{
    let mut r: Vec<u8> = Vec::new();
    let mut i: usize = 0;
    while i < bytes.len()
        invariant
            i <= bytes.len(),
            r@ == bytes@.take(i as int),
        decreases bytes.len() - i,
    {
        r.push(bytes[i]);
        i += 1;
    }
    r
}

/// A copy of `s`.
pub fn clone_opt_string(s: &Option<String>) -> (r: Option<String>)
    ensures
        r.deep_view() == s.deep_view(),
{
    match s {
        Some(s) => Some(s.clone()),
        None => None,
    }
}

impl Clone for Recipient {
    fn clone(&self) -> (r: Self)
        ensures
            r@ == self@,
    {
        match self {
            Recipient::Direct { address } => Recipient::Direct { address: address.clone() },
            Recipient::Routed { address, msg } => Recipient::Routed {
                address: address.clone(),
                msg: clone_bytes(msg),
            },
        }
    }
}

impl Recipient {
    /// The recipient that is paid directly at `address`.
    pub fn from_string(address: &str) -> (r: Self)
        ensures
            r@ == (RecipientView::Direct { address: address@ }),
    {
        Recipient::Direct { address: address.to_owned() }
    }
}

/// What is stored with a token beside its owner.
#[derive(Debug, PartialEq, Eq)]
pub struct Extension {
    publisher: String,
}

impl DeepView for Extension {
    type V = Seq<char>;

    closed spec fn deep_view(&self) -> Seq<char> {
        self.publisher@
    }
}

impl View for Extension {
    type V = Seq<char>;

    open spec fn view(&self) -> Seq<char> {
        self.deep_view()
    }
}

impl Clone for Extension {
    fn clone(&self) -> (r: Self)
        ensures
            r@ == self@,
    {
        Extension { publisher: self.publisher.clone() }
    }
}

impl Extension {
    /// The extension that names `publisher`.
    pub fn new(publisher: &str) -> (r: Self)
        ensures
            r@ == publisher@,
    {
        Extension { publisher: publisher.to_owned() }
    }

    /// Who published the token.
    pub fn publisher(&self) -> (r: &str)
        ensures
            r@ == self@,
    {
        self.publisher.as_str()
    }
}

/// A request to mint one token.
#[derive(Debug, Clone, PartialEq, Eq)]
pub struct CrowdfundMintMsg {
    pub token_id: String,
    /// Who owns the token; the contract itself where nobody is named.
    pub owner: Option<String>,
    pub token_uri: Option<String>,
    pub extension: Extension,
}

/// What a [`CrowdfundMintMsg`] stands for.
pub struct MintMsgView {
    pub token_id: Seq<char>,
    pub owner: Option<Seq<char>>,
    pub token_uri: Option<Seq<char>>,
    pub extension: Seq<char>,
}

impl DeepView for CrowdfundMintMsg {
    type V = MintMsgView;

    open spec fn deep_view(&self) -> MintMsgView {
        MintMsgView {
            token_id: self.token_id@,
            owner: self.owner.deep_view(),
            token_uri: self.token_uri.deep_view(),
            extension: self.extension@,
        }
    }
}

impl View for CrowdfundMintMsg {
    type V = MintMsgView;

    open spec fn view(&self) -> MintMsgView {
        self.deep_view()
    }
}

/// Something for the chain to carry out once the call has returned.
#[derive(Debug, PartialEq, Eq)]
pub enum Instruction {
    /// Send coins from the contract's balance to an address.
    Send { to_address: String, amount: Vec<Coin> },
    /// Call another contract with a message that this library does not read.
    Execute { contract_addr: String, msg: Vec<u8>, funds: Vec<Coin> },
    /// Have the asset registry create a token.
    Mint {
        contract_addr: String,
        token_id: String,
        owner: String,
        token_uri: Option<String>,
        extension: Extension,
    },
    /// Have the asset registry hand a token to its buyer.
    TransferNft { contract_addr: String, recipient: String, token_id: String },
    /// Have the asset registry destroy a token.
    Burn { contract_addr: String, token_id: String },
    /// Pay the proceeds of the sale to its recipient.
    Pay { payee: Recipient, funds: Vec<Coin> },
}

/// What an [`Instruction`] stands for.
pub enum InstructionView {
    Send { to_address: Seq<char>, amount: Seq<CoinView> },
    Execute { contract_addr: Seq<char>, msg: Seq<u8>, funds: Seq<CoinView> },
    Mint {
        contract_addr: Seq<char>,
        token_id: Seq<char>,
        owner: Seq<char>,
        token_uri: Option<Seq<char>>,
        extension: Seq<char>,
    },
    TransferNft { contract_addr: Seq<char>, recipient: Seq<char>, token_id: Seq<char> },
    Burn { contract_addr: Seq<char>, token_id: Seq<char> },
    Pay { payee: RecipientView, funds: Seq<CoinView> },
}

impl DeepView for Instruction {
    type V = InstructionView;

    open spec fn deep_view(&self) -> InstructionView {
        match self {
            Instruction::Send { to_address, amount } => InstructionView::Send {
                to_address: to_address@,
                amount: amount.deep_view(),
            },
            Instruction::Execute { contract_addr, msg, funds } => InstructionView::Execute {
                contract_addr: contract_addr@,
                msg: msg@,
                funds: funds.deep_view(),
            },
            Instruction::Mint {
                contract_addr,
                token_id,
                owner,
                token_uri,
                extension,
            } => InstructionView::Mint {
                contract_addr: contract_addr@,
                token_id: token_id@,
                owner: owner@,
                token_uri: token_uri.deep_view(),
                extension: extension@,
            },
            Instruction::TransferNft {
                contract_addr,
                recipient,
                token_id,
            } => InstructionView::TransferNft {
                contract_addr: contract_addr@,
                recipient: recipient@,
                token_id: token_id@,
            },
            Instruction::Burn { contract_addr, token_id } => InstructionView::Burn {
                contract_addr: contract_addr@,
                token_id: token_id@,
            },
            Instruction::Pay { payee, funds } => InstructionView::Pay {
                payee: payee@,
                funds: funds.deep_view(),
            },
        }
    }
}

impl View for Instruction {
    type V = InstructionView;

    open spec fn view(&self) -> InstructionView {
        self.deep_view()
    }
}

impl Clone for Instruction {
    fn clone(&self) -> (r: Self)
        ensures
            r@ == self@,
    {
        match self {
            Instruction::Send { to_address, amount } => Instruction::Send {
                to_address: to_address.clone(),
                amount: clone_coins(amount),
            },
            Instruction::Execute { contract_addr, msg, funds } => Instruction::Execute {
                contract_addr: contract_addr.clone(),
                msg: clone_bytes(msg),
                funds: clone_coins(funds),
            },
            Instruction::Mint {
                contract_addr,
                token_id,
                owner,
                token_uri,
                extension,
            } => Instruction::Mint {
                contract_addr: contract_addr.clone(),
                token_id: token_id.clone(),
                owner: owner.clone(),
                token_uri: clone_opt_string(token_uri),
                extension: extension.clone(),
            },
            Instruction::TransferNft { contract_addr, recipient, token_id } => Instruction::TransferNft {
                contract_addr: contract_addr.clone(),
                recipient: recipient.clone(),
                token_id: token_id.clone(),
            },
            Instruction::Burn { contract_addr, token_id } => Instruction::Burn {
                contract_addr: contract_addr.clone(),
                token_id: token_id.clone(),
            },
            Instruction::Pay { payee, funds } => Instruction::Pay {
                payee: payee.clone(),
                funds: clone_coins(funds),
            },
        }
    }
}

/// A copy of `instructions`.
pub fn clone_instructions(instructions: &Vec<Instruction>) -> (r: Vec<Instruction>)
    ensures
        r.deep_view() == instructions.deep_view(),
{
    let mut r: Vec<Instruction> = Vec::new();
    let mut i: usize = 0;
    while i < instructions.len()
        invariant
            i <= instructions.len(),
            r.len() == i,
            forall|j: int| 0 <= j < i ==> r[j]@ == instructions[j]@,
        decreases instructions.len() - i,
    {
        r.push(instructions[i].clone());
        i += 1;
    }
    r
}

/// What a successful call did, for the record that the chain keeps of it.
#[derive(Debug, Clone, PartialEq, Eq)]
pub enum Event {
    Instantiate,
    /// Tokens were minted, this many.
    Mint { count: usize },
    /// A sale was started, on these terms.
    StartSale {
        start_time: Expiration,
        end_time: Expiration,
        price: Coin,
        min_tokens_sold: u128,
        max_amount_per_wallet: u32,
    },
    Purchase { number_of_tokens_wanted: u32, number_of_tokens_purchased: u32 },
    /// This token was bought.
    PurchaseByTokenId { token_id: String },
    ClaimRefund,
    /// A settlement step of a sale that missed its threshold.
    IssueRefundsAndBurnTokens,
    /// A settlement step of a sale that reached its threshold.
    TransferTokensAndSendFunds,
    UpdateTokenContract,
}

/// What an [`Event`] stands for.
pub enum EventView {
    Instantiate,
    Mint { count: usize },
    StartSale {
        start_time: Expiration,
        end_time: Expiration,
        price: CoinView,
        min_tokens_sold: u128,
        max_amount_per_wallet: u32,
    },
    Purchase { number_of_tokens_wanted: u32, number_of_tokens_purchased: u32 },
    PurchaseByTokenId { token_id: Seq<char> },
    ClaimRefund,
    IssueRefundsAndBurnTokens,
    TransferTokensAndSendFunds,
    UpdateTokenContract,
}

impl DeepView for Event {
    type V = EventView;

    open spec fn deep_view(&self) -> EventView {
        match self {
            Event::Instantiate => EventView::Instantiate,
            Event::Mint { count } => EventView::Mint { count: *count },
            Event::StartSale {
                start_time,
                end_time,
                price,
                min_tokens_sold,
                max_amount_per_wallet,
            } => EventView::StartSale {
                start_time: *start_time,
                end_time: *end_time,
                price: price@,
                min_tokens_sold: *min_tokens_sold,
                max_amount_per_wallet: *max_amount_per_wallet,
            },
            Event::Purchase {
                number_of_tokens_wanted,
                number_of_tokens_purchased,
            } => EventView::Purchase {
                number_of_tokens_wanted: *number_of_tokens_wanted,
                number_of_tokens_purchased: *number_of_tokens_purchased,
            },
            Event::PurchaseByTokenId { token_id } => EventView::PurchaseByTokenId {
                token_id: token_id@,
            },
            Event::ClaimRefund => EventView::ClaimRefund,
            Event::IssueRefundsAndBurnTokens => EventView::IssueRefundsAndBurnTokens,
            Event::TransferTokensAndSendFunds => EventView::TransferTokensAndSendFunds,
            Event::UpdateTokenContract => EventView::UpdateTokenContract,
        }
    }
}

impl View for Event {
    type V = EventView;

    open spec fn view(&self) -> EventView {
        self.deep_view()
    }
}

/// The outcome of a successful call.
#[derive(Debug, Clone, PartialEq, Eq)]
pub struct Response {
    pub event: Event,
    /// What the chain is to carry out, in this order.
    pub messages: Vec<Instruction>,
}

/// What a [`Response`] stands for.
pub struct ResponseView {
    pub event: EventView,
    pub messages: Seq<InstructionView>,
}

impl DeepView for Response {
    type V = ResponseView;

    open spec fn deep_view(&self) -> ResponseView {
        ResponseView { event: self.event@, messages: self.messages.deep_view() }
    }
}

impl View for Response {
    type V = ResponseView;

    open spec fn view(&self) -> ResponseView {
        self.deep_view()
    }
}

/// What a contract is set up with.
#[derive(Debug, Clone, PartialEq, Eq)]
pub struct InstantiateMsg {
    /// The asset registry whose tokens are sold.
    pub token_address: String,
    /// Whether tokens may still be minted once a sale has taken place.
    pub can_mint_after_sale: bool,
    /// Who owns the contract; the caller where nobody is named.
    pub owner: Option<String>,
}

/// The terms of a sale.
#[derive(Debug, Clone, PartialEq, Eq)]
pub struct StartSaleMsg {
    /// When the sale ends.
    pub expiration: Expiration,
    /// The price of one token.
    pub price: Coin,
    /// How many tokens must sell for the sale to go through.
    pub min_tokens_sold: u128,
    /// How many tokens one wallet may buy; one where nothing is said.
    pub max_amount_per_wallet: Option<u32>,
    pub recipient: Recipient,
}

/// What a [`StartSaleMsg`] stands for.
pub struct StartSaleView {
    pub expiration: Expiration,
    pub price: CoinView,
    pub min_tokens_sold: u128,
    pub max_amount_per_wallet: Option<u32>,
    pub recipient: RecipientView,
}

impl DeepView for StartSaleMsg {
    type V = StartSaleView;

    open spec fn deep_view(&self) -> StartSaleView {
        StartSaleView {
            expiration: self.expiration,
            price: self.price@,
            min_tokens_sold: self.min_tokens_sold,
            max_amount_per_wallet: self.max_amount_per_wallet,
            recipient: self.recipient@,
        }
    }
}

impl View for StartSaleMsg {
    type V = StartSaleView;

    open spec fn view(&self) -> StartSaleView {
        self.deep_view()
    }
}

/// The commands.
#[derive(Debug, Clone, PartialEq, Eq)]
pub enum ExecuteMsg {
    /// Mints tokens; those that the contract owns are put on offer.
    Mint(Vec<CrowdfundMintMsg>),
    /// Opens a sale.
    StartSale {
        /// In milliseconds; right after the current block where nothing is said.
        start_time: Option<Milliseconds>,
        end_time: Milliseconds,
        price: Coin,
        min_tokens_sold: u128,
        max_amount_per_wallet: Option<u32>,
        recipient: Recipient,
    },
    /// Buys tokens, as many as asked for and allowed, lowest identifiers first.
    Purchase { number_of_tokens: Option<u32> },
    /// Buys one token of the caller's choice.
    PurchaseByTokenId { token_id: String },
    /// Takes back what the caller paid in a sale that missed its threshold.
    ClaimRefund {  },
    /// Settles the sale, one batch of at most `limit` steps.
    EndSale { limit: Option<u32> },
    /// Names another asset registry.
    UpdateTokenContract { address: String },
}

/// The questions.
#[derive(Debug, Clone, PartialEq, Eq)]
pub enum QueryMsg {
    State {  },
    Config {  },
    AvailableTokens { start_after: Option<String>, limit: Option<u32> },
    IsTokenAvailable { id: String },
}

} // verus!
