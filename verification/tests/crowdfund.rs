use crowdfund::coin::Coin;
use crowdfund::contract::{instantiate, MAX_MINT_LIMIT};
use crowdfund::entry::{execute, query, Querier, QueryResponse};
use crowdfund::error::ContractError;
use crowdfund::expiration::{
    expiration_from_milliseconds, BlockInfo, Expiration, Milliseconds,
    MILLISECONDS_TO_NANOSECONDS_RATIO,
};
use crowdfund::ledger::Purchase;
use crowdfund::msg::{
    CrowdfundMintMsg, Env, Event, ExecuteMsg, Extension, InstantiateMsg, Instruction,
    MessageInfo, QueryMsg, Recipient, Response,
};
use crowdfund::rates::RatesResponse;
use crowdfund::state::{Config, State, Store};

const MOCK_TOKEN_CONTRACT: &str = "token_contract";
const MOCK_ROYALTY_RECIPIENT: &str = "royalty_recipient";
const MOCK_TAX_RECIPIENT: &str = "tax_recipient";
const MOCK_CONTRACT: &str = "cosmos2contract";
const MOCK_TOKENS_FOR_SALE: &[&str] =
    &["token1", "token2", "token3", "token4", "token5", "token6", "token7"];

fn mock_env() -> Env {
    Env {
        block: BlockInfo { height: 12_345, time: 1_571_797_419_879_305_533 },
        contract_address: MOCK_CONTRACT.to_string(),
    }
}

fn mock_info(sender: &str, funds: &[Coin]) -> MessageInfo {
    MessageInfo { sender: sender.to_string(), funds: funds.to_vec() }
}

fn coin(amount: u128, denom: &str) -> Coin {
    Coin::new(amount, denom)
}

fn coins(amount: u128, denom: &str) -> Vec<Coin> {
    vec![Coin::new(amount, denom)]
}

fn send(to: &str, amount: u128) -> Instruction {
    Instruction::Send { to_address: to.to_string(), amount: coins(amount, "uusd") }
}

/// A royalty of ten percent out of the price, and a flat tax of fifty on top.
fn get_rates_messages() -> Vec<Instruction> {
    vec![send(MOCK_ROYALTY_RECIPIENT, 10), send(MOCK_TAX_RECIPIENT, 50)]
}

fn with_rates() -> Querier {
    Querier {
        rates: RatesResponse { msgs: get_rates_messages(), remainder: coin(90, "uusd") },
        tokens: vec![],
        is_registry: true,
    }
}

fn without_rates() -> Querier {
    Querier {
        rates: RatesResponse { msgs: vec![], remainder: coin(100, "uusd") },
        tokens: vec![],
        is_registry: true,
    }
}

fn owning(mut querier: Querier, tokens: &[&str]) -> Querier {
    querier.tokens = tokens.iter().map(|t| t.to_string()).collect();
    querier
}

fn get_purchase(token_id: &str, purchaser: &str) -> Purchase {
    Purchase {
        token_id: token_id.to_string(),
        purchaser: purchaser.to_string(),
        tax_amount: 50,
        msgs: get_rates_messages(),
    }
}

fn plain_purchase(token_id: &str, purchaser: &str) -> Purchase {
    Purchase {
        token_id: token_id.to_string(),
        purchaser: purchaser.to_string(),
        tax_amount: 0,
        msgs: vec![],
    }
}

fn get_burn_message(token_id: &str) -> Instruction {
    Instruction::Burn {
        contract_addr: MOCK_TOKEN_CONTRACT.to_string(),
        token_id: token_id.to_string(),
    }
}

fn get_transfer_message(token_id: &str, recipient: &str) -> Instruction {
    Instruction::TransferNft {
        contract_addr: MOCK_TOKEN_CONTRACT.to_string(),
        recipient: recipient.to_string(),
        token_id: token_id.to_string(),
    }
}

fn init_with(can_mint_after_sale: bool, sender: &str) -> (Store, Response) {
    let msg = InstantiateMsg {
        token_address: MOCK_TOKEN_CONTRACT.to_string(),
        owner: None,
        can_mint_after_sale,
    };
    instantiate(&mock_env(), &mock_info(sender, &[]), msg)
}

fn init() -> Store {
    init_with(true, "owner").0
}

fn mint_msg(token_id: &str, owner: Option<&str>) -> CrowdfundMintMsg {
    CrowdfundMintMsg {
        token_id: token_id.to_string(),
        owner: owner.map(|o| o.to_string()),
        token_uri: None,
        extension: Extension::new("publisher"),
    }
}

fn mint(store: &mut Store, token_id: &str) -> Result<Response, ContractError> {
    let msg = ExecuteMsg::Mint(vec![mint_msg(token_id, None)]);
    execute(store, &without_rates(), &mock_env(), &mock_info("owner", &[]), msg)
}

fn mint_instruction(token_id: &str) -> Instruction {
    Instruction::Mint {
        contract_addr: MOCK_TOKEN_CONTRACT.to_string(),
        token_id: token_id.to_string(),
        owner: MOCK_CONTRACT.to_string(),
        token_uri: None,
        extension: Extension::new("publisher"),
    }
}

fn current_time() -> u64 {
    mock_env().block.time / MILLISECONDS_TO_NANOSECONDS_RATIO
}

fn start_sale_msg(
    start_time: Option<Milliseconds>,
    end_time: Milliseconds,
    min_tokens_sold: u128,
    max_amount_per_wallet: Option<u32>,
) -> ExecuteMsg {
    ExecuteMsg::StartSale {
        start_time,
        end_time,
        price: coin(100, "uusd"),
        min_tokens_sold,
        max_amount_per_wallet,
        recipient: Recipient::from_string("recipient"),
    }
}

fn sale(end_time: Expiration, min_tokens_sold: u128, max_amount_per_wallet: u32) -> State {
    State {
        end_time,
        price: coin(100, "uusd"),
        min_tokens_sold,
        max_amount_per_wallet,
        amount_sold: 0,
        amount_to_send: 0,
        amount_transferred: 0,
        recipient: Recipient::from_string("recipient"),
    }
}

fn purchase(n: Option<u32>) -> ExecuteMsg {
    ExecuteMsg::Purchase { number_of_tokens: n }
}

fn purchase_by_id(token_id: &str) -> ExecuteMsg {
    ExecuteMsg::PurchaseByTokenId { token_id: token_id.to_string() }
}

fn available(store: &Store, token_id: &str) -> bool {
    store.available_tokens.has(token_id)
}

fn purchases_of(store: &Store, purchaser: &str) -> Vec<Purchase> {
    store.purchases.load(purchaser).cloned().unwrap_or_default()
}

#[test]
fn test_instantiate() {
    let (store, res) = init_with(true, "owner");

    assert_eq!(Response { event: Event::Instantiate, messages: vec![] }, res);
    assert_eq!(
        Config { token_address: MOCK_TOKEN_CONTRACT.to_string(), can_mint_after_sale: true },
        store.config
    );
    assert_eq!("owner", store.owner);
    assert!(!store.sale_conducted);
    assert_eq!(0, store.number_of_tokens_available);
    assert!(store.state.is_none());
}

#[test]
fn test_mint_unauthorized() {
    let mut store = init();

    let msg = ExecuteMsg::Mint(vec![mint_msg("token_id", None)]);
    let info = mock_info("not_owner", &[]);
    let res = execute(&mut store, &without_rates(), &mock_env(), &info, msg);

    assert_eq!(ContractError::Unauthorized, res.unwrap_err());
}

#[test]
fn test_mint_owner_not_crowdfund() {
    let mut store = init();

    let msg = ExecuteMsg::Mint(vec![mint_msg("token_id", Some("not_crowdfund"))]);
    let info = mock_info("owner", &[]);
    let res = execute(&mut store, &without_rates(), &mock_env(), &info, msg).unwrap();

    // The token was minted to an owner that is not the contract: it is not for sale.
    assert!(!available(&store, "token_id"));
    assert_eq!(0, store.number_of_tokens_available);
    assert_eq!(
        vec![Instruction::Mint {
            contract_addr: MOCK_TOKEN_CONTRACT.to_string(),
            token_id: "token_id".to_string(),
            owner: "not_crowdfund".to_string(),
            token_uri: None,
            extension: Extension::new("publisher"),
        }],
        res.messages
    );
}

#[test]
fn test_mint_sale_started() {
    let mut store = init();

    let msg = start_sale_msg(None, Milliseconds(current_time() + 2), 1, Some(5));
    let info = mock_info("owner", &[]);
    let _res = execute(&mut store, &without_rates(), &mock_env(), &info, msg).unwrap();

    let res = mint(&mut store, "token_id");

    assert_eq!(ContractError::SaleStarted, res.unwrap_err());
}

#[test]
fn test_mint_sale_conducted_cant_mint_after_sale() {
    let (mut store, _res) = init_with(false, "owner");

    store.sale_conducted = true;

    let res = mint(&mut store, "token_id");

    assert_eq!(ContractError::CannotMintAfterSaleConducted, res.unwrap_err());
}

#[test]
fn test_mint_sale_conducted_can_mint_after_sale() {
    let mut store = init();

    store.sale_conducted = true;

    let _res = mint(&mut store, "token_id").unwrap();

    assert!(available(&store, "token_id"));
}

#[test]
fn test_mint_successful() {
    let mut store = init();

    let res = mint(&mut store, "token_id").unwrap();

    assert_eq!(
        Response { event: Event::Mint { count: 1 }, messages: vec![mint_instruction("token_id")] },
        res
    );

    assert!(available(&store, "token_id"));
}

#[test]
fn test_mint_multiple_successful() {
    let mut store = init();

    let mint_msgs = vec![mint_msg("token_id1", None), mint_msg("token_id2", None)];

    let msg = ExecuteMsg::Mint(mint_msgs);
    let res =
        execute(&mut store, &without_rates(), &mock_env(), &mock_info("owner", &[]), msg).unwrap();

    assert_eq!(
        Response {
            event: Event::Mint { count: 2 },
            messages: vec![mint_instruction("token_id1"), mint_instruction("token_id2")],
        },
        res
    );

    assert!(available(&store, "token_id1"));
    assert!(available(&store, "token_id2"));

    assert_eq!(store.number_of_tokens_available, 2);
}

#[test]
fn test_mint_multiple_exceeds_limit() {
    let mut store = init();

    let mut mint_msgs: Vec<CrowdfundMintMsg> = vec![];

    for _ in 0..MAX_MINT_LIMIT + 1 {
        mint_msgs.push(mint_msg("token_id1", None));
    }

    let msg = ExecuteMsg::Mint(mint_msgs);
    let res = execute(&mut store, &without_rates(), &mock_env(), &mock_info("owner", &[]), msg);

    assert_eq!(ContractError::TooManyMintMessages { limit: MAX_MINT_LIMIT }, res.unwrap_err());
}

#[test]
fn test_start_sale_end_time_zero() {
    let mut store = init();
    let one_minute_in_future =
        (mock_env().block.time + 60 * 1_000_000_000) / MILLISECONDS_TO_NANOSECONDS_RATIO;

    let msg =
        start_sale_msg(Some(Milliseconds(one_minute_in_future)), Milliseconds::zero(), 1, None);

    let info = mock_info("owner", &[]);
    let res = execute(&mut store, &without_rates(), &mock_env(), &info, msg);
    assert_eq!(ContractError::StartTimeAfterEndTime, res.unwrap_err());
}

#[test]
fn test_start_sale_unauthorized() {
    let mut store = init();

    let msg = start_sale_msg(None, Milliseconds(current_time() + 1), 1, None);

    let info = mock_info("anyone", &[]);
    let res = execute(&mut store, &without_rates(), &mock_env(), &info, msg);
    assert_eq!(ContractError::Unauthorized, res.unwrap_err());
}

#[test]
fn test_start_sale_start_time_in_past() {
    let mut store = init();
    let env = mock_env();

    let one_minute_in_past = (env.block.time - 60 * 1_000_000_000) / 1_000_000_000;
    let msg = start_sale_msg(
        Some(Milliseconds(one_minute_in_past)),
        Milliseconds(current_time() + 2),
        1,
        None,
    );

    let info = mock_info("owner", &[]);
    let res = execute(&mut store, &without_rates(), &mock_env(), &info, msg);
    assert_eq!(
        ContractError::StartTimeInThePast {
            current_time: env.block.time / MILLISECONDS_TO_NANOSECONDS_RATIO,
            current_block: env.block.height,
        },
        res.unwrap_err()
    );
}

#[test]
fn test_start_sale_start_time_in_future() {
    let mut store = init();
    let env = mock_env();

    let one_minute_in_future =
        (env.block.time + 60 * 1_000_000_000) / MILLISECONDS_TO_NANOSECONDS_RATIO;
    let msg = start_sale_msg(
        Some(Milliseconds(one_minute_in_future)),
        Milliseconds(one_minute_in_future + 2),
        1,
        None,
    );

    let info = mock_info("owner", &[]);
    let res = execute(&mut store, &without_rates(), &mock_env(), &info, msg);
    assert!(res.is_ok())
}

#[test]
fn test_start_sale_max_default() {
    let mut store = init();

    let info = mock_info("owner", &[]);
    let msg = start_sale_msg(None, Milliseconds(current_time() + 2), 1, None);
    let res = execute(&mut store, &without_rates(), &mock_env(), &info, msg).unwrap();
    // The current time is used since no start time was given.
    let start_expiration = expiration_from_milliseconds(Milliseconds(current_time() + 1)).unwrap();
    let end_expiration = expiration_from_milliseconds(Milliseconds(current_time() + 2)).unwrap();

    assert_eq!(
        Response {
            event: Event::StartSale {
                start_time: start_expiration,
                end_time: end_expiration,
                price: Coin::new(100, "uusd"),
                min_tokens_sold: 1,
                max_amount_per_wallet: 1,
            },
            messages: vec![],
        },
        res
    );

    assert_eq!(Some(sale(end_expiration, 1, 1)), store.state);

    assert!(store.sale_conducted);

    let msg = start_sale_msg(None, Milliseconds(current_time() + 2), 1, None);
    let res = execute(&mut store, &without_rates(), &mock_env(), &info, msg);
    assert_eq!(ContractError::SaleStarted, res.unwrap_err());
}

#[test]
fn test_start_sale_max_modified() {
    let mut store = init();

    let msg = start_sale_msg(None, Milliseconds(current_time() + 2), 1, Some(5));
    let start_expiration = expiration_from_milliseconds(Milliseconds(current_time() + 1)).unwrap();
    let end_expiration = expiration_from_milliseconds(Milliseconds(current_time() + 2)).unwrap();

    let info = mock_info("owner", &[]);
    let res = execute(&mut store, &without_rates(), &mock_env(), &info, msg).unwrap();
    assert_eq!(
        Response {
            event: Event::StartSale {
                start_time: start_expiration,
                end_time: end_expiration,
                price: Coin::new(100, "uusd"),
                min_tokens_sold: 1,
                max_amount_per_wallet: 5,
            },
            messages: vec![],
        },
        res
    );

    assert_eq!(Some(sale(end_expiration, 1, 5)), store.state);
}

#[test]
fn test_purchase_sale_not_started() {
    let mut store = init();

    let info = mock_info("sender", &[]);
    let res = execute(&mut store, &without_rates(), &mock_env(), &info, purchase(None));
    assert_eq!(ContractError::NoOngoingSale, res.unwrap_err());

    let msg = purchase_by_id(MOCK_TOKENS_FOR_SALE[0]);
    let res = execute(&mut store, &without_rates(), &mock_env(), &info, msg);
    assert_eq!(ContractError::NoOngoingSale, res.unwrap_err());
}

#[test]
fn test_purchase_sale_not_ended() {
    let mut store = init();

    store.state = Some(sale(Expiration::AtHeight(mock_env().block.height - 1), 1, 5));

    let info = mock_info("sender", &[]);

    let res = execute(&mut store, &without_rates(), &mock_env(), &info, purchase(None));
    assert_eq!(ContractError::NoOngoingSale, res.unwrap_err());

    let msg = purchase_by_id(MOCK_TOKENS_FOR_SALE[0]);
    let res = execute(&mut store, &without_rates(), &mock_env(), &info, msg);
    assert_eq!(ContractError::NoOngoingSale, res.unwrap_err());
}

#[test]
fn test_purchase_no_funds() {
    let mut store = init();

    mint(&mut store, MOCK_TOKENS_FOR_SALE[0]).unwrap();

    store.state = Some(sale(Expiration::AtHeight(mock_env().block.height + 1), 1, 5));

    let info = mock_info("sender", &[]);

    let res = execute(&mut store, &without_rates(), &mock_env(), &info, purchase(None));
    assert_eq!(ContractError::InsufficientFunds, res.unwrap_err());

    let msg = purchase_by_id(MOCK_TOKENS_FOR_SALE[0]);
    let res = execute(&mut store, &without_rates(), &mock_env(), &info, msg);
    assert_eq!(ContractError::InsufficientFunds, res.unwrap_err());
}

#[test]
fn test_purchase_wrong_denom() {
    let mut store = init();

    mint(&mut store, MOCK_TOKENS_FOR_SALE[0]).unwrap();

    store.state = Some(sale(Expiration::AtHeight(mock_env().block.height + 1), 1, 5));

    let info = mock_info("sender", &coins(100, "uluna"));

    let res = execute(&mut store, &without_rates(), &mock_env(), &info, purchase(None));
    assert_eq!(ContractError::InsufficientFunds, res.unwrap_err());

    let msg = purchase_by_id(MOCK_TOKENS_FOR_SALE[0]);
    let res = execute(&mut store, &without_rates(), &mock_env(), &info, msg);
    assert_eq!(ContractError::InsufficientFunds, res.unwrap_err());
}

#[test]
fn test_purchase_not_enough_for_price() {
    let mut store = init();

    mint(&mut store, MOCK_TOKENS_FOR_SALE[0]).unwrap();

    store.state = Some(sale(Expiration::AtHeight(mock_env().block.height + 1), 1, 5));

    let info = mock_info("sender", &coins(50, "uusd"));

    let res = execute(&mut store, &with_rates(), &mock_env(), &info, purchase(None));
    assert_eq!(ContractError::InsufficientFunds, res.unwrap_err());

    let msg = purchase_by_id(MOCK_TOKENS_FOR_SALE[0]);
    let res = execute(&mut store, &with_rates(), &mock_env(), &info, msg);
    assert_eq!(ContractError::InsufficientFunds, res.unwrap_err());
}

#[test]
fn test_purchase_not_enough_for_tax() {
    let mut store = init();

    mint(&mut store, MOCK_TOKENS_FOR_SALE[0]).unwrap();

    store.number_of_tokens_available = 1;

    store.state = Some(sale(Expiration::AtHeight(mock_env().block.height + 1), 1, 5));

    let info = mock_info("sender", &coins(100, "uusd"));

    let res = execute(&mut store, &with_rates(), &mock_env(), &info, purchase(None));
    assert_eq!(ContractError::InsufficientFunds, res.unwrap_err());

    // A failed call leaves the store as it was, so the token is still on offer.
    assert!(available(&store, MOCK_TOKENS_FOR_SALE[0]));
    assert_eq!(1, store.number_of_tokens_available);

    let msg = purchase_by_id(MOCK_TOKENS_FOR_SALE[0]);
    let res = execute(&mut store, &with_rates(), &mock_env(), &info, msg);
    assert_eq!(ContractError::InsufficientFunds, res.unwrap_err());
}

#[test]
fn test_purchase_by_token_id_not_available() {
    let mut store = init();

    mint(&mut store, MOCK_TOKENS_FOR_SALE[0]).unwrap();

    store.state = Some(sale(Expiration::AtHeight(mock_env().block.height + 1), 1, 5));

    let info = mock_info("sender", &coins(150, "uusd"));

    let msg = purchase_by_id(MOCK_TOKENS_FOR_SALE[1]);
    let res = execute(&mut store, &with_rates(), &mock_env(), &info, msg);
    assert_eq!(ContractError::TokenNotAvailable, res.unwrap_err());
}

#[test]
fn test_purchase_by_token_id() {
    let mut store = init();

    mint(&mut store, MOCK_TOKENS_FOR_SALE[0]).unwrap();
    mint(&mut store, MOCK_TOKENS_FOR_SALE[1]).unwrap();

    let mut state = sale(Expiration::AtHeight(mock_env().block.height + 1), 1, 1);

    store.state = Some(state.clone());

    let info = mock_info("sender", &coins(150, "uusd"));

    // Purchase a token.
    let msg = purchase_by_id(MOCK_TOKENS_FOR_SALE[0]);
    let res = execute(&mut store, &with_rates(), &mock_env(), &info, msg).unwrap();
    assert_eq!(
        Response {
            event: Event::PurchaseByTokenId { token_id: MOCK_TOKENS_FOR_SALE[0].to_string() },
            messages: vec![],
        },
        res
    );

    state.amount_to_send += 90;
    state.amount_sold += 1;
    assert_eq!(Some(state), store.state);

    assert!(!available(&store, MOCK_TOKENS_FOR_SALE[0]));
    assert_eq!(store.number_of_tokens_available, 1);

    // Purchase a second one.
    let msg = purchase_by_id(MOCK_TOKENS_FOR_SALE[1]);
    let res = execute(&mut store, &with_rates(), &mock_env(), &info, msg);

    assert_eq!(ContractError::PurchaseLimitReached, res.unwrap_err());
}

#[test]
fn test_multiple_purchases() {
    let mut store = init();

    // Mint four tokens.
    mint(&mut store, MOCK_TOKENS_FOR_SALE[0]).unwrap();
    mint(&mut store, MOCK_TOKENS_FOR_SALE[1]).unwrap();
    mint(&mut store, MOCK_TOKENS_FOR_SALE[2]).unwrap();
    mint(&mut store, MOCK_TOKENS_FOR_SALE[3]).unwrap();

    // Query available tokens.
    let msg = QueryMsg::AvailableTokens { start_after: None, limit: None };
    let res = query(&store, msg);
    assert_eq!(
        QueryResponse::AvailableTokens(vec![
            MOCK_TOKENS_FOR_SALE[0].to_string(),
            MOCK_TOKENS_FOR_SALE[1].to_string(),
            MOCK_TOKENS_FOR_SALE[2].to_string(),
            MOCK_TOKENS_FOR_SALE[3].to_string(),
        ]),
        res
    );

    // Query if individual token is available
    let msg = QueryMsg::IsTokenAvailable { id: MOCK_TOKENS_FOR_SALE[0].to_owned() };
    assert_eq!(QueryResponse::IsTokenAvailable(true), query(&store, msg));

    // Query if another token is available
    let msg = QueryMsg::IsTokenAvailable { id: MOCK_TOKENS_FOR_SALE[4].to_owned() };
    assert_eq!(QueryResponse::IsTokenAvailable(false), query(&store, msg));

    // Purchase 2 tokens
    let mut state = sale(Expiration::AtHeight(mock_env().block.height + 1), 1, 3);
    store.state = Some(state.clone());

    let info = mock_info("sender", &coins(300, "uusd"));
    let res = execute(&mut store, &with_rates(), &mock_env(), &info, purchase(Some(2))).unwrap();

    assert_eq!(
        Response {
            event: Event::Purchase { number_of_tokens_wanted: 2, number_of_tokens_purchased: 2 },
            messages: vec![],
        },
        res
    );

    state.amount_to_send += 180;
    state.amount_sold += 2;
    assert_eq!(Some(state.clone()), store.state);

    assert!(!available(&store, MOCK_TOKENS_FOR_SALE[0]));
    assert!(!available(&store, MOCK_TOKENS_FOR_SALE[1]));

    assert_eq!(
        vec![
            get_purchase(MOCK_TOKENS_FOR_SALE[0], "sender"),
            get_purchase(MOCK_TOKENS_FOR_SALE[1], "sender")
        ],
        purchases_of(&store, "sender")
    );

    // Purchase max number of tokens.
    let info = mock_info("sender", &coins(300, "uusd"));
    let res = execute(&mut store, &with_rates(), &mock_env(), &info, purchase(None)).unwrap();

    assert_eq!(
        Response {
            event: Event::Purchase { number_of_tokens_wanted: 1, number_of_tokens_purchased: 1 },
            // Refund sent back as they only were able to buy one.
            messages: vec![send("sender", 150)],
        },
        res
    );

    assert!(!available(&store, MOCK_TOKENS_FOR_SALE[2]));
    state.amount_to_send += 90;
    state.amount_sold += 1;
    assert_eq!(Some(state.clone()), store.state);

    assert_eq!(
        vec![
            get_purchase(MOCK_TOKENS_FOR_SALE[0], "sender"),
            get_purchase(MOCK_TOKENS_FOR_SALE[1], "sender"),
            get_purchase(MOCK_TOKENS_FOR_SALE[2], "sender")
        ],
        purchases_of(&store, "sender")
    );

    // Try to purchase an additional token when limit has already been reached.
    let res = execute(&mut store, &with_rates(), &mock_env(), &info, purchase(Some(1)));

    assert_eq!(ContractError::PurchaseLimitReached, res.unwrap_err());

    // User 2 tries to purchase 2 but only 1 is left.
    let info = mock_info("user2", &coins(300, "uusd"));
    let res = execute(&mut store, &with_rates(), &mock_env(), &info, purchase(Some(2))).unwrap();

    assert_eq!(
        Response {
            event: Event::Purchase { number_of_tokens_wanted: 2, number_of_tokens_purchased: 1 },
            messages: vec![send("user2", 150)],
        },
        res
    );

    assert_eq!(
        vec![get_purchase(MOCK_TOKENS_FOR_SALE[3], "user2")],
        purchases_of(&store, "user2")
    );
    assert!(!available(&store, MOCK_TOKENS_FOR_SALE[3]));
    state.amount_to_send += 90;
    state.amount_sold += 1;
    assert_eq!(Some(state), store.state);

    assert_eq!(store.number_of_tokens_available, 0);

    // User 2 tries to purchase again.
    let info = mock_info("user2", &coins(150, "uusd"));
    let res = execute(&mut store, &with_rates(), &mock_env(), &info, purchase(None));

    assert_eq!(ContractError::AllTokensPurchased, res.unwrap_err());
}

#[test]
fn test_purchase_more_than_allowed_per_wallet() {
    let mut store = init();

    // Mint four tokens.
    mint(&mut store, MOCK_TOKENS_FOR_SALE[0]).unwrap();
    mint(&mut store, MOCK_TOKENS_FOR_SALE[1]).unwrap();
    mint(&mut store, MOCK_TOKENS_FOR_SALE[2]).unwrap();
    mint(&mut store, MOCK_TOKENS_FOR_SALE[3]).unwrap();

    store.state = Some(sale(Expiration::AtHeight(mock_env().block.height + 1), 1, 3));

    // Try to purchase 4
    let info = mock_info("sender", &coins(600, "uusd"));
    let res = execute(&mut store, &with_rates(), &mock_env(), &info, purchase(Some(4))).unwrap();

    assert_eq!(
        Response {
            // Number got truncated to 3 which is the max possible.
            event: Event::Purchase { number_of_tokens_wanted: 3, number_of_tokens_purchased: 3 },
            messages: vec![send("sender", 150)],
        },
        res
    );
}

#[test]
fn test_end_sale_not_expired() {
    let mut store = init();

    store.state = Some(sale(Expiration::AtHeight(mock_env().block.height + 1), 1, 2));
    store.number_of_tokens_available = 1;

    let msg = ExecuteMsg::EndSale { limit: None };
    let info = mock_info("anyone", &[]);
    let res = execute(&mut store, &without_rates(), &mock_env(), &info, msg);
    assert_eq!(ContractError::SaleNotEnded, res.unwrap_err());
}

#[test]
fn test_integration_conditions_not_met() {
    let mut store = init();

    // Mint all tokens.
    for &token_id in MOCK_TOKENS_FOR_SALE {
        let _res = mint(&mut store, token_id).unwrap();
        assert!(available(&store, token_id));
    }

    assert_eq!(store.number_of_tokens_available, 7);

    let msg = start_sale_msg(None, Milliseconds(current_time() + 2), 5, Some(2));

    let info = mock_info("owner", &[]);
    let _res = execute(&mut store, &with_rates(), &mock_env(), &info, msg).unwrap();

    // Can't mint once sale started.
    let res = mint(&mut store, "token_id");
    assert_eq!(ContractError::SaleStarted, res.unwrap_err());

    let info = mock_info("A", &coins(150, "uusd"));
    let _res = execute(&mut store, &with_rates(), &mock_env(), &info, purchase(Some(1))).unwrap();

    let _res = execute(&mut store, &with_rates(), &mock_env(), &info, purchase(Some(1))).unwrap();

    let info = mock_info("B", &coins(150, "uusd"));
    let _res = execute(&mut store, &with_rates(), &mock_env(), &info, purchase(Some(1))).unwrap();

    let info = mock_info("C", &coins(150, "uusd"));
    let _res = execute(&mut store, &with_rates(), &mock_env(), &info, purchase(Some(1))).unwrap();

    let end_expiration = expiration_from_milliseconds(Milliseconds(current_time() + 2)).unwrap();

    let mut state = sale(end_expiration, 5, 2);
    state.amount_sold = 4;
    state.amount_to_send = 360;
    assert_eq!(Some(state), store.state);

    assert_eq!(
        vec![
            get_purchase(MOCK_TOKENS_FOR_SALE[0], "A"),
            get_purchase(MOCK_TOKENS_FOR_SALE[1], "A")
        ],
        purchases_of(&store, "A")
    );

    assert_eq!(vec![get_purchase(MOCK_TOKENS_FOR_SALE[2], "B")], purchases_of(&store, "B"));

    assert_eq!(vec![get_purchase(MOCK_TOKENS_FOR_SALE[3], "C")], purchases_of(&store, "C"));
    assert!(!available(&store, MOCK_TOKENS_FOR_SALE[0]));
    assert!(!available(&store, MOCK_TOKENS_FOR_SALE[1]));
    assert!(!available(&store, MOCK_TOKENS_FOR_SALE[2]));
    assert!(!available(&store, MOCK_TOKENS_FOR_SALE[3]));

    assert_eq!(store.number_of_tokens_available, 3);

    let mut env = mock_env();
    env.block.time += 3_600 * 1_000_000_000;

    // User B claims their own refund.
    let msg = ExecuteMsg::ClaimRefund {};
    let info = mock_info("B", &[]);
    let res = execute(&mut store, &with_rates(), &env, &info, msg).unwrap();
    assert_eq!(Response { event: Event::ClaimRefund, messages: vec![send("B", 150)] }, res);

    assert!(!store.purchases.has("B"));

    let querier = owning(with_rates(), MOCK_TOKENS_FOR_SALE);
    let info = mock_info("anyone", &[]);
    let res =
        execute(&mut store, &querier, &env, &info, ExecuteMsg::EndSale { limit: None }).unwrap();
    let refund_msgs: Vec<Instruction> = vec![
        // All of A's payments grouped into one message.
        send("A", 300),
        send("C", 150),
    ];
    let burn_msgs: Vec<Instruction> = vec![
        get_burn_message(MOCK_TOKENS_FOR_SALE[0]),
        get_burn_message(MOCK_TOKENS_FOR_SALE[1]),
        get_burn_message(MOCK_TOKENS_FOR_SALE[2]),
        get_burn_message(MOCK_TOKENS_FOR_SALE[3]),
        // Tokens that were not sold.
        get_burn_message(MOCK_TOKENS_FOR_SALE[4]),
        get_burn_message(MOCK_TOKENS_FOR_SALE[5]),
        get_burn_message(MOCK_TOKENS_FOR_SALE[6]),
    ];

    assert_eq!(
        Response {
            event: Event::IssueRefundsAndBurnTokens,
            messages: [refund_msgs, burn_msgs].concat(),
        },
        res
    );

    assert!(!store.purchases.has("A"));
    assert!(!store.purchases.has("C"));

    // Burned tokens have been removed.
    assert!(!available(&store, MOCK_TOKENS_FOR_SALE[4]));
    assert!(!available(&store, MOCK_TOKENS_FOR_SALE[5]));
    assert!(!available(&store, MOCK_TOKENS_FOR_SALE[6]));

    let querier = owning(with_rates(), &[]);
    let _res =
        execute(&mut store, &querier, &env, &info, ExecuteMsg::EndSale { limit: None }).unwrap();
    assert!(store.state.is_none());
    assert_eq!(store.number_of_tokens_available, 0);
}

#[test]
fn test_integration_conditions_met() {
    let mut store = init();
    let mut env = mock_env();

    // Mint all tokens.
    for &token_id in MOCK_TOKENS_FOR_SALE {
        let _res = mint(&mut store, token_id).unwrap();
        assert!(available(&store, token_id));
    }

    let msg = start_sale_msg(None, Milliseconds(current_time() + 2), 3, Some(2));

    let info = mock_info("owner", &[]);
    let _res = execute(&mut store, &with_rates(), &env, &info, msg).unwrap();

    let info = mock_info("A", &coins(150, "uusd"));
    let _res = execute(&mut store, &with_rates(), &env, &info, purchase(Some(1))).unwrap();

    let _res = execute(&mut store, &with_rates(), &env, &info, purchase(Some(1))).unwrap();

    let info = mock_info("B", &coins(150, "uusd"));
    let _res = execute(&mut store, &with_rates(), &env, &info, purchase(Some(1))).unwrap();

    let info = mock_info("C", &coins(150, "uusd"));
    let _res = execute(&mut store, &with_rates(), &env, &info, purchase(Some(1))).unwrap();

    let info = mock_info("D", &coins(150, "uusd"));
    let _res = execute(&mut store, &with_rates(), &env, &info, purchase(Some(1))).unwrap();
    let end_expiration = expiration_from_milliseconds(Milliseconds(current_time() + 2)).unwrap();
    let mut state = sale(end_expiration, 3, 2);
    state.amount_sold = 5;
    state.amount_to_send = 450;
    assert_eq!(Some(state.clone()), store.state);

    assert_eq!(
        vec![
            get_purchase(MOCK_TOKENS_FOR_SALE[0], "A"),
            get_purchase(MOCK_TOKENS_FOR_SALE[1], "A")
        ],
        purchases_of(&store, "A")
    );

    assert_eq!(vec![get_purchase(MOCK_TOKENS_FOR_SALE[2], "B")], purchases_of(&store, "B"));
    assert_eq!(vec![get_purchase(MOCK_TOKENS_FOR_SALE[3], "C")], purchases_of(&store, "C"));
    assert_eq!(vec![get_purchase(MOCK_TOKENS_FOR_SALE[4], "D")], purchases_of(&store, "D"));
    assert!(!available(&store, MOCK_TOKENS_FOR_SALE[0]));
    assert!(!available(&store, MOCK_TOKENS_FOR_SALE[1]));
    assert!(!available(&store, MOCK_TOKENS_FOR_SALE[2]));
    assert!(!available(&store, MOCK_TOKENS_FOR_SALE[3]));
    assert!(!available(&store, MOCK_TOKENS_FOR_SALE[4]));

    env.block.time += 3_600 * 1_000_000_000;

    let unsold = owning(with_rates(), &MOCK_TOKENS_FOR_SALE[5..]);
    let info = mock_info("anyone", &[]);
    let res =
        execute(&mut store, &unsold, &env, &info, ExecuteMsg::EndSale { limit: Some(1) }).unwrap();

    assert_eq!(
        Response {
            event: Event::TransferTokensAndSendFunds,
            messages: vec![
                get_transfer_message(MOCK_TOKENS_FOR_SALE[0], "A"),
                send(MOCK_ROYALTY_RECIPIENT, 10),
                send(MOCK_TAX_RECIPIENT, 50),
            ],
        },
        res
    );

    assert_eq!(vec![get_purchase(MOCK_TOKENS_FOR_SALE[1], "A")], purchases_of(&store, "A"));

    state.amount_transferred += 1;
    assert_eq!(Some(state.clone()), store.state);

    let res =
        execute(&mut store, &unsold, &env, &info, ExecuteMsg::EndSale { limit: Some(2) }).unwrap();

    assert_eq!(
        Response {
            event: Event::TransferTokensAndSendFunds,
            messages: vec![
                get_transfer_message(MOCK_TOKENS_FOR_SALE[1], "A"),
                get_transfer_message(MOCK_TOKENS_FOR_SALE[2], "B"),
                // Royalty of 10% for A and B combined
                send(MOCK_ROYALTY_RECIPIENT, 20),
                // Combined tax for both A and B
                send(MOCK_TAX_RECIPIENT, 100),
            ],
        },
        res
    );

    assert!(!store.purchases.has("A"));
    assert!(!store.purchases.has("B"));
    assert!(store.purchases.has("C"));
    assert!(store.purchases.has("D"));

    state.amount_transferred += 2;
    assert_eq!(Some(state.clone()), store.state);

    let res =
        execute(&mut store, &unsold, &env, &info, ExecuteMsg::EndSale { limit: None }).unwrap();

    assert!(!store.purchases.has("C"));
    assert!(!store.purchases.has("D"));

    assert_eq!(
        Response {
            event: Event::TransferTokensAndSendFunds,
            messages: vec![
                get_transfer_message(MOCK_TOKENS_FOR_SALE[3], "C"),
                get_transfer_message(MOCK_TOKENS_FOR_SALE[4], "D"),
                // Royalty of 10% for C and D combined
                send(MOCK_ROYALTY_RECIPIENT, 20),
                // Combined tax for both C and D
                send(MOCK_TAX_RECIPIENT, 100),
            ],
        },
        res
    );

    state.amount_transferred += 2;
    assert_eq!(Some(state.clone()), store.state);

    let res =
        execute(&mut store, &unsold, &env, &info, ExecuteMsg::EndSale { limit: None }).unwrap();
    assert_eq!(3, res.messages.len());

    assert_eq!(
        Response {
            event: Event::TransferTokensAndSendFunds,
            messages: vec![
                // Now that all tokens have been transfered, can send the funds to recipient.
                Instruction::Pay {
                    payee: Recipient::from_string("recipient"),
                    funds: coins(450, "uusd"),
                },
                // Burn tokens that were not purchased
                get_burn_message(MOCK_TOKENS_FOR_SALE[5]),
                get_burn_message(MOCK_TOKENS_FOR_SALE[6]),
            ],
        },
        res
    );

    state.amount_to_send = 0;
    assert_eq!(Some(state), store.state);

    // Burned tokens removed.
    assert!(!available(&store, MOCK_TOKENS_FOR_SALE[5]));
    assert!(!available(&store, MOCK_TOKENS_FOR_SALE[6]));

    let nothing = owning(with_rates(), &[]);
    let _res =
        execute(&mut store, &nothing, &env, &info, ExecuteMsg::EndSale { limit: None }).unwrap();
    assert!(store.state.is_none());
    assert_eq!(store.number_of_tokens_available, 0);
}

fn sold_one(end_time: Expiration, min_tokens_sold: u128, amount_sold: u128) -> Store {
    let mut store = init();
    let mut state = sale(end_time, min_tokens_sold, 5);
    state.amount_sold = amount_sold;
    state.amount_to_send = 100;
    store.state = Some(state);
    store.purchases.record(plain_purchase(MOCK_TOKENS_FOR_SALE[0], "A"));
    store
}

#[test]
fn test_end_sale_single_purchase() {
    let mut store = sold_one(Expiration::AtHeight(mock_env().block.height - 1), 1, 1);

    let msg = ExecuteMsg::EndSale { limit: None };
    let info = mock_info("anyone", &[]);
    let res = execute(&mut store, &without_rates(), &mock_env(), &info, msg).unwrap();

    assert_eq!(
        Response {
            event: Event::TransferTokensAndSendFunds,
            messages: vec![get_transfer_message(MOCK_TOKENS_FOR_SALE[0], "A")],
        },
        res
    );
}

#[test]
fn test_end_sale_all_tokens_sold() {
    // Sale has not expired yet.
    let mut store = sold_one(Expiration::AtHeight(mock_env().block.height + 1), 1, 1);

    store.number_of_tokens_available = 0;

    let msg = ExecuteMsg::EndSale { limit: None };
    let info = mock_info("anyone", &[]);
    let res = execute(&mut store, &without_rates(), &mock_env(), &info, msg).unwrap();

    assert_eq!(
        Response {
            event: Event::TransferTokensAndSendFunds,
            messages: vec![get_transfer_message(MOCK_TOKENS_FOR_SALE[0], "A")],
        },
        res
    );
}

#[test]
fn test_end_sale_some_tokens_sold_threshold_met() {
    // Sale has not expired yet.
    let mut store = sold_one(Expiration::AtHeight(mock_env().block.height + 1), 1, 2);

    store.number_of_tokens_available = 1;

    // Only the owner can end the sale if only the minimum token threshold is met.
    // Anyone can end the sale if it's expired or the remaining number of tokens available is zero.
    let info = mock_info("anyone", &[]);
    let err =
        execute(&mut store, &without_rates(), &mock_env(), &info, ExecuteMsg::EndSale { limit: None })
            .unwrap_err();
    assert_eq!(err, ContractError::SaleNotEnded);

    let info = mock_info("owner", &[]);
    let res =
        execute(&mut store, &without_rates(), &mock_env(), &info, ExecuteMsg::EndSale { limit: None })
            .unwrap();

    assert_eq!(
        Response {
            event: Event::TransferTokensAndSendFunds,
            messages: vec![get_transfer_message(MOCK_TOKENS_FOR_SALE[0], "A")],
        },
        res
    );
}

#[test]
fn test_end_sale_some_tokens_sold_threshold_not_met() {
    // Sale has not expired yet.
    let mut store = sold_one(Expiration::AtHeight(mock_env().block.height + 1), 2, 0);

    store.number_of_tokens_available = 2;

    let info = mock_info("owner", &[]);
    // Minimum sold is 2, actual sold is 0
    let err =
        execute(&mut store, &without_rates(), &mock_env(), &info, ExecuteMsg::EndSale { limit: None })
            .unwrap_err();
    assert_eq!(err, ContractError::SaleNotEnded);
}

#[test]
fn test_end_sale_limit_zero() {
    let mut store = sold_one(Expiration::AtHeight(mock_env().block.height - 1), 1, 1);
    store.number_of_tokens_available = 1;

    let msg = ExecuteMsg::EndSale { limit: Some(0) };
    let info = mock_info("anyone", &[]);
    let res = execute(&mut store, &without_rates(), &mock_env(), &info, msg);

    assert_eq!(ContractError::LimitMustNotBeZero, res.unwrap_err());
}

#[test]
fn test_update_token_contract() {
    let mut store = init();

    let msg = ExecuteMsg::UpdateTokenContract { address: MOCK_TOKEN_CONTRACT.to_owned() };

    let info = mock_info("owner", &[]);
    let res = execute(&mut store, &without_rates(), &mock_env(), &info, msg);
    assert!(res.is_ok())
}

#[test]
fn test_update_token_contract_unauthorized() {
    let (mut store, _res) = init_with(true, "app_contract");

    let msg = ExecuteMsg::UpdateTokenContract { address: MOCK_TOKEN_CONTRACT.to_owned() };

    let unauth_info = mock_info("attacker", &[]);
    let res = execute(&mut store, &without_rates(), &mock_env(), &unauth_info, msg).unwrap_err();
    assert_eq!(ContractError::Unauthorized, res);
}

#[test]
fn test_update_token_contract_post_mint() {
    let mut store = init();

    mint(&mut store, "1").unwrap();

    let msg = ExecuteMsg::UpdateTokenContract { address: MOCK_TOKEN_CONTRACT.to_owned() };

    let info = mock_info("owner", &[]);
    let res = execute(&mut store, &without_rates(), &mock_env(), &info, msg).unwrap_err();
    assert_eq!(ContractError::Unauthorized, res);
}

#[test]
fn test_update_token_contract_not_cw721() {
    let mut store = init();

    let msg = ExecuteMsg::UpdateTokenContract { address: "not_a_token_contract".to_owned() };

    let mut querier = without_rates();
    querier.is_registry = false;
    let info = mock_info("owner", &[]);
    let res = execute(&mut store, &querier, &mock_env(), &info, msg).unwrap_err();
    assert_eq!(ContractError::Unauthorized, res);
}
