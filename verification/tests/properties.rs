use crowdfund::coin::Coin;
use crowdfund::contract::instantiate;
use crowdfund::entry::{execute, Querier};
use crowdfund::error::ContractError;
use crowdfund::expiration::{BlockInfo, Expiration, Milliseconds};
use crowdfund::ledger::{Ledger, Purchase};
use crowdfund::msg::{
    CrowdfundMintMsg, Env, Event, ExecuteMsg, Extension, InstantiateMsg, Instruction,
    MessageInfo, Recipient, Response,
};
use crowdfund::rates::RatesResponse;
use crowdfund::state::{State, Store};
use crowdfund::tokens::TokenSet;

const TOKENS: &[&str] = &["item0", "item1", "item2", "item3", "item4", "item5", "item6"];
const NOW: u64 = 1_700_000_000_000_000_000;

fn env_at(time: u64) -> Env {
    Env { block: BlockInfo { height: 100, time }, contract_address: "crowdfund".to_string() }
}

fn env() -> Env {
    env_at(NOW)
}

fn later() -> Env {
    env_at(NOW + 3_600_000_000_000)
}

fn info(sender: &str, amount: u128) -> MessageInfo {
    let funds = if amount == 0 { vec![] } else { vec![Coin::new(amount, "uusd")] };
    MessageInfo { sender: sender.to_string(), funds }
}

fn send(to: &str, amount: u128) -> Instruction {
    Instruction::Send { to_address: to.to_string(), amount: vec![Coin::new(amount, "uusd")] }
}

/// Ten out of the price for the artist, fifty on top for the state.
fn taxed(tokens: &[&str]) -> Querier {
    Querier {
        rates: RatesResponse {
            msgs: vec![send("artist", 10), send("state", 50)],
            remainder: Coin::new(90, "uusd"),
        },
        tokens: tokens.iter().map(|t| t.to_string()).collect(),
        is_registry: true,
    }
}

fn untaxed(tokens: &[&str]) -> Querier {
    Querier {
        rates: RatesResponse { msgs: vec![], remainder: Coin::new(100, "uusd") },
        tokens: tokens.iter().map(|t| t.to_string()).collect(),
        is_registry: true,
    }
}

fn new_store() -> Store {
    let msg = InstantiateMsg {
        token_address: "registry".to_string(),
        can_mint_after_sale: true,
        owner: Some("owner".to_string()),
    };
    instantiate(&env(), &info("anyone", 0), msg).0
}

fn mint(store: &mut Store, tokens: &[&str]) {
    let msgs = tokens
        .iter()
        .map(|t| CrowdfundMintMsg {
            token_id: t.to_string(),
            owner: None,
            token_uri: None,
            extension: Extension::new("publisher"),
        })
        .collect();
    execute(store, &untaxed(&[]), &env(), &info("owner", 0), ExecuteMsg::Mint(msgs)).unwrap();
}

fn start(store: &mut Store, min_tokens_sold: u128, max_amount_per_wallet: Option<u32>) {
    let msg = ExecuteMsg::StartSale {
        start_time: None,
        end_time: Milliseconds(NOW / 1_000_000 + 1_000),
        price: Coin::new(100, "uusd"),
        min_tokens_sold,
        max_amount_per_wallet,
        recipient: Recipient::from_string("seller"),
    };
    execute(store, &untaxed(&[]), &env(), &info("owner", 0), msg).unwrap();
}

fn buy(store: &mut Store, querier: &Querier, buyer: &str, n: u32, funds: u128) -> Response {
    let msg = ExecuteMsg::Purchase { number_of_tokens: Some(n) };
    execute(store, querier, &env(), &info(buyer, funds), msg).unwrap()
}

fn end(store: &mut Store, querier: &Querier, limit: Option<u32>) -> Result<Response, ContractError> {
    execute(store, querier, &later(), &info("anyone", 0), ExecuteMsg::EndSale { limit })
}

/// What the instructions move out of the contract, in uusd.
fn paid_out(messages: &[Instruction]) -> u128 {
    messages
        .iter()
        .map(|m| match m {
            Instruction::Send { amount, .. } => amount.iter().map(|c| c.amount).sum(),
            Instruction::Pay { funds, .. } => funds.iter().map(|c| c.amount).sum(),
            Instruction::Execute { funds, .. } => funds.iter().map(|c| c.amount).sum(),
            _ => 0u128,
        })
        .sum()
}

/// The tokens that the registry still holds for the contract after the instructions.
fn registry_after(registry: &[String], messages: &[Instruction]) -> Vec<String> {
    registry
        .iter()
        .filter(|t| {
            !messages.iter().any(|m| match m {
                Instruction::Burn { token_id, .. } => token_id == *t,
                Instruction::TransferNft { token_id, .. } => token_id == *t,
                _ => false,
            })
        })
        .cloned()
        .collect()
}

/// Settles a sale with one limit for every call, and gives the store at the end,
/// what was paid out on the way and the number of calls that it took.
fn settle(mut store: Store, limit: u32) -> (Store, u128, u32) {
    let mut registry: Vec<String> = TOKENS.iter().map(|t| t.to_string()).collect();
    let mut paid = 0;
    let mut calls = 0;
    while store.state.is_some() {
        let answer: Vec<&str> = registry.iter().take(limit as usize).map(|t| t.as_str()).collect();
        let res = end(&mut store, &taxed(&answer), Some(limit)).unwrap();
        paid += paid_out(&res.messages);
        registry = registry_after(&registry, &res.messages);
        calls += 1;
        assert!(calls < 100);
    }
    (store, paid, calls)
}

fn sale_with_five_sold(min_tokens_sold: u128) -> (Store, u128) {
    let mut store = new_store();
    mint(&mut store, TOKENS);
    start(&mut store, min_tokens_sold, Some(2));
    let querier = taxed(&[]);
    let mut received = 0;
    for (buyer, n, funds) in [("A", 2, 400), ("B", 1, 150), ("C", 1, 150), ("D", 1, 175)] {
        let res = buy(&mut store, &querier, buyer, n, funds);
        received += funds - paid_out(&res.messages);
    }
    (store, received)
}

#[test]
fn funds_are_conserved_when_the_threshold_is_met() {
    let (store, received) = sale_with_five_sold(3);
    // Five tokens at a price of 100 and a tax of 50.
    assert_eq!(750, received);
    let state = store.state.clone().unwrap();
    assert_eq!(450, state.amount_to_send);

    let (settled, paid, _calls) = settle(store, 2);
    assert!(settled.state.is_none());
    assert_eq!(received, paid);
}

#[test]
fn funds_are_conserved_when_the_threshold_is_missed() {
    let (store, received) = sale_with_five_sold(6);
    assert_eq!(750, received);

    let (settled, paid, _calls) = settle(store, 1);
    assert!(settled.state.is_none());
    assert_eq!(received, paid);
}

#[test]
fn surplus_goes_back_with_the_purchase() {
    let mut store = new_store();
    mint(&mut store, TOKENS);
    start(&mut store, 1, Some(3));

    let res = buy(&mut store, &taxed(&[]), "A", 2, 1_000);
    assert_eq!(vec![send("A", 700)], res.messages);

    let msg = ExecuteMsg::PurchaseByTokenId { token_id: "item5".to_string() };
    let res = execute(&mut store, &taxed(&[]), &env(), &info("A", 151), msg).unwrap();
    assert_eq!(
        Response {
            event: Event::PurchaseByTokenId { token_id: "item5".to_string() },
            messages: vec![send("A", 1)],
        },
        res
    );
}

#[test]
fn no_wallet_goes_over_its_cap() {
    let mut store = new_store();
    mint(&mut store, TOKENS);
    start(&mut store, 1, Some(2));
    let querier = taxed(&[]);

    let res = buy(&mut store, &querier, "A", 5, 1_000);
    assert_eq!(
        Event::Purchase { number_of_tokens_wanted: 2, number_of_tokens_purchased: 2 },
        res.event
    );
    assert_eq!(2, store.purchases.count_of("A"));

    let msg = ExecuteMsg::Purchase { number_of_tokens: Some(1) };
    let res = execute(&mut store, &querier, &env(), &info("A", 1_000), msg);
    assert_eq!(Err(ContractError::PurchaseLimitReached), res);
    let msg = ExecuteMsg::PurchaseByTokenId { token_id: "item6".to_string() };
    let res = execute(&mut store, &querier, &env(), &info("A", 1_000), msg);
    assert_eq!(Err(ContractError::PurchaseLimitReached), res);
    assert_eq!(2, store.purchases.count_of("A"));

    // Once a purchase is settled the wallet has room again.
    let res = end(&mut store, &querier, Some(1)).unwrap();
    assert_eq!(3, res.messages.len());
    assert_eq!(1, store.purchases.count_of("A"));
}

#[test]
fn a_purchase_takes_as_many_as_wanted_and_allowed_and_there_are() {
    let names: Vec<String> = (0..60).map(|i| format!("piece{i:02}")).collect();
    let tokens: Vec<&str> = names.iter().map(|t| t.as_str()).collect();
    let offer = |cap: u32| {
        let mut store = new_store();
        mint(&mut store, &tokens);
        start(&mut store, 1, Some(cap));
        store
    };

    // Sixty on offer, room for sixty, sixty bought.
    let mut store = offer(60);
    let msg = ExecuteMsg::Purchase { number_of_tokens: None };
    let res = execute(&mut store, &taxed(&[]), &env(), &info("A", 9_000), msg).unwrap();
    assert_eq!(
        Event::Purchase { number_of_tokens_wanted: 60, number_of_tokens_purchased: 60 },
        res.event
    );
    assert!(res.messages.is_empty());
    assert_eq!(60, store.purchases.count_of("A"));
    assert!(store.available_tokens.is_empty());
    assert_eq!(0, store.number_of_tokens_available);
    assert_eq!(60, store.state.clone().unwrap().amount_sold);
    assert_eq!(5_400, store.state.clone().unwrap().amount_to_send);

    // The least of what is asked for, what the wallet has room for and what there is.
    for (cap, asked, wanted, bought) in
        [(70, Some(55), 55, 55), (52, Some(55), 52, 52), (99, None, 99, 60), (99, Some(80), 80, 60)]
    {
        let mut store = offer(cap);
        let msg = ExecuteMsg::Purchase { number_of_tokens: asked };
        let res = execute(&mut store, &taxed(&[]), &env(), &info("A", 20_000), msg).unwrap();
        assert_eq!(
            Event::Purchase { number_of_tokens_wanted: wanted, number_of_tokens_purchased: bought },
            res.event
        );
        assert_eq!(vec![send("A", 20_000 - 150 * bought as u128)], res.messages);
        assert_eq!(bought as usize, store.purchases.count_of("A"));
        assert_eq!(60 - bought as usize, store.available_tokens.len());
        let first: Vec<&str> =
            store.purchases.load("A").unwrap().iter().map(|p| p.token_id.as_str()).collect();
        assert_eq!(tokens[..bought as usize], first[..]);
    }
}

#[test]
fn a_settled_sale_stays_settled() {
    let (store, _received) = sale_with_five_sold(3);
    let (mut settled, _paid, _calls) = settle(store, 50);
    let before = settled.clone();

    for limit in [None, Some(0), Some(1), Some(100)] {
        let res = end(&mut settled, &taxed(TOKENS), limit);
        assert_eq!(Err(ContractError::NoOngoingSale), res);
        assert_eq!(before, settled);
    }

    let msg = ExecuteMsg::ClaimRefund {};
    let res = execute(&mut settled, &taxed(TOKENS), &later(), &info("A", 0), msg);
    assert_eq!(Err(ContractError::NoOngoingSale), res);
    assert_eq!(before, settled);

    // Not even funds sent along change the answer.
    let msg = ExecuteMsg::EndSale { limit: None };
    let res = execute(&mut settled, &taxed(TOKENS), &later(), &info("A", 5), msg);
    assert_eq!(Err(ContractError::NoOngoingSale), res);
    assert_eq!(before, settled);
}

/// Settles a sale with one limit for every call, and gives the instructions of all
/// the calls that hand a token over or, where `payments` is set, send coins.
fn handed_out(mut store: Store, limit: u32, payments: bool) -> Vec<Instruction> {
    let mut registry: Vec<String> = TOKENS.iter().map(|t| t.to_string()).collect();
    let mut out = vec![];
    let mut calls = 0;
    while store.state.is_some() {
        let answer: Vec<&str> = registry.iter().take(limit as usize).map(|t| t.as_str()).collect();
        let res = end(&mut store, &taxed(&answer), Some(limit)).unwrap();
        registry = registry_after(&registry, &res.messages);
        for m in res.messages {
            let wanted = match &m {
                Instruction::TransferNft { .. } => !payments,
                Instruction::Send { .. } => payments,
                _ => false,
            };
            if wanted {
                out.push(m);
            }
        }
        calls += 1;
        assert!(calls < 100);
    }
    out
}

#[test]
fn every_batch_size_hands_over_the_same_tokens() {
    let (store, _received) = sale_with_five_sold(3);
    let transfer = |to: &str, token: &str| Instruction::TransferNft {
        contract_addr: "registry".to_string(),
        recipient: to.to_string(),
        token_id: token.to_string(),
    };
    let expected = vec![
        transfer("A", "item0"),
        transfer("A", "item1"),
        transfer("B", "item2"),
        transfer("C", "item3"),
        transfer("D", "item4"),
    ];
    for limit in [1, 2, 3, 100] {
        assert_eq!(expected, handed_out(store.clone(), limit, false));
    }
}

#[test]
fn every_batch_size_pays_the_same_refunds() {
    let (store, _received) = sale_with_five_sold(6);
    let expected = vec![send("A", 300), send("B", 150), send("C", 150), send("D", 150)];
    for limit in [1, 2, 3, 100] {
        assert_eq!(expected, handed_out(store.clone(), limit, true));
        assert!(handed_out(store.clone(), limit, false).is_empty());
    }
}

/// The part of `store` that a settlement step with `limit` reads when the registry
/// names `named`: the first rows of the ledger and the named tokens that are on offer.
fn part_of(store: &Store, limit: usize, named: &[&str]) -> Store {
    let mut part = store.clone();
    part.purchases = Ledger::new();
    for i in 0..store.purchases.len().min(limit) {
        for purchase in store.purchases.row(i) {
            part.purchases.record(purchase.clone());
        }
    }
    part.available_tokens = TokenSet::new();
    for id in named {
        if store.available_tokens.has(id) {
            part.available_tokens.save(id.to_string());
        }
    }
    part
}

#[test]
fn a_settlement_step_reads_the_first_rows_and_the_named_tokens() {
    for min_tokens_sold in [3, 6] {
        let (mut whole, _received) = sale_with_five_sold(min_tokens_sold);
        let mut registry: Vec<String> = TOKENS.iter().map(|t| t.to_string()).collect();
        let mut calls = 0;
        while whole.state.is_some() {
            let named: Vec<&str> = registry.iter().take(2).map(|t| t.as_str()).collect();
            let before = part_of(&whole, 2, &named);
            let rest: Vec<Vec<Purchase>> =
                (before.purchases.len()..whole.purchases.len()).map(|i| whole.purchases.row(i).clone()).collect();
            let offer = whole.available_tokens.keys(None, whole.available_tokens.len());

            let mut part = before.clone();
            let on_part = end(&mut part, &taxed(&named), Some(2));
            let on_whole = end(&mut whole, &taxed(&named), Some(2));
            assert_eq!(on_part, on_whole);

            // The whole store after the step is the store before it with what the
            // step changed in the part.
            let mut put_back = part.clone();
            for row in rest {
                for purchase in row {
                    put_back.purchases.record(purchase);
                }
            }
            for id in offer {
                if !before.available_tokens.has(&id) || part.available_tokens.has(&id) {
                    put_back.available_tokens.save(id);
                }
            }
            assert_eq!(put_back, whole);

            let messages = on_whole.unwrap().messages;
            registry = registry_after(&registry, &messages);
            calls += 1;
            assert!(calls < 100);
        }
    }
}

fn nothing_sold_is_on_offer(store: &Store) -> bool {
    (0..store.purchases.len()).all(|i| {
        store.purchases.row(i).iter().all(|p| !store.available_tokens.has(&p.token_id))
    })
}

#[test]
fn what_is_sold_is_off_the_offer() {
    let mut store = new_store();
    mint(&mut store, TOKENS);
    start(&mut store, 4, Some(3));
    let querier = taxed(&[]);
    assert!(nothing_sold_is_on_offer(&store));

    buy(&mut store, &querier, "B", 2, 1_000);
    assert!(nothing_sold_is_on_offer(&store));
    assert_eq!(5, store.available_tokens.len());

    let msg = ExecuteMsg::PurchaseByTokenId { token_id: "item5".to_string() };
    execute(&mut store, &querier, &env(), &info("A", 1_000), msg).unwrap();
    assert!(nothing_sold_is_on_offer(&store));
    assert!(!store.available_tokens.has("item5"));
    assert_eq!(4, store.available_tokens.len());

    // A token that is sold cannot be bought again.
    let msg = ExecuteMsg::PurchaseByTokenId { token_id: "item5".to_string() };
    let res = execute(&mut store, &querier, &env(), &info("C", 1_000), msg);
    assert_eq!(Err(ContractError::TokenNotAvailable), res);

    // After the sale has missed its threshold, a refund and a settlement step.
    let msg = ExecuteMsg::ClaimRefund {};
    execute(&mut store, &querier, &later(), &info("A", 0), msg).unwrap();
    assert!(nothing_sold_is_on_offer(&store));
    assert_eq!(0, store.purchases.count_of("A"));
    let msg = ExecuteMsg::EndSale { limit: Some(1) };
    execute(&mut store, &taxed(&["item2"]), &later(), &info("anyone", 0), msg).unwrap();
    assert!(nothing_sold_is_on_offer(&store));
}

#[test]
fn batch_size_does_not_matter() {
    for min_tokens_sold in [3, 6] {
        let (store, _received) = sale_with_five_sold(min_tokens_sold);

        let (one_by_one, paid_one, calls_one) = settle(store.clone(), 1);
        let (at_once, paid_all, calls_all) = settle(store.clone(), 100);
        let (by_threes, paid_threes, _calls) = settle(store, 3);

        assert_eq!(one_by_one, at_once);
        assert_eq!(one_by_one, by_threes);
        assert_eq!(paid_one, paid_all);
        assert_eq!(paid_one, paid_threes);
        assert!(calls_all < calls_one);

        assert!(one_by_one.state.is_none());
        assert!(one_by_one.purchases.is_empty());
        assert!(one_by_one.available_tokens.is_empty());
        assert_eq!(0, one_by_one.number_of_tokens_available);
    }
}

#[test]
fn successful_fixed_sale() {
    let mut store = new_store();
    mint(&mut store, &TOKENS[..4]);
    start(&mut store, 1, Some(1));

    let msg = ExecuteMsg::PurchaseByTokenId { token_id: "item0".to_string() };
    let res = execute(&mut store, &untaxed(&[]), &env(), &info("buyer", 100), msg).unwrap();

    assert_eq!(
        Response {
            event: Event::PurchaseByTokenId { token_id: "item0".to_string() },
            messages: vec![],
        },
        res
    );
    assert!(!store.available_tokens.has("item0"));
    assert!(store.available_tokens.has("item1"));
    assert_eq!(3, store.number_of_tokens_available);
    assert_eq!(1, store.state.clone().unwrap().amount_sold);
    assert_eq!(100, store.state.unwrap().amount_to_send);
}

#[test]
fn re_purchase_is_rejected() {
    let mut store = new_store();
    mint(&mut store, &TOKENS[..4]);
    start(&mut store, 1, Some(2));

    let msg = ExecuteMsg::PurchaseByTokenId { token_id: "item0".to_string() };
    execute(&mut store, &untaxed(&[]), &env(), &info("buyer", 100), msg).unwrap();
    let before = store.clone();

    for buyer in ["buyer", "someone else"] {
        let msg = ExecuteMsg::PurchaseByTokenId { token_id: "item0".to_string() };
        let res = execute(&mut store, &untaxed(&[]), &env(), &info(buyer, 100), msg);
        assert_eq!(Err(ContractError::TokenNotAvailable), res);
        assert_eq!(before, store);
    }
}

#[test]
fn threshold_missed() {
    let mut store = new_store();
    mint(&mut store, TOKENS);
    start(&mut store, 5, Some(2));
    let querier = taxed(&[]);
    buy(&mut store, &querier, "A", 2, 300);
    buy(&mut store, &querier, "B", 1, 150);
    assert_eq!(3, store.state.clone().unwrap().amount_sold);

    // Not before the sale is over.
    let msg = ExecuteMsg::EndSale { limit: None };
    let res = execute(&mut store, &querier, &env(), &info("anyone", 0), msg);
    assert_eq!(Err(ContractError::SaleNotEnded), res);

    let res = end(&mut store, &taxed(&TOKENS[..2]), Some(2)).unwrap();
    assert_eq!(Event::IssueRefundsAndBurnTokens, res.event);
    assert_eq!(
        vec![
            send("A", 300),
            send("B", 150),
            Instruction::Burn { contract_addr: "registry".into(), token_id: "item0".into() },
            Instruction::Burn { contract_addr: "registry".into(), token_id: "item1".into() },
        ],
        res.messages
    );
    assert!(store.purchases.is_empty());
    assert!(store.state.is_some());

    // Nobody is refunded twice.
    let res = end(&mut store, &taxed(&TOKENS[2..]), None).unwrap();
    assert_eq!(5, res.messages.len());
    assert_eq!(0, paid_out(&res.messages));
    assert!(store.available_tokens.is_empty());
    assert!(store.state.is_some());

    let res = end(&mut store, &taxed(&[]), None).unwrap();
    assert!(res.messages.is_empty());
    assert!(store.state.is_none());
    assert_eq!(0, store.number_of_tokens_available);
}

#[test]
fn threshold_met_multi_call_settlement() {
    let (mut store, _received) = sale_with_five_sold(3);
    let unsold = taxed(&TOKENS[5..]);

    end(&mut store, &unsold, Some(1)).unwrap();
    end(&mut store, &unsold, Some(2)).unwrap();
    end(&mut store, &unsold, None).unwrap();
    assert!(store.purchases.is_empty());
    for buyer in ["A", "B", "C", "D"] {
        assert!(!store.purchases.has(buyer));
    }
    let state = store.state.clone().unwrap();
    assert_eq!(state.amount_sold, state.amount_transferred);
    assert_eq!(450, state.amount_to_send);

    let res = end(&mut store, &unsold, None).unwrap();
    let payout =
        Instruction::Pay { payee: Recipient::from_string("seller"), funds: vec![Coin::new(450, "uusd")] };
    assert_eq!(payout, res.messages[0]);
    assert_eq!(450, paid_out(&res.messages));
    assert_eq!(0, store.state.clone().unwrap().amount_to_send);

    // The recipient is paid once.
    let res = end(&mut store, &taxed(&[]), None).unwrap();
    assert!(res.messages.is_empty());
    assert!(store.state.is_none());
    let res = end(&mut store, &taxed(&[]), None);
    assert_eq!(Err(ContractError::NoOngoingSale), res);
}

fn one_buyer_holds(count: usize) -> Store {
    let mut store = new_store();
    let state = State {
        end_time: Expiration::AtHeight(1),
        price: Coin::new(100, "uusd"),
        min_tokens_sold: 1,
        max_amount_per_wallet: 10,
        amount_sold: count as u128,
        amount_to_send: 100 * count as u128,
        amount_transferred: 0,
        recipient: Recipient::from_string("seller"),
    };
    store.state = Some(state);
    for token in &TOKENS[..count] {
        store.purchases.record(Purchase {
            token_id: token.to_string(),
            tax_amount: 0,
            msgs: vec![],
            purchaser: "A".to_string(),
        });
    }
    store
}

#[test]
fn a_buyer_whose_purchases_span_the_batch_keeps_the_rest() {
    let mut store = one_buyer_holds(5);

    let res = end(&mut store, &untaxed(&[]), Some(2)).unwrap();
    assert_eq!(2, res.messages.len());
    let left: Vec<&str> =
        store.purchases.load("A").unwrap().iter().map(|p| p.token_id.as_str()).collect();
    assert_eq!(vec!["item2", "item3", "item4"], left);
    assert_eq!(2, store.state.clone().unwrap().amount_transferred);
}

#[test]
fn a_buyer_whose_purchases_end_with_the_batch_leaves_the_ledger() {
    // The batch ends exactly where the purchases of the only buyer end.
    let mut store = one_buyer_holds(3);
    let res = end(&mut store, &untaxed(&[]), Some(3)).unwrap();
    assert_eq!(3, res.messages.len());
    assert!(!store.purchases.has("A"));
    assert!(store.purchases.is_empty());
    assert_eq!(0, store.purchases.len());

    // The batch could take more than there is.
    let mut store = one_buyer_holds(3);
    end(&mut store, &untaxed(&[]), Some(4)).unwrap();
    assert!(store.purchases.is_empty());

    // One purchase, one buyer, any limit.
    let mut store = one_buyer_holds(1);
    end(&mut store, &untaxed(&[]), None).unwrap();
    assert!(store.purchases.is_empty());
    assert_eq!(1, store.state.clone().unwrap().amount_transferred);
}

#[test]
fn a_batch_that_ends_between_two_buyers_keeps_the_second_whole() {
    let mut store = one_buyer_holds(2);
    store.purchases.record(Purchase {
        token_id: "item6".to_string(),
        tax_amount: 0,
        msgs: vec![],
        purchaser: "B".to_string(),
    });
    let mut state = store.state.clone().unwrap();
    state.amount_sold = 3;
    store.state = Some(state);

    end(&mut store, &untaxed(&[]), Some(2)).unwrap();
    assert!(!store.purchases.has("A"));
    assert_eq!(1, store.purchases.count_of("B"));
    assert_eq!(1, store.purchases.len());
}
