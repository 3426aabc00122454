use crowdfund::auction::{AuctionInfo, AuctionStateResponse, TokenAuctionState};
use crowdfund::coin::{clone_coins, deduct_funds, Coin};
use crowdfund::contract::instantiate;
use crowdfund::decimal::{Decimal, DECIMAL_ONE};
use crowdfund::entry::{
    asks_rates, asks_tokens, execute, query_available_tokens, query_config,
    query_is_token_available, query_state, Querier,
};
use crowdfund::error::ContractError;
use crowdfund::expiration::{
    expiration_from_milliseconds, get_and_validate_start_time, BlockInfo, Expiration,
    Milliseconds,
};
use crowdfund::ledger::{Ledger, Purchase};
use crowdfund::merge::{merge_coins, merge_sub_msgs};
use crowdfund::msg::{
    Env, ExecuteMsg, Extension, InstantiateMsg, Instruction, MessageInfo, Recipient,
};
use crowdfund::order::{key_equal, key_less};
use crowdfund::permissioning::Permission;
use crowdfund::primitive::{parse_error, Primitive};
use crowdfund::rates::{get_tax_amount, RatesResponse};
use crowdfund::settlement::process_refund;
use crowdfund::splitter::{validate_recipient_list, AddressPercent};
use crowdfund::state::{get_available_tokens, Config, State, Store};
use crowdfund::text::expiration_text;
use crowdfund::tokens::TokenSet;

fn send(to: &str, amount: u128, denom: &str) -> Instruction {
    Instruction::Send { to_address: to.to_string(), amount: vec![Coin::new(amount, denom)] }
}

fn purchase(token_id: &str, purchaser: &str, tax_amount: u128) -> Purchase {
    Purchase {
        token_id: token_id.to_string(),
        tax_amount,
        msgs: vec![],
        purchaser: purchaser.to_string(),
    }
}

fn token_ids(purchases: &[Purchase]) -> Vec<&str> {
    purchases.iter().map(|p| p.token_id.as_str()).collect()
}

#[test]
fn keys_are_ordered_by_their_bytes() {
    let keys = ["", "A", "B", "a", "ab", "abc", "b", "token1", "token10", "token2", "é", "日本"];
    for a in keys {
        for b in keys {
            assert_eq!(a < b, key_less(a, b), "{a:?} < {b:?}");
            assert_eq!(a == b, key_equal(a, b), "{a:?} == {b:?}");
        }
    }
    assert!(key_less("a", "ab"));
    assert!(!key_less("ab", "a"));
    assert!(!key_less("same", "same"));
}

#[test]
fn deducting_takes_from_the_first_coin_of_the_denomination() {
    let mut coins = vec![Coin::new(5, "uluna"), Coin::new(100, "uusd"), Coin::new(7, "uusd")];
    assert!(deduct_funds(&mut coins, &Coin::new(60, "uusd")));
    assert_eq!(vec![Coin::new(5, "uluna"), Coin::new(40, "uusd"), Coin::new(7, "uusd")], coins);

    // Too little in the first coin of the denomination: nothing changes.
    assert!(!deduct_funds(&mut coins, &Coin::new(41, "uusd")));
    assert!(!deduct_funds(&mut coins, &Coin::new(1, "uatom")));
    assert_eq!(vec![Coin::new(5, "uluna"), Coin::new(40, "uusd"), Coin::new(7, "uusd")], coins);

    assert!(deduct_funds(&mut coins, &Coin::new(40, "uusd")));
    assert_eq!(0, coins[1].amount);
    assert_eq!(coins, clone_coins(&coins));
}

#[test]
fn expiration_is_reached_at_its_height_or_time() {
    let block = BlockInfo { height: 10, time: 1_000 };
    assert!(!Expiration::AtHeight(11).is_expired(&block));
    assert!(Expiration::AtHeight(10).is_expired(&block));
    assert!(Expiration::AtHeight(9).is_expired(&block));
    assert!(!Expiration::AtTime(1_001).is_expired(&block));
    assert!(Expiration::AtTime(1_000).is_expired(&block));
    assert!(Expiration::AtTime(999).is_expired(&block));
    assert!(!Expiration::Never.is_expired(&block));
}

#[test]
fn expirations_compare_within_their_kind() {
    let (h1, h2) = (Expiration::AtHeight(1), Expiration::AtHeight(2));
    let (t1, t2) = (Expiration::AtTime(1), Expiration::AtTime(2));
    let never = Expiration::Never;
    assert!(h2.is_after(&h1));
    assert!(!h1.is_after(&h2));
    assert!(!h1.is_after(&h1));
    assert!(t2.is_after(&t1));
    assert!(!t1.is_after(&t2));
    assert!(never.is_after(&h2));
    assert!(never.is_after(&t2));
    assert!(!never.is_after(&never));
    assert!(!h2.is_after(&never));
    // A height and a time do not compare.
    assert!(!h2.is_after(&t1));
    assert!(!t2.is_after(&h1));
}

#[test]
fn milliseconds_become_nanoseconds() {
    assert_eq!(Ok(Expiration::AtTime(5_000_000)), expiration_from_milliseconds(Milliseconds(5)));
    assert_eq!(Ok(Expiration::AtTime(0)), expiration_from_milliseconds(Milliseconds::zero()));
    let most = u64::MAX / 1_000_000;
    assert_eq!(
        Ok(Expiration::AtTime(most * 1_000_000)),
        expiration_from_milliseconds(Milliseconds(most))
    );
    assert_eq!(
        Err(ContractError::InvalidExpirationTime),
        expiration_from_milliseconds(Milliseconds(most + 1))
    );
    assert_eq!(Milliseconds(1), Milliseconds::from_nanos(1_999_999));
    assert!(Milliseconds(0).is_zero());
    assert_eq!(7, Milliseconds(7).milliseconds());
}

#[test]
fn a_sale_starts_after_the_current_block() {
    let block = BlockInfo { height: 3, time: 10_500_000 };
    // Right after the block where nothing is asked for.
    assert_eq!(
        Ok((Expiration::AtTime(11_000_000), Milliseconds(10))),
        get_and_validate_start_time(&block, None)
    );
    assert_eq!(
        Ok((Expiration::AtTime(11_000_000), Milliseconds(10))),
        get_and_validate_start_time(&block, Some(Milliseconds(11)))
    );
    let in_the_past = ContractError::StartTimeInThePast { current_time: 10, current_block: 3 };
    assert_eq!(Err(in_the_past), get_and_validate_start_time(&block, Some(Milliseconds(10))));
    assert_eq!(
        Err(ContractError::InvalidExpirationTime),
        get_and_validate_start_time(&block, Some(Milliseconds(u64::MAX)))
    );
}

#[test]
fn tokens_are_kept_in_ascending_order() {
    let mut tokens = TokenSet::new();
    assert!(tokens.is_empty());
    for id in ["m", "c", "x", "a", "m", "b"] {
        tokens.save(id.to_string());
    }
    assert_eq!(5, tokens.len());
    assert_eq!(vec!["a", "b", "c", "m", "x"], tokens.keys(None, 10));
    assert_eq!(vec!["a", "b"], tokens.keys(None, 2));
    assert_eq!(vec!["c", "m"], tokens.keys(Some("b"), 2));
    assert_eq!(vec!["c", "m", "x"], tokens.keys(Some("bb"), 10));
    assert!(tokens.keys(Some("x"), 10).is_empty());
    assert!(tokens.keys(None, 0).is_empty());
    assert_eq!(tokens, tokens.copy());

    assert!(tokens.has("m"));
    assert!(tokens.remove("m"));
    assert!(!tokens.has("m"));
    assert!(!tokens.remove("m"));
    assert_eq!(vec!["a", "b", "c", "x"], tokens.keys(None, 10));
}

#[test]
fn a_listing_holds_twenty_tokens_and_never_more_than_fifty() {
    let mut tokens = TokenSet::new();
    for i in 0..60 {
        tokens.save(format!("token{i:02}"));
    }
    assert_eq!(20, get_available_tokens(&tokens, None, None).len());
    assert_eq!(50, get_available_tokens(&tokens, None, Some(100)).len());
    assert_eq!(50, get_available_tokens(&tokens, None, Some(50)).len());
    assert_eq!(vec!["token00", "token01", "token02"], get_available_tokens(&tokens, None, Some(3)));
    assert_eq!(vec!["token58", "token59"], get_available_tokens(&tokens, Some("token57"), None));
    assert!(get_available_tokens(&tokens, None, Some(0)).is_empty());
}

#[test]
fn the_ledger_keeps_buyers_in_order_and_purchases_as_they_came() {
    let mut ledger = Ledger::new();
    assert!(ledger.is_empty());
    ledger.record(purchase("t3", "bob", 1));
    ledger.record(purchase("t1", "alice", 2));
    ledger.record(purchase("t2", "bob", 3));
    ledger.record(purchase("t0", "carol", 4));

    assert_eq!(3, ledger.len());
    assert_eq!(vec!["t1"], token_ids(ledger.row(0)));
    assert_eq!(vec!["t3", "t2"], token_ids(ledger.row(1)));
    assert_eq!(vec!["t3", "t2"], token_ids(ledger.load("bob").unwrap()));
    assert_eq!(None, ledger.load("dave"));
    assert_eq!(2, ledger.count_of("bob"));
    assert_eq!(0, ledger.count_of("dave"));
    assert!(ledger.has("carol"));
    assert!(!ledger.has("dave"));

    // The buyer at the end of a batch goes on where the next purchase is theirs too.
    let (batch, goes_on) = ledger.lookahead(1);
    assert_eq!((vec!["t1"], false), (token_ids(&batch), goes_on));
    let (batch, goes_on) = ledger.lookahead(2);
    assert_eq!((vec!["t1", "t3"], true), (token_ids(&batch), goes_on));
    let (batch, goes_on) = ledger.lookahead(3);
    assert_eq!((vec!["t1", "t3", "t2"], false), (token_ids(&batch), goes_on));
    let (batch, goes_on) = ledger.lookahead(4);
    assert_eq!((vec!["t1", "t3", "t2", "t0"], false), (token_ids(&batch), goes_on));
    let (batch, goes_on) = ledger.lookahead(0);
    assert_eq!((vec![], false), (token_ids(&batch), goes_on));

    assert_eq!(vec!["t1", "t3"], token_ids(&ledger.peek(2)));
    assert_eq!(vec!["t1", "t3", "t2", "t0"], token_ids(&ledger.peek(9)));
    assert!(ledger.peek(0).is_empty());
    assert_eq!(3, ledger.len());

    assert_eq!(vec!["t1", "t3"], token_ids(&ledger.drain(2)));
    assert!(!ledger.has("alice"));
    assert_eq!(vec!["t2"], token_ids(ledger.load("bob").unwrap()));
    assert!(ledger.drain(0).is_empty());

    assert_eq!(vec!["t2"], token_ids(&ledger.remove("bob").unwrap()));
    assert_eq!(None, ledger.remove("bob"));
    assert_eq!(vec!["t0"], token_ids(&ledger.remove("carol").unwrap()));
    assert!(ledger.is_empty());
}

#[test]
fn the_tax_is_what_the_fees_pay_beyond_what_they_take_from_the_price() {
    let msgs = vec![send("artist", 10, "uusd"), send("state", 50, "uusd")];
    assert_eq!(Ok(50), get_tax_amount(&msgs, 100, 90));
    assert_eq!(Ok(0), get_tax_amount(&[].to_vec(), 100, 100));
    assert_eq!(Ok(0), get_tax_amount(&vec![send("artist", 10, "uusd")], 100, 90));
    // What is no payment counts for nothing, and a payment counts by its first coin.
    let mixed = vec![
        Instruction::Burn { contract_addr: "registry".into(), token_id: "t".into() },
        Instruction::Send {
            to_address: "state".into(),
            amount: vec![Coin::new(30, "uusd"), Coin::new(9, "uluna")],
        },
        Instruction::Send { to_address: "nobody".into(), amount: vec![] },
    ];
    assert_eq!(Ok(20), get_tax_amount(&mixed, 100, 90));

    // More is left than the price; the fees pay less than was taken; the fees do not fit.
    assert_eq!(Err(ContractError::Overflow), get_tax_amount(&msgs, 100, 101));
    assert_eq!(Err(ContractError::Overflow), get_tax_amount(&msgs, 100, 39));
    let huge = vec![send("a", u128::MAX, "uusd"), send("b", 1, "uusd")];
    assert_eq!(Err(ContractError::Overflow), get_tax_amount(&huge, 100, 90));
}

#[test]
fn a_refund_is_one_payment_of_prices_and_taxes() {
    let price = Coin::new(100, "uusd");
    let mut ledger = Ledger::new();
    for (token, buyer, tax) in [("t1", "A", 50), ("t3", "B", 0), ("t2", "A", 25)] {
        ledger.record(purchase(token, buyer, tax));
    }
    // The buyer gets one payment for all their purchases, and their row goes.
    assert_eq!(Ok(vec![send("A", 275, "uusd")]), process_refund(&mut ledger, "A", &price));
    assert!(!ledger.has("A"));
    assert_eq!(vec!["t3"], token_ids(ledger.load("B").unwrap()));
    // Nobody is refunded twice, and who bought nothing gets nothing.
    assert_eq!(Ok(vec![]), process_refund(&mut ledger, "A", &price));
    assert_eq!(Ok(vec![]), process_refund(&mut ledger, "C", &price));
    assert_eq!(1, ledger.len());
    // Where nothing was paid, the row goes without a payment.
    assert_eq!(Ok(vec![]), process_refund(&mut ledger, "B", &Coin::new(0, "uusd")));
    assert!(ledger.is_empty());

    // A refund that cannot be paid leaves the ledger as it was.
    ledger.record(purchase("t1", "A", u128::MAX - 99));
    ledger.record(purchase("t2", "A", 0));
    let before = ledger.clone();
    assert_eq!(Err(ContractError::Overflow), process_refund(&mut ledger, "A", &price));
    assert_eq!(before, ledger);
}

#[test]
fn coins_merge_by_denomination() {
    let coins = vec![Coin::new(100, "uusd"), Coin::new(100, "uluna")];
    let more = vec![Coin::new(50, "uluna"), Coin::new(1, "uatom"), Coin::new(2, "uusd")];
    assert_eq!(
        Ok(vec![Coin::new(102, "uusd"), Coin::new(150, "uluna"), Coin::new(1, "uatom")]),
        merge_coins(&coins, &more)
    );
    assert_eq!(Ok(coins.clone()), merge_coins(&coins, &vec![]));
    // Coins that join nothing are taken as they are.
    let twice = vec![Coin::new(1, "uusd"), Coin::new(2, "uusd")];
    assert_eq!(Ok(twice.clone()), merge_coins(&vec![], &twice));
    assert_eq!(
        Err(ContractError::Overflow),
        merge_coins(&vec![Coin::new(u128::MAX, "uusd")], &vec![Coin::new(1, "uusd")])
    );
}

#[test]
fn payments_to_one_address_become_one() {
    let burn = Instruction::Burn { contract_addr: "registry".into(), token_id: "t".into() };
    let call = Instruction::Execute { contract_addr: "c".into(), msg: vec![1, 2], funds: vec![] };
    let msgs = vec![
        send("tax", 50, "uusd"),
        burn.clone(),
        send("artist", 10, "uusd"),
        send("tax", 50, "uusd"),
        call.clone(),
        send("artist", 3, "uluna"),
    ];
    assert_eq!(
        Ok(vec![
            burn,
            call,
            Instruction::Send {
                to_address: "artist".into(),
                amount: vec![Coin::new(10, "uusd"), Coin::new(3, "uluna")],
            },
            send("tax", 100, "uusd"),
        ]),
        merge_sub_msgs(&msgs)
    );
    assert_eq!(Ok(vec![]), merge_sub_msgs(&vec![]));
    let huge = vec![send("tax", u128::MAX, "uusd"), send("tax", 1, "uusd")];
    assert_eq!(Err(ContractError::Overflow), merge_sub_msgs(&huge));
}

fn env_at(height: u64) -> Env {
    Env { block: BlockInfo { height, time: 0 }, contract_address: "contract".to_string() }
}

#[test]
fn permissions_let_in_and_hold_off() {
    let soon = Some(Expiration::AtHeight(10));
    let (before, after) = (env_at(9), env_at(10));

    for strict in [false, true] {
        assert!(!Permission::blacklisted(None).is_permissioned(&before, strict));
        assert!(!Permission::blacklisted(soon).is_permissioned(&before, strict));
        assert!(Permission::blacklisted(soon).is_permissioned(&after, strict));

        assert!(Permission::whitelisted(None).is_permissioned(&after, strict));
        assert!(Permission::whitelisted(soon).is_permissioned(&before, strict));
        assert_eq!(!strict, Permission::whitelisted(soon).is_permissioned(&after, strict));

        assert!(Permission::limited(soon, 1).is_permissioned(&before, strict));
        assert!(Permission::limited(None, 1).is_permissioned(&after, strict));
        assert_eq!(!strict, Permission::limited(soon, 1).is_permissioned(&after, strict));
        assert_eq!(!strict, Permission::limited(soon, 0).is_permissioned(&before, strict));
        assert_eq!(!strict, Permission::limited(None, 0).is_permissioned(&before, strict));
    }
    assert_eq!(Permission::Whitelisted(None), Permission::default());
}

#[test]
fn permissions_expire_when_they_say_and_never_otherwise() {
    let at = Expiration::AtTime(5);
    assert_eq!(at, Permission::blacklisted(Some(at)).get_expiration());
    assert_eq!(at, Permission::whitelisted(Some(at)).get_expiration());
    assert_eq!(at, Permission::limited(Some(at), 3).get_expiration());
    assert_eq!(Expiration::Never, Permission::blacklisted(None).get_expiration());
    assert_eq!(Expiration::Never, Permission::whitelisted(None).get_expiration());
    assert_eq!(Expiration::Never, Permission::limited(None, 3).get_expiration());
}

#[test]
fn uses_of_a_limited_permission_are_spent_one_by_one() {
    let mut permission = Permission::limited(None, 2);
    assert_eq!(Ok(()), permission.consume_use());
    assert_eq!(Permission::limited(None, 1), permission);
    assert_eq!(Ok(()), permission.consume_use());
    assert_eq!(Permission::limited(None, 0), permission);
    assert_eq!(Err(ContractError::Underflow), permission.consume_use());
    assert_eq!(Permission::limited(None, 0), permission);

    let mut permission = Permission::whitelisted(None);
    assert_eq!(Ok(()), permission.consume_use());
    assert_eq!(Permission::whitelisted(None), permission);
    let mut permission = Permission::blacklisted(Some(Expiration::Never));
    assert_eq!(Ok(()), permission.consume_use());
    assert_eq!(Permission::blacklisted(Some(Expiration::Never)), permission);
}

fn outside(e: Expiration) -> cw_utils::Expiration {
    match e {
        Expiration::AtHeight(h) => cw_utils::Expiration::AtHeight(h),
        Expiration::AtTime(t) => cw_utils::Expiration::AtTime(cosmwasm_std::Timestamp::from_nanos(t)),
        Expiration::Never => cw_utils::Expiration::Never {},
    }
}

#[test]
fn expirations_are_written_as_elsewhere() {
    let times = [0, 1, 999_999_999, 1_000_000_000, 1_571_797_419_879_305_533, u64::MAX];
    for t in times {
        for e in [Expiration::AtHeight(t), Expiration::AtTime(t), Expiration::Never] {
            assert_eq!(outside(e).to_string(), expiration_text(&e));
        }
    }
    assert_eq!("expiration height: 12345", expiration_text(&Expiration::AtHeight(12_345)));
    assert_eq!(
        "expiration time: 1571797419.879305533",
        expiration_text(&Expiration::AtTime(1_571_797_419_879_305_533))
    );
    assert_eq!("expiration: never", expiration_text(&Expiration::Never));
}

#[test]
fn expirations_behave_as_elsewhere() {
    let points = [0, 1, 5, 6, u64::MAX];
    for a in points {
        for b in points {
            let block = BlockInfo { height: a, time: b };
            let there = cosmwasm_std::BlockInfo {
                height: a,
                time: cosmwasm_std::Timestamp::from_nanos(b),
                chain_id: String::new(),
            };
            for e in [Expiration::AtHeight(5), Expiration::AtTime(5), Expiration::Never] {
                assert_eq!(outside(e).is_expired(&there), e.is_expired(&block));
            }
            for x in [Expiration::AtHeight(a), Expiration::AtTime(a), Expiration::Never] {
                for y in [Expiration::AtHeight(b), Expiration::AtTime(b), Expiration::Never] {
                    assert_eq!(outside(x) > outside(y), x.is_after(&y));
                }
            }
        }
    }
}

#[test]
fn permissions_are_written_out() {
    let at = Expiration::AtHeight(7);
    assert_eq!("blacklisted", Permission::blacklisted(None).to_text());
    assert_eq!("blacklisted:expiration height: 7", Permission::blacklisted(Some(at)).to_text());
    assert_eq!("whitelisted", Permission::whitelisted(None).to_text());
    assert_eq!("whitelisted:expiration: never", Permission::whitelisted(Some(Expiration::Never)).to_text());
    assert_eq!("limited:12", Permission::limited(None, 12).to_text());
    assert_eq!("limited:expiration height: 7:0", Permission::limited(Some(at), 0).to_text());
    assert_eq!(
        "limited:expiration time: 0.000000005:4294967295",
        Permission::limited(Some(Expiration::AtTime(5)), u32::MAX).to_text()
    );
}

#[test]
fn fractions_are_held_in_their_smallest_parts() {
    assert_eq!(0, Decimal::zero().atomics);
    assert_eq!(DECIMAL_ONE, Decimal::one().atomics);
    for x in [0, 1, 50, 100, 150, u64::MAX] {
        assert_eq!(cosmwasm_std::Decimal::percent(x).atomics().u128(), Decimal::percent(x).atomics);
    }
    assert_eq!(cosmwasm_std::Decimal::one().atomics().u128(), Decimal::one().atomics);
    assert_eq!(Some(Decimal::one()), Decimal::percent(40).checked_add(Decimal::percent(60)));
    assert_eq!(None, Decimal { atomics: u128::MAX }.checked_add(Decimal { atomics: 1 }));
}

#[test]
fn test_parse_error() {
    let error = parse_error("target_type".to_string());
    assert_eq!("target_type", error.target_type);
    assert_eq!("Primitive is not a target_type", error.msg);
}

#[test]
fn try_get_uint128() {
    let primitive = Primitive::Uint128(5);
    assert_eq!(5, primitive.try_get_uint128().unwrap());

    let primitive = Primitive::Bool(true);
    assert_eq!(parse_error("Uint128".to_string()), primitive.try_get_uint128().unwrap_err());
}

#[test]
fn try_get_string() {
    let primitive = Primitive::String("String".to_string());
    assert_eq!("String".to_string(), primitive.try_get_string().unwrap());

    let primitive = Primitive::Bool(true);
    assert_eq!(parse_error("String".to_string()), primitive.try_get_string().unwrap_err());
}

#[test]
fn try_get_bool() {
    let primitive = Primitive::Bool(true);
    assert!(primitive.try_get_bool().unwrap());

    let primitive = Primitive::String("String".to_string());
    assert_eq!(parse_error("bool".to_string()), primitive.try_get_bool().unwrap_err());
}

#[test]
fn try_get_vec() {
    let primitive = Primitive::Vec(vec![Primitive::Bool(true)]);
    assert_eq!(vec![Primitive::Bool(true)], primitive.try_get_vec().unwrap());

    let primitive = Primitive::Vec(vec![Primitive::Vec(vec![Primitive::Bool(true)])]);
    assert_eq!(
        vec![Primitive::Vec(vec![Primitive::Bool(true)])],
        primitive.try_get_vec().unwrap()
    );

    let primitive = Primitive::String("String".to_string());
    assert_eq!(parse_error("Vec".to_string()), primitive.try_get_vec().unwrap_err());
}

#[test]
fn try_get_decimal() {
    let primitive = Primitive::Decimal(Decimal::zero());
    assert_eq!(Decimal::zero(), primitive.try_get_decimal().unwrap());

    let primitive = Primitive::String("String".to_string());
    assert_eq!(parse_error("Decimal".to_string()), primitive.try_get_decimal().unwrap_err());
}

#[test]
fn try_get_binary() {
    let data = b"\"data\"".to_vec();
    let primitive = Primitive::Binary(data.clone());
    assert_eq!(data, primitive.try_get_binary().unwrap());

    let primitive = Primitive::String("String".to_string());
    assert_eq!(parse_error("Binary".to_string()), primitive.try_get_binary().unwrap_err());
}

#[test]
fn try_get_object() {
    let map = vec![("key".to_string(), Primitive::Bool(true))];
    let primitive = Primitive::Object(map.clone());
    assert_eq!(map.clone(), primitive.try_get_object().unwrap());

    let primitive = Primitive::Bool(true);
    assert_eq!(parse_error("Binary".to_string()), primitive.try_get_object().unwrap_err());
}

#[test]
fn try_get_coin_and_addr() {
    let primitive = Primitive::Coin(Coin::new(5, "uusd"));
    assert_eq!(Coin::new(5, "uusd"), primitive.try_get_coin().unwrap());
    assert_eq!(parse_error("Addr".to_string()), primitive.try_get_addr().unwrap_err());

    let primitive = Primitive::Addr("someone".to_string());
    assert_eq!("someone", primitive.try_get_addr().unwrap());
    assert_eq!(parse_error("Coin".to_string()), primitive.try_get_coin().unwrap_err());
    assert_eq!(primitive, primitive.clone());
}

fn share(address: &str, percent: u64) -> AddressPercent {
    AddressPercent::new(Recipient::from_string(address), Decimal::percent(percent))
}

#[test]
fn test_validate_recipient_list() {
    let empty_recipients = vec![];
    let res = validate_recipient_list(&empty_recipients).unwrap_err();
    assert_eq!(res, ContractError::EmptyRecipientsList);

    let inadequate_recipients = vec![share("abc", 150)];
    let res = validate_recipient_list(&inadequate_recipients).unwrap_err();
    assert_eq!(res, ContractError::AmountExceededHundredPrecent);

    let duplicate_recipients = vec![share("abc", 50), share("abc", 50)];

    let err = validate_recipient_list(&duplicate_recipients).unwrap_err();
    assert_eq!(err, ContractError::DuplicateRecipient);

    let valid_recipients = vec![share("abc", 50), share("xyz", 50)];

    let res = validate_recipient_list(&valid_recipients);
    assert!(res.is_ok());

    let one_valid_recipient = vec![share("abc", 50)];

    let res = validate_recipient_list(&one_valid_recipient);
    assert!(res.is_ok());
}

#[test]
fn a_list_of_recipients_fails_at_its_first_fault() {
    let many: Vec<AddressPercent> = (0..101).map(|i| share(&format!("r{i}"), 0)).collect();
    assert_eq!(Err(ContractError::ReachedRecipientLimit), validate_recipient_list(&many));
    assert_eq!(Ok(()), validate_recipient_list(&many[..100].to_vec()));

    // The shares are too large before the name comes twice.
    let list = vec![share("a", 60), share("b", 60), share("a", 0)];
    assert_eq!(Err(ContractError::AmountExceededHundredPrecent), validate_recipient_list(&list));
    // The name comes twice before the shares are too large.
    let list = vec![share("a", 60), share("a", 10), share("b", 60)];
    assert_eq!(Err(ContractError::DuplicateRecipient), validate_recipient_list(&list));
    // The shares do not even fit.
    let all = AddressPercent::new(Recipient::from_string("b"), Decimal { atomics: u128::MAX });
    let list = vec![share("a", 1), all];
    assert_eq!(Err(ContractError::Overflow), validate_recipient_list(&list));
    // A routed recipient is told by its address too.
    let routed = AddressPercent::new(
        Recipient::Routed { address: "a".to_string(), msg: vec![1] },
        Decimal::percent(1),
    );
    assert_eq!(Err(ContractError::DuplicateRecipient), validate_recipient_list(&vec![share("a", 1), routed]));
}

#[test]
fn auctions_of_a_token_are_recorded_oldest_first() {
    let mut info = AuctionInfo::default();
    assert_eq!(None, info.last());
    info.push(3);
    info.push(8);
    assert_eq!(Some(&8), info.last());
    assert_eq!(vec![3, 8], info.auction_ids);
    assert_eq!("", info.token_id);
}

#[test]
fn an_auction_tells_of_itself_what_is_kept_of_it() {
    let state = TokenAuctionState {
        start_time: Expiration::AtTime(1),
        end_time: Expiration::AtTime(2),
        high_bidder_addr: "bidder".to_string(),
        high_bidder_amount: 100,
        coin_denom: "uusd".to_string(),
        auction_id: 7,
        whitelist: Some(vec!["bidder".to_string()]),
        min_bid: Some(5),
        owner: "owner".to_string(),
        token_id: "token".to_string(),
        token_address: "registry".to_string(),
        is_cancelled: true,
        recipient: None,
    };
    let expected = AuctionStateResponse {
        start_time: Expiration::AtTime(1),
        end_time: Expiration::AtTime(2),
        high_bidder_addr: "bidder".to_string(),
        high_bidder_amount: 100,
        auction_id: 7,
        coin_denom: "uusd".to_string(),
        whitelist: Some(vec!["bidder".to_string()]),
        min_bid: Some(5),
        is_cancelled: true,
        owner: "owner".to_string(),
    };
    assert_eq!(expected, AuctionStateResponse::from(state));
}

fn store_with_sale() -> Store {
    let env = env_at(1);
    let info = MessageInfo { sender: "owner".to_string(), funds: vec![] };
    let msg = InstantiateMsg {
        token_address: "registry".to_string(),
        can_mint_after_sale: false,
        owner: None,
    };
    let (mut store, _) = instantiate(&env, &info, msg);
    store.state = Some(State {
        end_time: Expiration::AtHeight(5),
        price: Coin::new(100, "uusd"),
        min_tokens_sold: 1,
        max_amount_per_wallet: 2,
        amount_sold: 0,
        amount_to_send: 0,
        amount_transferred: 0,
        recipient: Recipient::from_string("seller"),
    });
    for id in ["t2", "t1", "t3"] {
        store.available_tokens.save(id.to_string());
    }
    store.number_of_tokens_available = 3;
    store
}

fn free() -> Querier {
    Querier {
        rates: RatesResponse { msgs: vec![], remainder: Coin::new(100, "uusd") },
        tokens: vec![],
        is_registry: true,
    }
}

#[test]
fn questions_are_answered_from_the_store() {
    let store = store_with_sale();
    assert_eq!(store.state, query_state(&store));
    assert_eq!(
        Config { token_address: "registry".to_string(), can_mint_after_sale: false },
        query_config(&store)
    );
    assert_eq!(vec!["t1", "t2", "t3"], query_available_tokens(&store, None, None));
    assert_eq!(vec!["t2"], query_available_tokens(&store, Some("t1".to_string()), Some(1)));
    assert!(query_is_token_available(&store, "t2"));
    assert!(!query_is_token_available(&store, "t4"));
}

#[test]
fn commands_that_take_no_funds_refuse_them() {
    let env = env_at(9);
    let paying = MessageInfo { sender: "owner".to_string(), funds: vec![Coin::new(1, "uusd")] };
    let commands = vec![
        ExecuteMsg::Mint(vec![]),
        ExecuteMsg::StartSale {
            start_time: None,
            end_time: Milliseconds(5),
            price: Coin::new(1, "uusd"),
            min_tokens_sold: 1,
            max_amount_per_wallet: None,
            recipient: Recipient::from_string("seller"),
        },
        ExecuteMsg::ClaimRefund {},
        ExecuteMsg::EndSale { limit: None },
        ExecuteMsg::UpdateTokenContract { address: "other".to_string() },
    ];
    for msg in commands {
        let mut store = store_with_sale();
        let before = store.clone();
        assert_eq!(Err(ContractError::NonPayable), execute(&mut store, &free(), &env, &paying, msg));
        assert_eq!(before, store);
    }
}

#[test]
fn a_sale_needs_a_price_and_times_that_can_be_held() {
    let env = env_at(1);
    let owner = MessageInfo { sender: "owner".to_string(), funds: vec![] };
    let terms = |price: u128, end_time: u64| ExecuteMsg::StartSale {
        start_time: None,
        end_time: Milliseconds(end_time),
        price: Coin::new(price, "uusd"),
        min_tokens_sold: 1,
        max_amount_per_wallet: None,
        recipient: Recipient::from_string("seller"),
    };
    let mut store = store_with_sale();
    store.state = None;
    let before = store.clone();

    let res = execute(&mut store, &free(), &env, &owner, terms(0, 5));
    assert_eq!(Err(ContractError::InvalidZeroAmount), res);
    let res = execute(&mut store, &free(), &env, &owner, terms(1, u64::MAX));
    assert_eq!(Err(ContractError::InvalidExpirationTime), res);
    // The sale would end when it starts.
    let res = execute(&mut store, &free(), &env, &owner, terms(1, 1));
    assert_eq!(Err(ContractError::StartTimeAfterEndTime), res);
    assert_eq!(before, store);

    assert!(execute(&mut store, &free(), &env, &owner, terms(1, 2)).is_ok());
    assert!(store.sale_conducted);
    assert_eq!(Some(1), store.state.as_ref().map(|s| s.max_amount_per_wallet));
    // Nothing can be minted after a sale where the settings say so.
    store.state = None;
    let res = execute(&mut store, &free(), &env, &owner, ExecuteMsg::Mint(vec![]));
    assert_eq!(Err(ContractError::CannotMintAfterSaleConducted), res);
}

#[test]
fn refunds_are_claimed_only_from_a_sale_that_failed() {
    let owner = MessageInfo { sender: "A".to_string(), funds: vec![] };
    let mut store = store_with_sale();
    store.purchases.record(purchase("t0", "A", 5));
    let mut state = store.state.clone().unwrap();
    state.min_tokens_sold = 2;
    state.amount_sold = 1;
    store.state = Some(state.clone());

    let claim = || ExecuteMsg::ClaimRefund {};
    assert_eq!(
        Err(ContractError::SaleNotEnded),
        execute(&mut store, &free(), &env_at(4), &owner, claim())
    );
    let stranger = MessageInfo { sender: "B".to_string(), funds: vec![] };
    assert_eq!(
        Err(ContractError::NoPurchases),
        execute(&mut store, &free(), &env_at(5), &stranger, claim())
    );
    state.amount_sold = 2;
    store.state = Some(state.clone());
    assert_eq!(
        Err(ContractError::MinSalesExceeded),
        execute(&mut store, &free(), &env_at(5), &owner, claim())
    );
    state.amount_sold = 1;
    store.state = Some(state);
    let res = execute(&mut store, &free(), &env_at(5), &owner, claim()).unwrap();
    assert_eq!(vec![send("A", 105, "uusd")], res.messages);
    assert!(store.purchases.is_empty());
    assert_eq!(
        Err(ContractError::NoPurchases),
        execute(&mut store, &free(), &env_at(5), &owner, claim())
    );
}

#[test]
fn amounts_that_leave_their_range_fail_the_call() {
    let buyer = MessageInfo { sender: "A".to_string(), funds: vec![Coin::new(u128::MAX, "uusd")] };
    let mut store = store_with_sale();
    let mut state = store.state.clone().unwrap();
    state.price = Coin::new(u128::MAX, "uusd");
    store.state = Some(state);
    let before = store.clone();
    let msg = ExecuteMsg::Purchase { number_of_tokens: Some(2) };
    let res = execute(&mut store, &free(), &env_at(1), &buyer, msg);
    assert_eq!(Err(ContractError::Overflow), res);
    assert_eq!(before, store);

    // Tokens are counted as sold, but no purchase waits.
    let mut store = store_with_sale();
    let mut state = store.state.clone().unwrap();
    state.amount_sold = 1;
    store.state = Some(state);
    let anyone = MessageInfo { sender: "anyone".to_string(), funds: vec![] };
    let before = store.clone();
    let res = execute(&mut store, &free(), &env_at(5), &anyone, ExecuteMsg::EndSale { limit: None });
    assert_eq!(Err(ContractError::NothingToTransfer), res);
    assert_eq!(before, store);
}

#[test]
fn a_batch_of_refunds_is_paid_whole_or_not_at_all() {
    let mut store = store_with_sale();
    let mut state = store.state.clone().unwrap();
    state.min_tokens_sold = 9;
    store.state = Some(state);
    store.purchases.record(purchase("t7", "A", 5));
    store.purchases.record(purchase("t8", "B", u128::MAX));
    let before = store.clone();
    let anyone = MessageInfo { sender: "anyone".to_string(), funds: vec![] };

    // The second refund of the batch cannot be paid, so the first is not paid either.
    let both = ExecuteMsg::EndSale { limit: Some(2) };
    assert_eq!(Err(ContractError::Overflow), execute(&mut store, &free(), &env_at(5), &anyone, both));
    assert_eq!(before, store);

    let one = ExecuteMsg::EndSale { limit: Some(1) };
    let res = execute(&mut store, &free(), &env_at(5), &anyone, one).unwrap();
    assert_eq!(vec![send("A", 105, "uusd")], res.messages);
    assert!(!store.purchases.has("A"));
    assert!(store.purchases.has("B"));
}

#[test]
fn the_fee_collaborator_is_asked_only_for_a_purchase_that_gets_to_the_fees() {
    let store = store_with_sale();
    let buyer = |amount: u128| MessageInfo {
        sender: "A".to_string(),
        funds: vec![Coin::new(amount, "uusd")],
    };
    let by_number = ExecuteMsg::Purchase { number_of_tokens: Some(2) };
    let by_id = |id: &str| ExecuteMsg::PurchaseByTokenId { token_id: id.to_string() };

    assert!(asks_rates(&store, &env_at(1), &buyer(200), &by_number));
    assert!(asks_rates(&store, &env_at(1), &buyer(100), &by_id("t2")));
    // The funds do not cover the prices; the token is not on offer; the sale is over.
    assert!(!asks_rates(&store, &env_at(1), &buyer(199), &by_number));
    assert!(!asks_rates(&store, &env_at(1), &buyer(100), &by_id("t9")));
    assert!(!asks_rates(&store, &env_at(5), &buyer(200), &by_number));
    // Nothing is left to buy, or the wallet is full.
    let all = ExecuteMsg::Purchase { number_of_tokens: Some(0) };
    assert!(!asks_rates(&store, &env_at(1), &buyer(200), &all));
    let mut full = store_with_sale();
    full.purchases.record(purchase("t7", "A", 0));
    full.purchases.record(purchase("t8", "A", 0));
    assert!(!asks_rates(&full, &env_at(1), &buyer(200), &by_number));
    // No other command reads the answer, and none does without a sale.
    assert!(!asks_rates(&store, &env_at(1), &buyer(200), &ExecuteMsg::ClaimRefund {}));
    let mut none = store_with_sale();
    none.state = None;
    assert!(!asks_rates(&none, &env_at(1), &buyer(200), &by_number));
}

#[test]
fn the_registry_is_asked_only_for_a_step_that_gets_to_releasing() {
    let store = store_with_sale();
    let anyone = MessageInfo { sender: "anyone".to_string(), funds: vec![] };
    let paying = MessageInfo { sender: "anyone".to_string(), funds: vec![Coin::new(1, "uusd")] };
    let end = |limit: Option<u32>| ExecuteMsg::EndSale { limit };

    // As many tokens as the step may release.
    assert_eq!(50, asks_tokens(&store, &env_at(5), &anyone, &end(None)));
    assert_eq!(7, asks_tokens(&store, &env_at(5), &anyone, &end(Some(7))));
    assert_eq!(100, asks_tokens(&store, &env_at(5), &anyone, &end(Some(500))));
    assert_eq!(0, asks_tokens(&store, &env_at(5), &anyone, &end(Some(0))));
    // The sale is not over; funds came with the call; another command; no sale.
    assert_eq!(0, asks_tokens(&store, &env_at(4), &anyone, &end(None)));
    assert_eq!(0, asks_tokens(&store, &env_at(5), &paying, &end(None)));
    assert_eq!(0, asks_tokens(&store, &env_at(5), &anyone, &ExecuteMsg::ClaimRefund {}));
    let mut none = store_with_sale();
    none.state = None;
    assert_eq!(0, asks_tokens(&none, &env_at(5), &anyone, &end(None)));

    // A step that only hands tokens over reads no answer, and comes to the same
    // whatever the answer is.
    let mut sold = store_with_sale();
    sold.purchases.record(purchase("t7", "A", 0));
    if let Some(state) = sold.state.as_mut() {
        state.amount_sold = 1;
    }
    assert_eq!(0, asks_tokens(&sold, &env_at(5), &anyone, &end(None)));
    let mut one = sold.clone();
    let mut other = sold.clone();
    let mut named = free();
    named.tokens = vec!["t1".to_string(), "t2".to_string()];
    let with_none = execute(&mut one, &free(), &env_at(5), &anyone, end(None));
    let with_two = execute(&mut other, &named, &env_at(5), &anyone, end(None));
    assert!(with_none.is_ok());
    assert_eq!(with_none, with_two);
    assert_eq!(one, other);
    // Once every token sold is with its buyer, the step releases.
    assert_eq!(50, asks_tokens(&one, &env_at(5), &anyone, &end(None)));

    // A refund that cannot be paid stops the step before it releases.
    let mut owing = store_with_sale();
    owing.purchases.record(purchase("t7", "A", 1));
    if let Some(state) = owing.state.as_mut() {
        state.price = Coin::new(u128::MAX, "uusd");
    }
    assert_eq!(0, asks_tokens(&owing, &env_at(5), &anyone, &end(None)));
    let res = execute(&mut owing, &free(), &env_at(5), &anyone, end(None));
    assert_eq!(Err(ContractError::Overflow), res);
}

#[test]
fn an_extension_names_its_publisher() {
    let extension = Extension::new("publisher");
    assert_eq!("publisher", extension.publisher());
    assert_eq!(extension, extension.clone());
}
