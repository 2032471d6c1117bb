use chainwatch_indexer::bytes::bytes_to_hex;
use chainwatch_indexer::fields::{Field, FieldValue};
use chainwatch_indexer::indexer::decoder::event_topic;
use chainwatch_indexer::indexer::defi_decoder::{
    decode_defi_logs, decode_defi_logs_with, try_decode_log, DefiEvent, DefiTopics, AAVE_BORROW,
    AAVE_LIQUIDATION_CALL, AAVE_REPAY, AAVE_SUPPLY, COMET_ABSORB_COLLATERAL, COMET_SUPPLY,
    COMET_WITHDRAW, CURVE_TOKEN_EXCHANGE, UNISWAP_V2_SWAP, UNISWAP_V3_SWAP,
};
use chainwatch_indexer::indexer::receipt_fetcher::{
    decode_receipts, throttle_after, ReceiptLogs, RECEIPT_THROTTLE_MS,
};
use chainwatch_indexer::indexer::types::RawLog;

fn word(last: &[u8]) -> Vec<u8> {
    let mut w = vec![0u8; 32 - last.len()];
    w.extend_from_slice(last);
    w
}

fn minus(n: u8) -> Vec<u8> {
    let mut w = vec![0xffu8; 32];
    w[31] = 0u8.wrapping_sub(n);
    w
}

fn addr(b: u8) -> Vec<u8> {
    vec![b; 20]
}

fn addr_word(b: u8) -> Vec<u8> {
    let mut w = vec![0u8; 12];
    w.extend_from_slice(&addr(b));
    w
}

fn log(signature: &str, topics: Vec<Vec<u8>>, words: Vec<Vec<u8>>) -> RawLog {
    let mut all = vec![event_topic(signature)];
    all.extend(topics);
    RawLog {
        address: addr(0xcc),
        topics: all,
        data: words.concat(),
        block_number: Some(1234),
        block_hash: Some(vec![0xbb; 32]),
        transaction_hash: Some(vec![0x11; 32]),
        log_index: Some(5),
    }
}

fn one(l: &RawLog) -> DefiEvent {
    let mut events = decode_defi_logs(std::slice::from_ref(l), 1_700_000_000, 1);
    assert_eq!(events.len(), 1);
    events.pop().unwrap()
}

fn dec(a: &Option<chainwatch_indexer::amount::SignedAmount>) -> Option<String> {
    a.as_ref().map(|v| v.to_decimal())
}

fn text(fields: &[Field], name: &str) -> String {
    for f in fields {
        if f.name == name {
            return match &f.value {
                FieldValue::Text(t) => t.clone(),
                FieldValue::Number(n) => format!("#{}", n.to_decimal()),
                FieldValue::Flag(b) => format!("?{}", b),
            };
        }
    }
    panic!("no field {}", name)
}

fn names(fields: &[Field]) -> Vec<String> {
    fields.iter().map(|f| f.name.clone()).collect()
}

#[test]
fn event_topics_are_the_known_digests() {
    assert_eq!(
        bytes_to_hex(&event_topic(UNISWAP_V2_SWAP)),
        "0xd78ad95fa46c994b6551d0da85fc275fe613ce37657fb8d5e3d130840159d822"
    );
    assert_eq!(
        bytes_to_hex(&event_topic(UNISWAP_V3_SWAP)),
        "0xc42079f94a6350d7e6235f29174924f928cc2ac818eb64fed8004e115fbcca67"
    );
    let t = DefiTopics::canonical();
    assert_eq!(t.univ2_swap, event_topic(UNISWAP_V2_SWAP));
    assert_eq!(t.comet_absorb, event_topic(COMET_ABSORB_COLLATERAL));
    assert_ne!(t.aave_supply, t.comet_supply);
}

#[test]
fn common_columns_come_from_the_log() {
    let e = one(&log(COMET_SUPPLY, vec![addr_word(1), addr_word(2)], vec![word(&[9])]));
    assert_eq!(e.chain_id, 1);
    assert_eq!(e.block_number, 1234);
    assert_eq!(e.tx_hash, vec![0x11; 32]);
    assert_eq!(e.log_index, 5);
    assert_eq!(e.contract_address, addr(0xcc));
    assert_eq!(e.block_timestamp, 1_700_000_000);
    let mut bare = log(COMET_SUPPLY, vec![addr_word(1), addr_word(2)], vec![word(&[9])]);
    bare.block_number = None;
    bare.transaction_hash = None;
    bare.log_index = None;
    let e = one(&bare);
    assert_eq!(e.block_number, 0);
    assert_eq!(e.tx_hash, vec![0u8; 32]);
    assert_eq!(e.log_index, 0);
}

#[test]
fn uniswap_v2_swap_with_first_side_in() {
    let l = log(
        UNISWAP_V2_SWAP,
        vec![addr_word(0xa1), addr_word(0xa2)],
        vec![word(&[100]), word(&[0]), word(&[7]), word(&[250])],
    );
    let e = one(&l);
    assert_eq!(e.protocol, "uniswap_v2");
    assert_eq!(e.event_type, "swap");
    assert_eq!(e.account, Some(addr(0xa1)));
    assert_eq!(e.token_in, None);
    assert_eq!(e.token_out, None);
    assert_eq!(dec(&e.amount_in), Some("100".to_string()));
    assert_eq!(dec(&e.amount_out), Some("250".to_string()));
    let raw = e.raw_data.unwrap();
    assert_eq!(names(&raw), ["sender", "to", "amount0In", "amount1In", "amount0Out", "amount1Out"]);
    assert_eq!(text(&raw, "sender"), format!("0x{}", "a1".repeat(20)));
    assert_eq!(text(&raw, "to"), format!("0x{}", "a2".repeat(20)));
    assert_eq!(text(&raw, "amount0In"), "100");
    assert_eq!(text(&raw, "amount1Out"), "250");
}

#[test]
fn uniswap_v2_swap_with_second_side_in() {
    let l = log(
        UNISWAP_V2_SWAP,
        vec![addr_word(0xa1), addr_word(0xa2)],
        vec![word(&[0]), word(&[1, 0]), word(&[7]), word(&[0])],
    );
    let e = one(&l);
    assert_eq!(dec(&e.amount_in), Some("256".to_string()));
    assert_eq!(dec(&e.amount_out), Some("7".to_string()));
}

#[test]
fn uniswap_v3_swap_positive_side_is_in() {
    let l = log(
        UNISWAP_V3_SWAP,
        vec![addr_word(0xa1), addr_word(0xa2)],
        vec![word(&[200]), minus(150), word(&[1, 0, 0]), word(&[42]), minus(3)],
    );
    let e = one(&l);
    assert_eq!(e.protocol, "uniswap_v3");
    assert_eq!(e.event_type, "swap");
    assert_eq!(e.account, Some(addr(0xa1)));
    assert_eq!(dec(&e.amount_in), Some("200".to_string()));
    assert_eq!(dec(&e.amount_out), Some("150".to_string()));
    let raw = e.raw_data.unwrap();
    assert_eq!(
        names(&raw),
        ["sender", "recipient", "amount0", "amount1", "sqrtPriceX96", "liquidity", "tick"]
    );
    assert_eq!(text(&raw, "amount0"), "200");
    assert_eq!(text(&raw, "amount1"), "-150");
    assert_eq!(text(&raw, "sqrtPriceX96"), "65536");
    assert_eq!(text(&raw, "liquidity"), "42");
    assert_eq!(text(&raw, "tick"), "-3");
}

#[test]
fn uniswap_v3_swap_other_side_is_in() {
    let l = log(
        UNISWAP_V3_SWAP,
        vec![addr_word(0xa1), addr_word(0xa2)],
        vec![minus(9), word(&[30]), word(&[1]), word(&[1]), word(&[3])],
    );
    let e = one(&l);
    assert_eq!(dec(&e.amount_in), Some("30".to_string()));
    assert_eq!(dec(&e.amount_out), Some("9".to_string()));
    assert_eq!(text(&e.raw_data.unwrap(), "tick"), "3");
}

#[test]
fn curve_token_exchange() {
    let l = log(
        CURVE_TOKEN_EXCHANGE,
        vec![addr_word(0xb1)],
        vec![word(&[1]), word(&[50]), word(&[2]), word(&[49])],
    );
    let e = one(&l);
    assert_eq!(e.protocol, "curve");
    assert_eq!(e.event_type, "swap");
    assert_eq!(e.account, Some(addr(0xb1)));
    assert_eq!(dec(&e.amount_in), Some("50".to_string()));
    assert_eq!(dec(&e.amount_out), Some("49".to_string()));
    let raw = e.raw_data.unwrap();
    assert_eq!(names(&raw), ["buyer", "sold_id", "tokens_sold", "bought_id", "tokens_bought"]);
    assert_eq!(text(&raw, "sold_id"), "1");
    assert_eq!(text(&raw, "bought_id"), "2");
}

#[test]
fn aave_supply() {
    let l = log(
        AAVE_SUPPLY,
        vec![addr_word(0xe1), addr_word(0xe2), word(&[0x01, 0x02])],
        vec![addr_word(0xe3), word(&[77])],
    );
    let e = one(&l);
    assert_eq!(e.protocol, "aave_v3");
    assert_eq!(e.event_type, "supply");
    assert_eq!(e.account, Some(addr(0xe2)));
    assert_eq!(e.token_in, Some(addr(0xe1)));
    assert_eq!(e.token_out, None);
    assert_eq!(dec(&e.amount_in), Some("77".to_string()));
    assert_eq!(dec(&e.amount_out), None);
    let raw = e.raw_data.unwrap();
    assert_eq!(names(&raw), ["reserve", "user", "onBehalfOf", "referralCode"]);
    assert_eq!(text(&raw, "user"), format!("0x{}", "e3".repeat(20)));
    assert_eq!(text(&raw, "referralCode"), "#258");
}

#[test]
fn aave_borrow() {
    let l = log(
        AAVE_BORROW,
        vec![addr_word(0xe1), addr_word(0xe2), word(&[0])],
        vec![addr_word(0xe3), word(&[88]), word(&[2]), word(&[1, 1])],
    );
    let e = one(&l);
    assert_eq!(e.event_type, "borrow");
    assert_eq!(e.account, Some(addr(0xe2)));
    assert_eq!(e.token_in, None);
    assert_eq!(e.token_out, Some(addr(0xe1)));
    assert_eq!(dec(&e.amount_in), None);
    assert_eq!(dec(&e.amount_out), Some("88".to_string()));
    let raw = e.raw_data.unwrap();
    assert_eq!(
        names(&raw),
        ["reserve", "user", "onBehalfOf", "interestRateMode", "borrowRate", "referralCode"]
    );
    assert_eq!(text(&raw, "interestRateMode"), "#2");
    assert_eq!(text(&raw, "borrowRate"), "257");
}

#[test]
fn aave_repay() {
    let l = log(
        AAVE_REPAY,
        vec![addr_word(0xe1), addr_word(0xe2), addr_word(0xe4)],
        vec![word(&[66]), word(&[1])],
    );
    let e = one(&l);
    assert_eq!(e.event_type, "repay");
    assert_eq!(e.account, Some(addr(0xe2)));
    assert_eq!(e.token_in, Some(addr(0xe1)));
    assert_eq!(dec(&e.amount_in), Some("66".to_string()));
    assert_eq!(dec(&e.amount_out), None);
    let raw = e.raw_data.unwrap();
    assert_eq!(names(&raw), ["reserve", "user", "repayer", "useATokens"]);
    assert_eq!(text(&raw, "repayer"), format!("0x{}", "e4".repeat(20)));
    assert_eq!(text(&raw, "useATokens"), "?true");
}

#[test]
fn aave_liquidation() {
    let l = log(
        AAVE_LIQUIDATION_CALL,
        vec![addr_word(0xc1), addr_word(0xd1), addr_word(0xe2)],
        vec![word(&[10]), word(&[12]), addr_word(0xf1), word(&[0])],
    );
    let e = one(&l);
    assert_eq!(e.protocol, "aave_v3");
    assert_eq!(e.event_type, "liquidation");
    assert_eq!(e.account, Some(addr(0xe2)));
    assert_eq!(e.token_in, Some(addr(0xd1)));
    assert_eq!(e.token_out, Some(addr(0xc1)));
    assert_eq!(dec(&e.amount_in), Some("10".to_string()));
    assert_eq!(dec(&e.amount_out), Some("12".to_string()));
    let raw = e.raw_data.unwrap();
    assert_eq!(names(&raw), ["collateralAsset", "debtAsset", "user", "liquidator", "receiveAToken"]);
    assert_eq!(text(&raw, "liquidator"), format!("0x{}", "f1".repeat(20)));
    assert_eq!(text(&raw, "receiveAToken"), "?false");
}

#[test]
fn compound_supply_and_withdraw() {
    let e = one(&log(COMET_SUPPLY, vec![addr_word(1), addr_word(2)], vec![word(&[9])]));
    assert_eq!(e.protocol, "compound_v3");
    assert_eq!(e.event_type, "supply");
    assert_eq!(e.account, Some(addr(1)));
    assert_eq!(e.token_in, Some(addr(0xcc)));
    assert_eq!(dec(&e.amount_in), Some("9".to_string()));
    assert_eq!(dec(&e.amount_out), None);
    assert_eq!(names(&e.raw_data.unwrap()), ["from", "dst"]);
    let e = one(&log(COMET_WITHDRAW, vec![addr_word(3), addr_word(4)], vec![word(&[8])]));
    assert_eq!(e.event_type, "withdraw");
    assert_eq!(e.account, Some(addr(3)));
    assert_eq!(e.token_out, Some(addr(0xcc)));
    assert_eq!(e.token_in, None);
    assert_eq!(dec(&e.amount_out), Some("8".to_string()));
    assert_eq!(names(&e.raw_data.unwrap()), ["src", "to"]);
}

#[test]
fn compound_absorb_collateral() {
    let l = log(
        COMET_ABSORB_COLLATERAL,
        vec![addr_word(5), addr_word(6), addr_word(7)],
        vec![word(&[40]), word(&[41])],
    );
    let e = one(&l);
    assert_eq!(e.protocol, "compound_v3");
    assert_eq!(e.event_type, "liquidation");
    assert_eq!(e.account, Some(addr(6)));
    assert_eq!(e.token_out, Some(addr(7)));
    assert_eq!(dec(&e.amount_out), Some("40".to_string()));
    let raw = e.raw_data.unwrap();
    assert_eq!(names(&raw), ["absorber", "borrower", "asset", "usdValue"]);
    assert_eq!(text(&raw, "usdValue"), "41");
}

#[test]
fn unknown_or_malformed_logs_give_nothing() {
    let mut unknown = log(COMET_SUPPLY, vec![addr_word(1), addr_word(2)], vec![word(&[9])]);
    unknown.topics[0] = vec![0x77; 32];
    let mut no_topics = log(COMET_SUPPLY, vec![], vec![word(&[9])]);
    no_topics.topics.clear();
    let short_data = log(UNISWAP_V2_SWAP, vec![addr_word(1), addr_word(2)], vec![word(&[1])]);
    let missing_topic = log(UNISWAP_V2_SWAP, vec![addr_word(1)], vec![word(&[1]); 4]);
    let extra_topic = log(COMET_SUPPLY, vec![addr_word(1), addr_word(2), addr_word(3)], vec![word(&[9])]);
    let mut short_topic = log(COMET_SUPPLY, vec![addr_word(1), addr_word(2)], vec![word(&[9])]);
    short_topic.topics[1].pop();
    let good = log(COMET_SUPPLY, vec![addr_word(1), addr_word(2)], vec![word(&[9])]);
    let logs = vec![unknown, no_topics, short_data, good, missing_topic, extra_topic, short_topic];
    let events = decode_defi_logs(&logs, 10, 1);
    assert_eq!(events.len(), 1);
    assert_eq!(events[0].event_type, "supply");
    let topics = DefiTopics::canonical();
    assert!(try_decode_log(&logs[0], 10, 1, &topics).is_none());
    assert!(try_decode_log(&logs[3], 10, 1, &topics).is_some());
}

#[test]
fn dispatch_goes_by_the_given_topics() {
    let mut topics = DefiTopics::canonical();
    topics.comet_withdraw = vec![0x55; 32];
    let mut l = log(COMET_WITHDRAW, vec![addr_word(3), addr_word(4)], vec![word(&[8])]);
    assert!(decode_defi_logs_with(std::slice::from_ref(&l), 1, 1, &topics).is_empty());
    l.topics[0] = vec![0x55; 32];
    let events = decode_defi_logs_with(std::slice::from_ref(&l), 1, 1, &topics);
    assert_eq!(events.len(), 1);
    assert_eq!(events[0].event_type, "withdraw");
}

#[test]
fn receipts_are_decoded_in_order_and_throttled_between_calls() {
    let receipts = vec![
        ReceiptLogs {
            tx_hash: vec![1; 32],
            logs: vec![
                log(COMET_SUPPLY, vec![addr_word(1), addr_word(2)], vec![word(&[9])]),
                log("Other(uint256)", vec![], vec![word(&[9])]),
            ],
        },
        ReceiptLogs { tx_hash: vec![2; 32], logs: vec![] },
        ReceiptLogs {
            tx_hash: vec![3; 32],
            logs: vec![log(COMET_WITHDRAW, vec![addr_word(3), addr_word(4)], vec![word(&[8])])],
        },
    ];
    let events = decode_receipts(&receipts, 99, 7);
    assert_eq!(events.len(), 2);
    assert_eq!(events[0].event_type, "supply");
    assert_eq!(events[1].event_type, "withdraw");
    assert_eq!(events[1].chain_id, 7);
    assert_eq!(events[1].block_timestamp, 99);
    assert_eq!(RECEIPT_THROTTLE_MS, 50);
    assert!(throttle_after(0, 3) && throttle_after(1, 3));
    assert!(!throttle_after(2, 3) && !throttle_after(0, 1) && !throttle_after(0, 0));
}
