use adaptive_cross_chain::AdaptiveCrossChain;
use adaptive_cross_chain::CrossChainOrder;
use adaptive_cross_chain::OrderStatus;
use adaptive_cross_chain::decode_order;
use adaptive_cross_chain::encode_order;
use adaptive_cross_chain::encode_slippage_payload;
use adaptive_cross_chain::generate_hashlock;
use adaptive_cross_chain::calculate_cross_chain_slippage;
use adaptive_cross_chain::calculate_volatility_score;
use adaptive_cross_chain::estimate_bridge_delay;
use sha2::Digest;

fn sha256_hex(s: &str) -> String {
    let mut hasher = sha2::Sha256::new();
    hasher.update(s.as_bytes());
    hex::encode(hasher.finalize())
}

fn sample_order() -> CrossChainOrder {
    CrossChainOrder {
        order_id: 12,
        maker: "alice.near".to_string(),
        token_in: "near".to_string(),
        token_out: "0xdai".to_string(),
        amount_in: 500_000_000_000_000_000_000_000,
        base_price: 42,
        current_slippage: 100,
        max_slippage_deviation: 50,
        target_chain_id: 1,
        hashlock: sha256_hex("alpha"),
        timelock: 17380,
        secret: None,
        status: OrderStatus::Active,
        created_at: 7,
        last_slippage_update: 7,
        fill_attempts: 0,
    }
}

fn assert_orders_equal(a: &CrossChainOrder, b: &CrossChainOrder) {
    assert_eq!(a.order_id, b.order_id);
    assert_eq!(a.maker, b.maker);
    assert_eq!(a.token_in, b.token_in);
    assert_eq!(a.token_out, b.token_out);
    assert_eq!(a.amount_in, b.amount_in);
    assert_eq!(a.base_price, b.base_price);
    assert_eq!(a.current_slippage, b.current_slippage);
    assert_eq!(a.max_slippage_deviation, b.max_slippage_deviation);
    assert_eq!(a.target_chain_id, b.target_chain_id);
    assert_eq!(a.hashlock, b.hashlock);
    assert_eq!(a.timelock, b.timelock);
    assert_eq!(a.secret, b.secret);
    assert_eq!(a.status, b.status);
    assert_eq!(a.created_at, b.created_at);
    assert_eq!(a.last_slippage_update, b.last_slippage_update);
    assert_eq!(a.fill_attempts, b.fill_attempts);
}

#[test]
fn round_trip_plain_order() {
    let order = sample_order();
    let encoded = encode_order(&order);
    let decoded = decode_order(encoded.as_str()).unwrap();
    assert_orders_equal(&order, &decoded);
}

#[test]
fn round_trip_with_escapes_and_secret() {
    let mut order = sample_order();
    order.maker = "al\"ice\\x".to_string();
    order.token_out = "weird \"token\" \\ name".to_string();
    order.secret = Some("s3cr3t \"quoted\" \\slash".to_string());
    order.status = OrderStatus::Locked;
    order.amount_in = u128::MAX;
    order.fill_attempts = u64::MAX;
    let encoded = encode_order(&order);
    let decoded = decode_order(encoded.as_str()).unwrap();
    assert_orders_equal(&order, &decoded);
}

#[test]
fn round_trip_every_status() {
    for status in [
        OrderStatus::Active,
        OrderStatus::Locked,
        OrderStatus::Completed,
        OrderStatus::Expired,
        OrderStatus::Cancelled,
    ] {
        let mut order = sample_order();
        order.status = status;
        let decoded = decode_order(encode_order(&order).as_str()).unwrap();
        assert_eq!(decoded.status, status);
    }
}

#[test]
fn exact_encoding() {
    let order = CrossChainOrder {
        order_id: 1,
        maker: "a".to_string(),
        token_in: "near".to_string(),
        token_out: "b".to_string(),
        amount_in: 5,
        base_price: 0,
        current_slippage: 100,
        max_slippage_deviation: 50,
        target_chain_id: 1,
        hashlock: "h".to_string(),
        timelock: 10,
        secret: None,
        status: OrderStatus::Active,
        created_at: 2,
        last_slippage_update: 3,
        fill_attempts: 4,
    };
    let expected = "{\"order_id\":1,\"maker\":\"a\",\"token_in\":\"near\",\"token_out\":\"b\",\"amount_in\":5,\"base_price\":0,\"current_slippage\":100,\"max_slippage_deviation\":50,\"target_chain_id\":1,\"hashlock\":\"h\",\"timelock\":10,\"secret\":null,\"status\":\"Active\",\"created_at\":2,\"last_slippage_update\":3,\"fill_attempts\":4}";
    assert_eq!(encode_order(&order), expected);
}

#[test]
fn decode_rejects_malformed_input() {
    assert!(decode_order("").is_none());
    assert!(decode_order("{}").is_none());
    assert!(decode_order("{\"order_id\":x}").is_none());
    let order = sample_order();
    let encoded = encode_order(&order);
    // truncation
    assert!(decode_order(&encoded[..encoded.len() - 1]).is_none());
    // trailing garbage
    let mut trailing = encoded.clone();
    trailing.push('x');
    assert!(decode_order(trailing.as_str()).is_none());
    // an out-of-range status word
    let wrong = encoded.replace("\"Active\"", "\"Pending\"");
    assert!(decode_order(wrong.as_str()).is_none());
}

#[test]
fn decode_rejects_out_of_range_numbers() {
    let order = sample_order();
    let encoded = encode_order(&order);
    let too_big = encoded.replace("\"timelock\":17380", "\"timelock\":18446744073709551616");
    assert!(decode_order(too_big.as_str()).is_none());
    let way_too_big = encoded.replace(
        "\"amount_in\":500000000000000000000000",
        "\"amount_in\":340282366920938463463374607431768211456",
    );
    assert!(decode_order(way_too_big.as_str()).is_none());
}

#[test]
fn engine_create_message_round_trips() {
    let mut engine = AdaptiveCrossChain::new(
        "0xescrow".to_string(),
        "bridge.chain".to_string(),
        "owner".to_string(),
    );
    engine
        .create_cross_chain_order(
            "alice.near".to_string(),
            500_000_000_000_000_000_000_000,
            100,
            7,
            "0xdai".to_string(),
            42,
            50,
            1,
            "alpha".to_string(),
        )
        .unwrap();
    let message = &engine.outbox[0];
    assert_eq!(message.action, "create_order");
    let decoded = decode_order(message.data.as_str()).unwrap();
    let stored = engine.get_order(1).unwrap();
    assert_orders_equal(&stored, &decoded);
}

#[test]
fn slippage_payload_format() {
    assert_eq!(encode_slippage_payload(175), "{\"slippage\":175}");
    assert_eq!(encode_slippage_payload(0), "{\"slippage\":0}");
}

#[test]
fn hashlock_matches_reference_digest() {
    assert_eq!(generate_hashlock("alpha"), sha256_hex("alpha"));
    assert_eq!(
        generate_hashlock(""),
        "e3b0c44298fc1c149afbf4c8996fb92427ae41e4649b934ca495991b7852b855"
    );
    assert_eq!(generate_hashlock("alpha").len(), 64);
    assert_ne!(generate_hashlock("alpha"), generate_hashlock("beta"));
}

#[test]
fn risk_model_figures() {
    assert_eq!(calculate_cross_chain_slippage("near", "t", 1, 1), 100);
    assert_eq!(calculate_cross_chain_slippage("near", "t", 1, 137), 125);
    assert_eq!(calculate_cross_chain_slippage("near", "t", 1, 999), 175);
    let threshold: u128 = 1_000_000_000_000_000_000_000_000;
    assert_eq!(calculate_cross_chain_slippage("near", "t", threshold, 1), 100);
    assert_eq!(
        calculate_cross_chain_slippage("near", "t", threshold + 1, 1),
        150
    );
    assert_eq!(estimate_bridge_delay(1), 900);
    assert_eq!(estimate_bridge_delay(137), 300);
    assert_eq!(estimate_bridge_delay(7), 1800);
    assert_eq!(calculate_volatility_score("anything"), 100);
}
