use adaptive_cross_chain::AdaptiveCrossChain;
use adaptive_cross_chain::OrderError;
use adaptive_cross_chain::OrderStatus;
use adaptive_cross_chain::clamped_slippage;
use sha2::Digest;

const INTERVAL: u64 = 300_000_000_000;
const DEPOSIT_500: u128 = 500_000_000_000_000_000_000_000;
const DEPOSIT_2000: u128 = 2_000_000_000_000_000_000_000_000;

fn sha256_hex(s: &str) -> String {
    let mut hasher = sha2::Sha256::new();
    hasher.update(s.as_bytes());
    hex::encode(hasher.finalize())
}

fn new_engine() -> AdaptiveCrossChain {
    AdaptiveCrossChain::new(
        "0xescrow".to_string(),
        "bridge.chain".to_string(),
        "owner.acct".to_string(),
    )
}

#[test]
fn new_engine_configuration() {
    let engine = new_engine();
    assert_eq!(engine.next_order_id, 1);
    assert_eq!(engine.get_order_count(), 0);
    assert_eq!(engine.slippage_update_interval, INTERVAL);
    assert_eq!(engine.max_slippage_change, 100);
    assert_eq!(engine.fill_attempt_limit, 10);
    assert_eq!(engine.default_timelock_duration, 17280);
    assert_eq!(engine.ethereum_contract, "0xescrow");
    assert_eq!(engine.bridge_contract, "bridge.chain");
    assert_eq!(engine.owner, "owner.acct");
}

#[test]
fn happy_claim_scenario() {
    let mut engine = new_engine();
    let id = engine
        .create_cross_chain_order(
            "alice.near".to_string(),
            DEPOSIT_500,
            100,
            7,
            "0xdai".to_string(),
            42,
            50,
            1,
            "alpha".to_string(),
        )
        .unwrap();
    assert_eq!(id, 1);
    let order = engine.get_order(1).unwrap();
    assert_eq!(order.hashlock, sha256_hex("alpha"));
    assert_eq!(order.current_slippage, 100);
    assert_eq!(order.timelock, 100 + 17280);
    assert_eq!(order.status, OrderStatus::Active);
    assert_eq!(order.amount_in, DEPOSIT_500);
    assert_eq!(order.secret, None);
    assert_eq!(order.fill_attempts, 0);
    assert_eq!(order.created_at, 7);

    engine.lock_order(200, 1).unwrap();
    assert_eq!(engine.get_order(1).unwrap().status, OrderStatus::Locked);

    let paid = engine
        .claim_with_secret(300, sha256_hex("alpha"), "alpha".to_string())
        .unwrap();
    assert_eq!(paid, DEPOSIT_500);
    let done = engine.get_order(1).unwrap();
    assert_eq!(done.status, OrderStatus::Completed);
    assert_eq!(done.fill_attempts, 2);
}

#[test]
fn large_order_premium() {
    let mut engine = new_engine();
    engine
        .create_cross_chain_order(
            "bob.near".to_string(),
            DEPOSIT_2000,
            1,
            0,
            "0xusdc".to_string(),
            1,
            100,
            137,
            "beta".to_string(),
        )
        .unwrap();
    assert_eq!(engine.get_order(1).unwrap().current_slippage, 175);
    // the history opens with one entry recorded at creation
    assert_eq!(engine.slippage_history[0].len(), 1);
    let first = engine.slippage_history[0][0];
    assert_eq!(first.timestamp, 0);
    assert_eq!(first.slippage, 175);
    assert_eq!(first.volatility_score, 0);
    assert_eq!(first.cross_chain_delay, 900);
}

#[test]
fn creation_input_errors() {
    let mut engine = new_engine();
    let r = engine.create_cross_chain_order(
        "a".to_string(),
        0,
        1,
        0,
        "t".to_string(),
        1,
        50,
        1,
        "s".to_string(),
    );
    assert_eq!(r, Err(OrderError::ZeroDeposit));
    let r = engine.create_cross_chain_order(
        "a".to_string(),
        1,
        1,
        0,
        "t".to_string(),
        1,
        10001,
        1,
        "s".to_string(),
    );
    assert_eq!(r, Err(OrderError::InvalidDeviation));
    engine
        .create_cross_chain_order(
            "a".to_string(),
            1,
            1,
            0,
            "t".to_string(),
            1,
            50,
            1,
            "same-secret".to_string(),
        )
        .unwrap();
    let r = engine.create_cross_chain_order(
        "b".to_string(),
        2,
        1,
        0,
        "t".to_string(),
        1,
        50,
        1,
        "same-secret".to_string(),
    );
    assert_eq!(r, Err(OrderError::DuplicateHashlock));
    assert_eq!(engine.get_order_count(), 1);
}

#[test]
fn contiguous_order_ids() {
    let mut engine = new_engine();
    for k in 0..4u64 {
        let id = engine
            .create_cross_chain_order(
                "maker".to_string(),
                10,
                1,
                0,
                "t".to_string(),
                1,
                50,
                1,
                format!("secret-{}", k),
            )
            .unwrap();
        assert_eq!(id, k + 1);
        assert_eq!(engine.get_order(id).unwrap().order_id, id);
    }
    assert_eq!(engine.get_order_count(), 4);
    assert_eq!(engine.next_order_id, 5);
}

#[test]
fn user_order_index() {
    let mut engine = new_engine();
    for (maker, secret) in [("alice", "s1"), ("bob", "s2"), ("alice", "s3")] {
        engine
            .create_cross_chain_order(
                maker.to_string(),
                10,
                1,
                0,
                "t".to_string(),
                1,
                50,
                1,
                secret.to_string(),
            )
            .unwrap();
    }
    assert_eq!(engine.get_user_orders(&"alice".to_string()), vec![1, 3]);
    assert_eq!(engine.get_user_orders(&"bob".to_string()), vec![2]);
    assert_eq!(engine.get_user_orders(&"carol".to_string()), Vec::<u64>::new());
}

#[test]
fn get_order_bounds() {
    let mut engine = new_engine();
    assert!(engine.get_order(0).is_none());
    assert!(engine.get_order(1).is_none());
    engine
        .create_cross_chain_order(
            "a".to_string(),
            5,
            1,
            0,
            "t".to_string(),
            1,
            50,
            1,
            "s".to_string(),
        )
        .unwrap();
    assert!(engine.get_order(1).is_some());
    assert!(engine.get_order(2).is_none());
}

#[test]
fn rate_limit_window() {
    let mut engine = new_engine();
    engine
        .create_cross_chain_order(
            "a".to_string(),
            5,
            1,
            1000,
            "t".to_string(),
            1,
            50,
            1,
            "s".to_string(),
        )
        .unwrap();
    // strictly inside the window: rejected, untouched
    let r = engine.update_order_slippage(1000 + INTERVAL - 1, 1);
    assert_eq!(r, Err(OrderError::TooSoon));
    assert_eq!(engine.get_order(1).unwrap().last_slippage_update, 1000);
    assert_eq!(engine.slippage_history[0].len(), 1);
    // exactly one interval after the previous update: accepted
    engine.update_order_slippage(1000 + INTERVAL, 1).unwrap();
    let order = engine.get_order(1).unwrap();
    assert_eq!(order.last_slippage_update, 1000 + INTERVAL);
    assert_eq!(engine.slippage_history[0].len(), 2);
    // a second update within the window of the first fails and changes nothing
    let r = engine.update_order_slippage(1000 + INTERVAL, 1);
    assert_eq!(r, Err(OrderError::TooSoon));
    assert_eq!(engine.get_order(1).unwrap().last_slippage_update, 1000 + INTERVAL);
    assert_eq!(engine.slippage_history[0].len(), 2);
}

#[test]
fn update_errors() {
    let mut engine = new_engine();
    assert_eq!(engine.update_order_slippage(0, 1), Err(OrderError::UnknownOrder));
    engine
        .create_cross_chain_order(
            "a".to_string(),
            5,
            1,
            0,
            "t".to_string(),
            1,
            50,
            1,
            "s".to_string(),
        )
        .unwrap();
    assert_eq!(engine.update_order_slippage(0, 2), Err(OrderError::UnknownOrder));
    engine.lock_order(2, 1).unwrap();
    assert_eq!(
        engine.update_order_slippage(INTERVAL, 1),
        Err(OrderError::BadState)
    );
}

#[test]
fn adaptive_step_cap() {
    let mut engine = new_engine();
    engine
        .create_cross_chain_order(
            "a".to_string(),
            5,
            1,
            0,
            "t".to_string(),
            1,
            50,
            1,
            "s".to_string(),
        )
        .unwrap();
    // proposal for this order is 100 bp; force a lower current value with a
    // tight deviation limit, so each update may move by at most 30 bp
    engine.orders[0].current_slippage = 10;
    engine.orders[0].max_slippage_deviation = 30;
    engine.update_order_slippage(INTERVAL, 1).unwrap();
    assert_eq!(engine.get_order(1).unwrap().current_slippage, 40);
    engine.update_order_slippage(2 * INTERVAL, 1).unwrap();
    assert_eq!(engine.get_order(1).unwrap().current_slippage, 70);
    engine.update_order_slippage(3 * INTERVAL, 1).unwrap();
    assert_eq!(engine.get_order(1).unwrap().current_slippage, 100);
    // at the proposal, further updates hold steady
    engine.update_order_slippage(4 * INTERVAL, 1).unwrap();
    assert_eq!(engine.get_order(1).unwrap().current_slippage, 100);
    // history recorded every successful update after the initial entry
    assert_eq!(engine.slippage_history[0].len(), 5);
    let last = engine.slippage_history[0][4];
    assert_eq!(last.slippage, 100);
    assert_eq!(last.volatility_score, 100);
    assert_eq!(last.cross_chain_delay, 900);
}

#[test]
fn downward_step_is_clamped() {
    let mut engine = new_engine();
    engine
        .create_cross_chain_order(
            "a".to_string(),
            5,
            1,
            0,
            "t".to_string(),
            1,
            50,
            1,
            "s".to_string(),
        )
        .unwrap();
    engine.orders[0].current_slippage = 10000;
    engine.update_order_slippage(INTERVAL, 1).unwrap();
    assert_eq!(engine.get_order(1).unwrap().current_slippage, 9950);
}

#[test]
fn clamp_saturates_at_zero() {
    assert_eq!(clamped_slippage(10, 0, 50), 0);
    assert_eq!(clamped_slippage(20, 0, 50), 0);
    assert_eq!(clamped_slippage(100, 200, 30), 130);
    assert_eq!(clamped_slippage(130, 200, 30), 160);
    assert_eq!(clamped_slippage(100, 0, 30), 70);
    assert_eq!(clamped_slippage(100, 120, 30), 120);
}

#[test]
fn expiry_preempts_claim() {
    let mut engine = new_engine();
    engine
        .create_cross_chain_order(
            "a".to_string(),
            5,
            100,
            0,
            "t".to_string(),
            1,
            50,
            1,
            "alpha".to_string(),
        )
        .unwrap();
    engine.lock_order(200, 1).unwrap();
    let timelock = engine.get_order(1).unwrap().timelock;
    // at exactly the timelock the claim is expired
    let r = engine.claim_with_secret(timelock, sha256_hex("alpha"), "alpha".to_string());
    assert_eq!(r, Err(OrderError::Expired));
    assert_eq!(engine.get_order(1).unwrap().status, OrderStatus::Locked);
    // a follow-up expiry succeeds and owes the maker the refund
    let refund = engine.expire_order(timelock, 1).unwrap();
    assert_eq!(refund, 5);
    assert_eq!(engine.get_order(1).unwrap().status, OrderStatus::Expired);
    // no transition out of the terminal state
    assert_eq!(engine.expire_order(timelock, 1), Err(OrderError::BadState));
    assert_eq!(
        engine.claim_with_secret(0, sha256_hex("alpha"), "alpha".to_string()),
        Err(OrderError::BadState)
    );
}

#[test]
fn expire_before_timelock_rejected() {
    let mut engine = new_engine();
    engine
        .create_cross_chain_order(
            "a".to_string(),
            5,
            100,
            0,
            "t".to_string(),
            1,
            50,
            1,
            "s".to_string(),
        )
        .unwrap();
    assert_eq!(engine.expire_order(101, 1), Err(OrderError::BadState));
    assert_eq!(engine.expire_order(100, 2), Err(OrderError::UnknownOrder));
    assert_eq!(engine.get_order(1).unwrap().status, OrderStatus::Active);
}

#[test]
fn bad_secret_leaves_state_unchanged() {
    let mut engine = new_engine();
    engine
        .create_cross_chain_order(
            "a".to_string(),
            5,
            100,
            0,
            "t".to_string(),
            1,
            50,
            1,
            "alpha".to_string(),
        )
        .unwrap();
    engine.lock_order(200, 1).unwrap();
    let r = engine.claim_with_secret(300, sha256_hex("alpha"), "wrong".to_string());
    assert_eq!(r, Err(OrderError::InvalidSecret));
    let order = engine.get_order(1).unwrap();
    assert_eq!(order.status, OrderStatus::Locked);
    assert_eq!(order.fill_attempts, 1);
}

#[test]
fn claim_unknown_hashlock() {
    let mut engine = new_engine();
    let r = engine.claim_with_secret(1, sha256_hex("nope"), "nope".to_string());
    assert_eq!(r, Err(OrderError::UnknownOrder));
}

#[test]
fn claim_active_order_rejected() {
    let mut engine = new_engine();
    engine
        .create_cross_chain_order(
            "a".to_string(),
            5,
            100,
            0,
            "t".to_string(),
            1,
            50,
            1,
            "alpha".to_string(),
        )
        .unwrap();
    let r = engine.claim_with_secret(200, sha256_hex("alpha"), "alpha".to_string());
    assert_eq!(r, Err(OrderError::BadState));
}

#[test]
fn claim_attempt_limit() {
    let mut engine = new_engine();
    engine
        .create_cross_chain_order(
            "a".to_string(),
            5,
            100,
            0,
            "t".to_string(),
            1,
            50,
            1,
            "alpha".to_string(),
        )
        .unwrap();
    engine.lock_order(200, 1).unwrap();
    engine.orders[0].fill_attempts = 10;
    let r = engine.claim_with_secret(300, sha256_hex("alpha"), "alpha".to_string());
    assert_eq!(r, Err(OrderError::AttemptLimit));
    assert_eq!(engine.get_order(1).unwrap().status, OrderStatus::Locked);
}

#[test]
fn cancel_paths() {
    let mut engine = new_engine();
    engine
        .create_cross_chain_order(
            "alice".to_string(),
            9,
            100,
            0,
            "t".to_string(),
            1,
            50,
            1,
            "s".to_string(),
        )
        .unwrap();
    assert_eq!(
        engine.cancel_order(&"mallory".to_string(), 200, 1),
        Err(OrderError::NotMaker)
    );
    assert_eq!(
        engine.cancel_order(&"alice".to_string(), 200, 2),
        Err(OrderError::UnknownOrder)
    );
    let refund = engine.cancel_order(&"alice".to_string(), 200, 1).unwrap();
    assert_eq!(refund, 9);
    assert_eq!(engine.get_order(1).unwrap().status, OrderStatus::Cancelled);
    assert_eq!(
        engine.cancel_order(&"alice".to_string(), 200, 1),
        Err(OrderError::BadState)
    );
    let message = engine.outbox.last().unwrap();
    assert_eq!(message.action, "cancel");
    assert_eq!(message.order_id, 1);
}

#[test]
fn lock_paths() {
    let mut engine = new_engine();
    engine
        .create_cross_chain_order(
            "a".to_string(),
            5,
            100,
            0,
            "t".to_string(),
            1,
            50,
            1,
            "s".to_string(),
        )
        .unwrap();
    let timelock = engine.get_order(1).unwrap().timelock;
    assert_eq!(engine.lock_order(200, 2), Err(OrderError::UnknownOrder));
    assert_eq!(engine.lock_order(timelock, 1), Err(OrderError::Expired));
    engine.lock_order(200, 1).unwrap();
    assert_eq!(engine.get_order(1).unwrap().status, OrderStatus::Locked);
    assert_eq!(engine.get_order(1).unwrap().fill_attempts, 1);
    assert_eq!(engine.lock_order(200, 1), Err(OrderError::BadState));
}

#[test]
fn bridge_messages_committed_after_state_changes() {
    let mut engine = new_engine();
    engine
        .create_cross_chain_order(
            "a".to_string(),
            5,
            1,
            0,
            "t".to_string(),
            1,
            50,
            137,
            "s".to_string(),
        )
        .unwrap();
    assert_eq!(engine.outbox.len(), 1);
    assert_eq!(engine.outbox[0].action, "create_order");
    assert_eq!(engine.outbox[0].order_id, 1);
    assert_eq!(engine.outbox[0].target_contract, "0xescrow");
    engine.update_order_slippage(INTERVAL, 1).unwrap();
    assert_eq!(engine.outbox.len(), 2);
    assert_eq!(engine.outbox[1].action, "update_slippage");
    assert_eq!(engine.outbox[1].data, "{\"slippage\":125}");
}
