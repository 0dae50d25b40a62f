use onboarding_bridge::bridge::{OnboardingBridge, PendingOperation};
use onboarding_bridge::digest::{make_op_hash, same_hash};
use onboarding_bridge::error::BridgeError;
use soroban_sdk::Env;

fn initialized(fee_bps: u32, delay: u64) -> OnboardingBridge<u64> {
    let mut b = OnboardingBridge::new();
    assert_eq!(b.initialize(1, fee_bps, delay), Ok(()));
    b
}

const ABC_SHA256: [u8; 32] = [
    0xba, 0x78, 0x16, 0xbf, 0x8f, 0x01, 0xcf, 0xea, 0x41, 0x41, 0x40, 0xde, 0x5d, 0xae, 0x22,
    0x23, 0xb0, 0x03, 0x61, 0xa3, 0x96, 0x17, 0x7a, 0x9c, 0xb4, 0x10, 0xff, 0x61, 0xf2, 0x00,
    0x15, 0xad,
];

#[test]
fn test_op_hash_is_sha256_of_label() {
    let env = Env::default();
    assert_eq!(make_op_hash(&env, "abc"), ABC_SHA256);
    assert_eq!(make_op_hash(&env, "fee_op"), make_op_hash(&env, "fee_op"));
    assert_ne!(make_op_hash(&env, "fee_op"), make_op_hash(&env, "fee_op2"));
}

#[test]
fn test_same_hash() {
    let a = [7u8; 32];
    let mut b = [7u8; 32];
    assert!(same_hash(&a, &b));
    b[31] = 8;
    assert!(!same_hash(&a, &b));
}

#[test]
fn test_propose_returns_digest_and_ready_time() {
    let env = Env::default();
    let mut b = initialized(30, 100);
    let (hash, ready_at) = b.propose_op(&env, "abc", 5).unwrap();
    assert_eq!(hash, ABC_SHA256);
    assert_eq!(ready_at, 105);
    let op = b.pending_op(&hash).unwrap();
    assert_eq!(op.op_hash, ABC_SHA256);
    assert_eq!(op.ready_at, 105);
    assert!(!op.cancelled);
}

#[test]
fn test_uninitialized_bridge() {
    let env = Env::default();
    let mut b: OnboardingBridge<u64> = OnboardingBridge::new();
    assert_eq!(b.version(), 0);
    assert_eq!(b.fee_bps(), 0);
    assert_eq!(b.accumulated_fees(), 0);
    assert_eq!(b.timelock_delay(), 0);
    assert!(!b.is_paused());
    assert_eq!(b.admin(), Err(BridgeError::NotInitialized));
    assert_eq!(b.propose_op(&env, "x", 0), Err(BridgeError::NotInitialized));
    assert_eq!(b.propose_set_fee(&env, "x", 0), Err(BridgeError::NotInitialized));
    assert_eq!(b.cancel_op(&[0u8; 32]), Err(BridgeError::NotInitialized));
    assert_eq!(b.execute_set_fee(&env, 5, "x", 0), Err(BridgeError::NotInitialized));
    assert_eq!(b.set_fee(5), Err(BridgeError::NotInitialized));
    assert_eq!(b.pause(), Err(BridgeError::NotInitialized));
    assert_eq!(b.unpause(), Err(BridgeError::NotInitialized));
    assert_eq!(b.withdraw_fees(0), Err(BridgeError::NotInitialized));
    assert_eq!(b.fund_c_address(1000), Ok(0));
    assert_eq!(b.accumulated_fees(), 0);
    assert!(b.is_well_formed());
}

#[test]
fn test_initialize_fee_limit() {
    let mut b: OnboardingBridge<u64> = OnboardingBridge::new();
    assert_eq!(b.initialize(1, 10001, 0), Err(BridgeError::FeeTooHigh));
    assert_eq!(b.version(), 0);
    assert_eq!(b.initialize(1, 10000, 7), Ok(()));
    assert_eq!(b.fee_bps(), 10000);
    assert_eq!(b.timelock_delay(), 7);
    assert_eq!(b.version(), 2);
    assert_eq!(b.admin(), Ok(&1));
}

#[test]
fn test_initialize_only_once() {
    let mut b = initialized(30, 0);
    assert_eq!(b.initialize(2, 40, 9), Err(BridgeError::AlreadyInitialized));
    assert_eq!(b.admin(), Ok(&1));
    assert_eq!(b.fee_bps(), 30);
    assert_eq!(b.timelock_delay(), 0);
}

#[test]
fn test_set_fee() {
    let mut b = initialized(30, 0);
    assert_eq!(b.set_fee(10001), Err(BridgeError::FeeTooHigh));
    assert_eq!(b.fee_bps(), 30);
    assert_eq!(b.set_fee(75), Ok(()));
    assert_eq!(b.fee_bps(), 75);
}

#[test]
fn test_fee_rounds_toward_zero() {
    let mut b = initialized(100, 0);
    assert_eq!(b.fund_c_address(1999), Ok(19));
    assert_eq!(b.accumulated_fees(), 19);
    assert_eq!(b.fund_c_address(-1999), Ok(-19));
    assert_eq!(b.accumulated_fees(), 19);
    assert_eq!(b.fund_c_address(99), Ok(0));
    assert_eq!(b.accumulated_fees(), 19);
}

#[test]
fn test_fee_within_amount() {
    let mut full = initialized(10000, 0);
    assert_eq!(full.fund_c_address(12345), Ok(12345));
    let mut tiny = initialized(1, 0);
    assert_eq!(tiny.fund_c_address(9999), Ok(0));
    assert_eq!(tiny.fund_c_address(10000), Ok(1));
    let mut free = initialized(0, 0);
    assert_eq!(free.fund_c_address(i128::MAX), Ok(0));
}

#[test]
fn test_fund_overflow() {
    let mut b = initialized(2, 0);
    assert_eq!(b.fund_c_address(i128::MAX), Err(BridgeError::ArithmeticOverflow));
    assert_eq!(b.accumulated_fees(), 0);
    let mut full = initialized(100, 0);
    full.accumulated_fees = i128::MAX - 5;
    assert!(full.is_well_formed());
    assert_eq!(full.fund_c_address(1000), Err(BridgeError::ArithmeticOverflow));
    assert_eq!(full.accumulated_fees(), i128::MAX - 5);
    assert_eq!(full.fund_c_address(500), Ok(5));
    assert_eq!(full.accumulated_fees(), i128::MAX);
}

#[test]
fn test_route_from_exchange_is_funding() {
    let mut b = initialized(100, 0);
    assert_eq!(b.route_from_exchange(1000), Ok(10));
    assert_eq!(b.accumulated_fees(), 10);
    assert_eq!(b.pause(), Ok(()));
    assert_eq!(b.route_from_exchange(1000), Err(BridgeError::ContractPaused));
}

#[test]
fn test_withdraw_partial_and_insufficient() {
    let mut b = initialized(100, 0);
    assert_eq!(b.fund_c_address(1000), Ok(10));
    assert_eq!(b.withdraw_fees(11), Err(BridgeError::InsufficientFees));
    assert_eq!(b.accumulated_fees(), 10);
    assert_eq!(b.withdraw_fees(4), Ok(4));
    assert_eq!(b.accumulated_fees(), 6);
    assert_eq!(b.withdraw_fees(0), Ok(6));
    assert_eq!(b.accumulated_fees(), 0);
    assert_eq!(b.withdraw_fees(0), Ok(0));
}

#[test]
fn test_withdraw_negative_amount() {
    let mut b = initialized(100, 0);
    assert_eq!(b.fund_c_address(1000), Ok(10));
    assert_eq!(b.withdraw_fees(-5), Ok(-5));
    assert_eq!(b.accumulated_fees(), 15);
    assert_eq!(b.withdraw_fees(i128::MIN), Err(BridgeError::ArithmeticOverflow));
    assert_eq!(b.accumulated_fees(), 15);
}

#[test]
fn test_fund_then_withdraw_all() {
    let mut b = initialized(250, 0);
    assert_eq!(b.fund_c_address(4000), Ok(100));
    assert_eq!(b.fund_c_address(400), Ok(10));
    assert_eq!(b.withdraw_fees(0), Ok(110));
    assert_eq!(b.accumulated_fees(), 0);
}

#[test]
fn test_pause_blocks_funding_and_unpause_restores() {
    let mut b = initialized(100, 0);
    assert_eq!(b.pause(), Ok(()));
    assert_eq!(b.fund_c_address(1000), Err(BridgeError::ContractPaused));
    assert_eq!(b.accumulated_fees(), 0);
    assert_eq!(b.pause(), Ok(()));
    assert!(b.is_paused());
    assert_eq!(b.unpause(), Ok(()));
    assert!(!b.is_paused());
    assert_eq!(b.fund_c_address(1000), Ok(10));
}

#[test]
fn test_propose_overflow() {
    let env = Env::default();
    let mut b = initialized(0, u64::MAX);
    assert_eq!(b.propose_op(&env, "late", 1), Err(BridgeError::ArithmeticOverflow));
    assert_eq!(b.propose_op(&env, "late", 0), Ok((make_op_hash(&env, "late"), u64::MAX)));
}

#[test]
fn test_unknown_operation() {
    let env = Env::default();
    let mut b = initialized(30, 0);
    assert_eq!(b.cancel_op(&[1u8; 32]), Err(BridgeError::OpNotFound));
    assert_eq!(b.execute_set_fee(&env, 50, "never proposed", 0), Err(BridgeError::OpNotFound));
    assert_eq!(b.check_op_ready(&env, "never proposed", 0), Err(BridgeError::OpNotFound));
    assert!(b.pending_op(&[1u8; 32]).is_none());
}

#[test]
fn test_execute_checks_fee_before_operation() {
    let env = Env::default();
    let mut b = initialized(30, 0);
    assert_eq!(b.execute_set_fee(&env, 10001, "never proposed", 0), Err(BridgeError::FeeTooHigh));
}

#[test]
fn test_ready_exactly_at_ready_time() {
    let env = Env::default();
    let mut b = initialized(30, 100);
    let (_, ready_at) = b.propose_set_fee(&env, "fee_op", 50).unwrap();
    assert_eq!(ready_at, 150);
    assert_eq!(b.execute_set_fee(&env, 60, "fee_op", 149), Err(BridgeError::TimelockNotElapsed));
    assert_eq!(b.fee_bps(), 30);
    assert_eq!(b.execute_set_fee(&env, 60, "fee_op", 150), Ok(()));
    assert_eq!(b.fee_bps(), 60);
    assert_eq!(b.execute_set_fee(&env, 70, "fee_op", 151), Ok(()));
    assert_eq!(b.fee_bps(), 70);
}

#[test]
fn test_cancel_keeps_ready_time_and_blocks() {
    let env = Env::default();
    let mut b = initialized(30, 10);
    let (hash, _) = b.propose_set_fee(&env, "fee_op", 0).unwrap();
    assert_eq!(b.cancel_op(&hash), Ok(()));
    let op = b.pending_op(&hash).unwrap();
    assert!(op.cancelled);
    assert_eq!(op.ready_at, 10);
    assert_eq!(b.cancel_op(&hash), Err(BridgeError::AlreadyCancelled));
    assert_eq!(b.check_op_ready(&env, "fee_op", 100), Err(BridgeError::OpCancelled));
}

#[test]
fn test_repropose_replaces_cancelled() {
    let env = Env::default();
    let mut b = initialized(30, 10);
    let (hash, _) = b.propose_set_fee(&env, "fee_op", 0).unwrap();
    assert_eq!(b.cancel_op(&hash), Ok(()));
    let (hash2, ready_at) = b.propose_set_fee(&env, "fee_op", 20).unwrap();
    assert_eq!(hash, hash2);
    assert_eq!(ready_at, 30);
    assert_eq!(b.pending.len(), 1);
    let op = b.pending_op(&hash).unwrap();
    assert!(!op.cancelled);
    assert_eq!(op.ready_at, 30);
    assert_eq!(b.execute_set_fee(&env, 40, "fee_op", 30), Ok(()));
    assert_eq!(b.fee_bps(), 40);
}

#[test]
fn test_distinct_labels_are_distinct_operations() {
    let env = Env::default();
    let mut b = initialized(30, 0);
    let (h1, _) = b.propose_op(&env, "one", 0).unwrap();
    let (h2, _) = b.propose_op(&env, "two", 0).unwrap();
    assert_eq!(b.cancel_op(&h1), Ok(()));
    assert!(b.pending_op(&h1).unwrap().cancelled);
    assert!(!b.pending_op(&h2).unwrap().cancelled);
    assert_eq!(b.check_op_ready(&env, "two", 0), Ok(()));
}

#[test]
fn test_is_well_formed() {
    let b = initialized(30, 0);
    assert!(b.is_well_formed());
    let mut high = initialized(30, 0);
    high.fee_bps = 10001;
    assert!(!high.is_well_formed());
    let mut negative = initialized(30, 0);
    negative.accumulated_fees = -1;
    assert!(!negative.is_well_formed());
    let mut blank: OnboardingBridge<u64> = OnboardingBridge::new();
    blank.paused = true;
    assert!(!blank.is_well_formed());
    let mut old_version = initialized(30, 0);
    old_version.version = 1;
    assert!(!old_version.is_well_formed());
    let op = PendingOperation { op_hash: [3u8; 32], ready_at: 0, cancelled: false };
    let mut twice = initialized(30, 0);
    twice.pending.push(op);
    assert!(twice.is_well_formed());
    twice.pending.push(op);
    assert!(!twice.is_well_formed());
    let later = PendingOperation { op_hash: [9u8; 32], ready_at: 0, cancelled: false };
    let mut ordered = initialized(30, 0);
    ordered.pending.push(op);
    ordered.pending.push(later);
    assert!(ordered.is_well_formed());
    let mut unordered = initialized(30, 0);
    unordered.pending.push(later);
    unordered.pending.push(op);
    assert!(!unordered.is_well_formed());
    let mut orphan: OnboardingBridge<u64> = OnboardingBridge::new();
    orphan.pending.push(op);
    assert!(!orphan.is_well_formed());
}

#[test]
fn test_error_messages() {
    assert_eq!(BridgeError::AlreadyInitialized.message(), "already initialized");
    assert_eq!(BridgeError::NotInitialized.message(), "not initialized");
    assert_eq!(BridgeError::FeeTooHigh.message(), "fee_bps must be <= 10000");
    assert_eq!(BridgeError::ContractPaused.message(), "contract is paused");
    assert_eq!(BridgeError::OpNotFound.message(), "op not found");
    assert_eq!(BridgeError::OpCancelled.message(), "op cancelled");
    assert_eq!(BridgeError::TimelockNotElapsed.message(), "timelock not elapsed");
    assert_eq!(BridgeError::AlreadyCancelled.message(), "already cancelled");
    assert_eq!(BridgeError::InsufficientFees.message(), "insufficient accumulated fees");
    assert_eq!(BridgeError::ArithmeticOverflow.message(), "arithmetic overflow");
}

#[test]
fn test_pending_operations_stay_ordered() {
    let env = Env::default();
    let mut b = initialized(30, 0);
    let labels = ["delta", "alpha", "echo", "charlie", "bravo", "alpha", "foxtrot"];
    for label in labels.iter() {
        b.propose_op(&env, label, 1).unwrap();
    }
    assert_eq!(b.pending.len(), 6);
    for i in 1..b.pending.len() {
        assert!(b.pending[i - 1].op_hash < b.pending[i].op_hash);
    }
    assert!(b.is_well_formed());
    for label in labels.iter() {
        let hash = make_op_hash(&env, label);
        assert_eq!(b.pending_op(&hash).unwrap().op_hash, hash);
    }
}

#[test]
fn test_initialization_is_permanent() {
    let env = Env::default();
    let mut b = initialized(30, 40);
    let (hash, _) = b.propose_set_fee(&env, "fee_op", 0).unwrap();
    assert_eq!(b.initialize(9, 10, 1), Err(BridgeError::AlreadyInitialized));
    assert_eq!(b.execute_set_fee(&env, 55, "fee_op", 50), Ok(()));
    assert_eq!(b.cancel_op(&hash), Ok(()));
    assert_eq!(b.pause(), Ok(()));
    assert_eq!(b.fund_c_address(100), Err(BridgeError::ContractPaused));
    assert_eq!(b.unpause(), Ok(()));
    assert_eq!(b.fund_c_address(10000), Ok(55));
    assert_eq!(b.withdraw_fees(0), Ok(55));
    assert_eq!(b.set_fee(0), Ok(()));
    assert_eq!(b.admin(), Ok(&1));
    assert_eq!(b.version(), 2);
    assert_eq!(b.timelock_delay(), 40);
}
