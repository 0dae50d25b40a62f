use onboarding_bridge::bridge::OnboardingBridge;
use onboarding_bridge::error::BridgeError;
use soroban_sdk::Env;

struct S {
    env: Env,
    bridge: OnboardingBridge<String>,
    admin: String,
    now: u64,
}

fn abort_on<T>(r: Result<T, BridgeError>) -> T {
    match r {
        Ok(v) => v,
        Err(e) => panic!("{}", e.message()),
    }
}

fn setup(fee_bps: u32, delay: u64) -> S {
    let env = Env::default();
    let mut bridge = OnboardingBridge::new();
    let admin = String::from("GADMIN");
    abort_on(bridge.initialize(admin.clone(), fee_bps, delay));
    S { env, bridge, admin, now: 0 }
}

#[test]
fn test_initialize() {
    let s = setup(30, 0);
    assert_eq!(abort_on(s.bridge.admin()), &s.admin);
    assert_eq!(s.bridge.fee_bps(), 30);
    assert_eq!(s.bridge.version(), 2);
    assert_eq!(s.bridge.timelock_delay(), 0);
    assert!(!s.bridge.is_paused());
}

#[test]
#[should_panic(expected = "already initialized")]
fn test_double_initialize() {
    let mut s = setup(30, 0);
    let a2 = String::from("GSECOND");
    abort_on(s.bridge.initialize(a2, 50, 0));
}

#[test]
fn test_propose_and_read() {
    let mut s = setup(30, 0);
    let label = "set_fee:50";
    let (hash, ready_at) = abort_on(s.bridge.propose_op(&s.env, label, s.now));
    assert!(ready_at >= s.now);
    let op = s.bridge.pending_op(&hash).unwrap();
    assert!(!op.cancelled);
    assert_eq!(op.ready_at, ready_at);
}

#[test]
fn test_cancel_op() {
    let mut s = setup(30, 0);
    let label = "cancel_test";
    let (hash, _) = abort_on(s.bridge.propose_op(&s.env, label, s.now));
    abort_on(s.bridge.cancel_op(&hash));
    assert!(s.bridge.pending_op(&hash).unwrap().cancelled);
}

#[test]
#[should_panic(expected = "already cancelled")]
fn test_cancel_twice_panics() {
    let mut s = setup(30, 0);
    let label = "double_cancel";
    let (hash, _) = abort_on(s.bridge.propose_op(&s.env, label, s.now));
    abort_on(s.bridge.cancel_op(&hash));
    abort_on(s.bridge.cancel_op(&hash));
}

#[test]
#[should_panic(expected = "timelock not elapsed")]
fn test_execute_before_delay() {
    let mut s = setup(30, 604800);
    let label = "fee_op";
    abort_on(s.bridge.propose_set_fee(&s.env, label, s.now));
    abort_on(s.bridge.execute_set_fee(&s.env, 50, label, s.now));
}

#[test]
fn test_execute_after_delay() {
    let mut s = setup(30, 100);
    let label = "fee_op";
    abort_on(s.bridge.propose_set_fee(&s.env, label, s.now));
    s.now = s.now + 200;
    abort_on(s.bridge.execute_set_fee(&s.env, 50, label, s.now));
    assert_eq!(s.bridge.fee_bps(), 50);
}

#[test]
#[should_panic(expected = "op cancelled")]
fn test_execute_cancelled_op() {
    let mut s = setup(30, 0);
    let label = "cancelled_op";
    let (hash, _) = abort_on(s.bridge.propose_set_fee(&s.env, label, s.now));
    abort_on(s.bridge.cancel_op(&hash));
    abort_on(s.bridge.execute_set_fee(&s.env, 50, label, s.now));
}

#[test]
fn test_pause_unpause() {
    let mut s = setup(0, 0);
    abort_on(s.bridge.pause());
    assert!(s.bridge.is_paused());
    abort_on(s.bridge.unpause());
    assert!(!s.bridge.is_paused());
}

#[test]
#[should_panic(expected = "contract is paused")]
fn test_fund_while_paused() {
    let mut s = setup(0, 0);
    abort_on(s.bridge.pause());
    abort_on(s.bridge.fund_c_address(500));
}

#[test]
fn test_fund_tracks_fees() {
    let mut s = setup(100, 0);
    let fee = abort_on(s.bridge.fund_c_address(1000));
    assert_eq!(fee, 10);
    assert_eq!(s.bridge.accumulated_fees(), 10);
}

#[test]
fn test_withdraw_fees() {
    let mut s = setup(100, 0);
    abort_on(s.bridge.fund_c_address(1000));
    let withdrawn = abort_on(s.bridge.withdraw_fees(0));
    assert_eq!(withdrawn, 10);
    assert_eq!(s.bridge.accumulated_fees(), 0);
}
