use onboarding_bridge::token::TestToken;

fn acct(s: &str) -> String {
    String::from(s)
}

#[test]
fn test_token_starts_empty() {
    let t = TestToken::new();
    assert_eq!(t.balance(&acct("GA")), 0);
    assert_eq!(t.decimals(), 7);
    assert_eq!(t.name(), "TestToken");
    assert_eq!(t.symbol(), "TEST");
    assert_eq!(t.allowance(&acct("GA"), &acct("GB")), i128::MAX);
    t.approve(&acct("GA"), &acct("GB"), 5, 10);
    assert_eq!(t.allowance(&acct("GA"), &acct("GB")), i128::MAX);
}

#[test]
fn test_token_mint_credits() {
    let mut t = TestToken::new();
    assert!(t.mint(&acct("GA"), 100));
    assert!(t.mint(&acct("GA"), 50));
    assert!(t.mint(&acct("GB"), 7));
    assert_eq!(t.balance(&acct("GA")), 150);
    assert_eq!(t.balance(&acct("GB")), 7);
    assert_eq!(t.balance(&acct("GC")), 0);
    assert!(!t.mint(&acct("GA"), i128::MAX));
    assert_eq!(t.balance(&acct("GA")), 150);
}

#[test]
fn test_token_transfer_conserves() {
    let mut t = TestToken::new();
    assert!(t.mint(&acct("GA"), 100));
    assert!(t.transfer(&acct("GA"), &acct("GB"), 30));
    assert_eq!(t.balance(&acct("GA")), 70);
    assert_eq!(t.balance(&acct("GB")), 30);
    assert!(t.transfer(&acct("GB"), &acct("GC"), 50));
    assert_eq!(t.balance(&acct("GB")), -20);
    assert_eq!(t.balance(&acct("GC")), 50);
    assert_eq!(t.balance(&acct("GA")), 70);
}

#[test]
fn test_token_self_transfer_credits() {
    let mut t = TestToken::new();
    assert!(t.mint(&acct("GA"), 100));
    assert!(t.transfer(&acct("GA"), &acct("GA"), 30));
    assert_eq!(t.balance(&acct("GA")), 130);
}

#[test]
fn test_token_transfer_overflow() {
    let mut t = TestToken::new();
    assert!(t.mint(&acct("GB"), i128::MAX));
    assert!(!t.transfer(&acct("GA"), &acct("GB"), 1));
    assert_eq!(t.balance(&acct("GA")), 0);
    assert_eq!(t.balance(&acct("GB")), i128::MAX);
    assert!(!t.transfer(&acct("GA"), &acct("GC"), i128::MIN));
    assert_eq!(t.balance(&acct("GA")), 0);
}
