use malachite::sync::credit::{Credit, CreditConfig, SyncResult};

#[test]
fn default_credit_config() {
    let c = CreditConfig::default();
    assert_eq!(c.slow_threshold, 500_000_000);
    assert_eq!((c.min_credit, c.max_credit), (-20, 20));
    let credit = Credit::new(c);
    assert_eq!(credit.initial_credit(), 0);
    assert_eq!(credit.config(), c);
}

#[test]
fn initial_credit_is_rounded_midpoint() {
    let mut c = CreditConfig::default();
    c.min_credit = -3;
    c.max_credit = 4;
    assert_eq!(Credit::new(c).initial_credit(), 0);
    c.min_credit = 1;
    c.max_credit = 10;
    assert_eq!(Credit::new(c).initial_credit(), 5);
}

#[test]
fn credit_updates_are_clamped() {
    let credit = Credit::new(CreditConfig::default());
    let mut x = 0;
    credit.update_credit(&mut x, SyncResult::Success(1_000));
    assert_eq!(x, 2);
    credit.update_credit(&mut x, SyncResult::Success(600_000_000));
    assert_eq!(x, 2);
    credit.update_credit(&mut x, SyncResult::Failure);
    // Back to zero, which counts as a fresh peer next time.
    assert_eq!(x, 0);
    let mut y = -19;
    credit.update_credit(&mut y, SyncResult::Timeout);
    assert_eq!(y, -20);
    let mut z = 19;
    credit.update_credit(&mut z, SyncResult::Success(0));
    assert_eq!(z, 20);
    assert!(credit.is_fast(499_999_999));
    assert!(!credit.is_fast(500_000_000));
    assert_eq!(credit.clamp_credit(100), 20);
    assert_eq!(credit.clamp_credit(-100), -20);
    assert_eq!(credit.clamp_credit(3), 3);
}

#[test]
fn score_is_clamped_fraction_of_credit_range() {
    let credit = Credit::new(CreditConfig::default());
    assert_eq!(credit.credit_to_score(0), (20, 40));
    assert_eq!(credit.credit_to_score(-20), (0, 40));
    assert_eq!(credit.credit_to_score(20), (40, 40));
    assert_eq!(credit.credit_to_score(35), (40, 40));
    assert_eq!(credit.credit_to_score(i32::MIN), (0, 40));
    let mut c = CreditConfig::default();
    c.min_credit = i32::MIN;
    c.max_credit = i32::MAX;
    assert_eq!(Credit::new(c).credit_to_score(i32::MAX), (u32::MAX, u32::MAX));
}
