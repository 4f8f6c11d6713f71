use indy_wallet::freshness::expired;

#[test]
fn zero_freshness_never_expires() {
    assert!(!expired(0, 1_000_000, 0, 0, 0));
}

#[test]
fn an_item_is_fresh_when_created() {
    assert!(!expired(10, 500, 250, 500, 250));
}

#[test]
fn age_is_rounded_toward_zero() {
    // 10.5 s old: 10 whole seconds, not more than 10.
    assert!(!expired(10, 91, 0, 80, 500_000_000));
    // 11 s old.
    assert!(expired(10, 91, 500_000_000, 80, 500_000_000));
    // More than one second past the freshness time is always stale.
    assert!(expired(10, 92, 0, 80, 999_999_999));
}

#[test]
fn items_from_the_future_are_fresh() {
    assert!(!expired(10, 80, 0, 100, 0));
}
