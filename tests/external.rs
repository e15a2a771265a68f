use stellar_swipe::contract::OracleContract;
use stellar_swipe::external_adapter::fuse_external_prices;
use stellar_swipe::reputation::default_reputation;
use stellar_swipe::types::{ExternalPrice, OracleError, PriceSubmission};

fn obs(oracle: u64, price: i128, timestamp: u64, signature_valid: bool) -> ExternalPrice {
    ExternalPrice { oracle, price, timestamp, round_id: 1, signature_valid }
}

#[test]
fn weighted_average_of_fresh_signed_observations() {
    let prices = vec![obs(1, 100, 1000, true), obs(2, 200, 1000, true), obs(3, 1000, 1000, false)];
    // 100 * 1 + 200 * 3 = 700, over 4
    assert_eq!(fuse_external_prices(&prices, &vec![1, 3, 10], 1100), Ok(175));
}

#[test]
fn stale_and_weightless_observations_are_skipped() {
    let prices = vec![obs(1, 100, 1000, true), obs(2, 500, 600, true), obs(3, 900, 1000, true)];
    // the second is 400 s old, the third has weight 0
    assert_eq!(fuse_external_prices(&prices, &vec![2, 5, 0], 1000), Ok(100));
    // exactly 300 s old is still fresh
    let prices = vec![obs(1, 100, 700, true)];
    assert_eq!(fuse_external_prices(&prices, &vec![1], 1000), Ok(100));
}

#[test]
fn fusion_errors() {
    assert_eq!(fuse_external_prices(&vec![], &vec![], 0), Err(OracleError::InsufficientOracles));
    let prices = vec![obs(1, 100, 0, false)];
    assert_eq!(fuse_external_prices(&prices, &vec![1], 0), Err(OracleError::NoOracleData));
    let prices = vec![obs(1, i128::MAX, 0, true)];
    assert_eq!(fuse_external_prices(&prices, &vec![2], 0), Err(OracleError::Overflow));
    let prices = vec![obs(1, i128::MAX / 2, 0, true), obs(2, i128::MAX / 2 + 2, 0, true)];
    assert_eq!(fuse_external_prices(&prices, &vec![1, 1], 0), Err(OracleError::Overflow));
}

#[test]
fn negative_average_truncates_toward_zero() {
    let prices = vec![obs(1, -7, 0, true)];
    assert_eq!(fuse_external_prices(&prices, &vec![2], 0), Ok(-7));
    let prices = vec![obs(1, -7, 0, true), obs(2, 0, 0, true)];
    assert_eq!(fuse_external_prices(&prices, &vec![1, 1], 0), Ok(-3));
}

#[test]
fn bad_signature_slashes_its_oracle() {
    let mut c = OracleContract::new();
    c.initialize(1).unwrap();
    c.register_oracle(1, 11).unwrap();
    c.register_oracle(1, 12).unwrap();
    let prices = vec![obs(11, 100, 50, true), obs(12, 300, 50, false)];
    assert_eq!(c.process_external_prices(&prices, 60), Ok(100));
    let r = c.get_oracle_reputation(12);
    assert_eq!(r.reputation_score, 20);
    assert_eq!(r.last_slash, 60);
    assert_eq!(c.get_oracle_reputation(11).reputation_score, 50);
}

#[test]
fn failed_fusion_changes_nothing() {
    let mut c = OracleContract::new();
    c.initialize(1).unwrap();
    c.register_oracle(1, 11).unwrap();
    let prices = vec![obs(11, 100, 50, false)];
    assert_eq!(c.process_external_prices(&prices, 60), Err(OracleError::NoOracleData));
    assert_eq!(c.get_oracle_reputation(11).reputation_score, 50);
    assert_eq!(c.get_oracle_reputation(11).last_slash, 0);
}

#[test]
fn restore_checks_the_invariant() {
    let good = OracleContract::restore(
        Some(1),
        vec![11, 12],
        vec![(11, default_reputation())],
        vec![PriceSubmission { oracle: 11, price: 5, timestamp: 0 }],
        None,
    );
    let c = good.unwrap();
    assert_eq!(c.get_admin(), Some(1));
    assert_eq!(c.get_oracles(), vec![11, 12]);
    assert_eq!(c.get_price_submissions().len(), 1);
    assert!(OracleContract::restore(None, vec![11, 11], vec![], vec![], None).is_none());
    let mut bad = default_reputation();
    bad.accurate_submissions = 1;
    assert!(OracleContract::restore(None, vec![], vec![(3, bad)], vec![], None).is_none());
    let sub = PriceSubmission { oracle: 11, price: 0, timestamp: 0 };
    assert!(OracleContract::restore(None, vec![], vec![], vec![sub], None).is_none());
}
