use stellar_swipe::fees::{
    calculate_fee, calculate_fee_breakdown, validate_trade_amount, FeeError, MIN_TRADE_AMOUNT,
};

#[test]
fn test_calculate_fee() {
    let (fee, after_fee) = calculate_fee(1_000_000_000).unwrap();
    assert_eq!(fee, 1_000_000);
    assert_eq!(after_fee, 999_000_000);

    let (fee, after_fee) = calculate_fee(100_000_000).unwrap();
    assert_eq!(fee, 100_000);
    assert_eq!(after_fee, 99_900_000);

    let (fee, after_fee) = calculate_fee(10_000_000).unwrap();
    assert_eq!(fee, 10_000);
    assert_eq!(after_fee, 9_990_000);
}

#[test]
fn test_calculate_fee_breakdown() {
    let breakdown = calculate_fee_breakdown(1_000_000_000).unwrap();

    assert_eq!(breakdown.total_fee, 1_000_000);
    assert_eq!(breakdown.platform_fee, 700_000);
    assert_eq!(breakdown.provider_fee, 300_000);
    assert_eq!(breakdown.trade_amount_after_fee, 999_000_000);
}

#[test]
fn test_fee_split_exact() {
    let breakdown = calculate_fee_breakdown(100_000_000).unwrap();
    assert_eq!(breakdown.platform_fee + breakdown.provider_fee, breakdown.total_fee);
}

#[test]
fn test_minimum_trade_amount() {
    let result = calculate_fee(999);
    assert_eq!(result, Err(FeeError::TradeTooSmall));

    let result = calculate_fee(MIN_TRADE_AMOUNT);
    assert!(result.is_ok());
}

#[test]
fn test_fee_rounds_to_zero() {
    let result = calculate_fee(9999);
    assert!(result.is_ok());
}

#[test]
fn test_validate_trade_amount() {
    assert!(validate_trade_amount(MIN_TRADE_AMOUNT).is_ok());
    assert!(validate_trade_amount(MIN_TRADE_AMOUNT + 1).is_ok());
    assert_eq!(validate_trade_amount(MIN_TRADE_AMOUNT - 1), Err(FeeError::TradeTooSmall));
}

#[test]
fn fee_at_minimum_and_rounding() {
    assert_eq!(calculate_fee(1000), Ok((1, 999)));
    assert_eq!(calculate_fee(9999), Ok((9, 9990)));
}

#[test]
fn fee_overflow_is_reported() {
    assert_eq!(calculate_fee(i128::MAX), Err(FeeError::ArithmeticOverflow));
    assert_eq!(calculate_fee_breakdown(i128::MAX / 5), Err(FeeError::ArithmeticOverflow));
}

#[test]
fn breakdown_of_odd_fee() {
    // fee 33: platform 23, provider 10
    let b = calculate_fee_breakdown(33_000).unwrap();
    assert_eq!(b.total_fee, 33);
    assert_eq!(b.platform_fee, 23);
    assert_eq!(b.provider_fee, 10);
    assert_eq!(b.trade_amount_after_fee, 32_967);
    assert_eq!(calculate_fee_breakdown(10), Err(FeeError::TradeTooSmall));
}
