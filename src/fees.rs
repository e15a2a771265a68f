use vstd::prelude::*;

verus! {

/// Trading fee: 10 basis points (0.1%).
pub const FEE_BPS: u32 = 10;

pub const BPS_DENOMINATOR: u32 = 10000;

/// Share of the fee that goes to the platform, in percent; the rest goes to the provider.
pub const PLATFORM_SHARE_PERCENTAGE: u32 = 70;

/// Smallest trade that is accepted, so that the fee is never zero.
pub const MIN_TRADE_AMOUNT: i128 = 1000;

#[derive(Clone, Copy, Debug, PartialEq, Eq, Structural)]
pub enum FeeError {
    TradeTooSmall,
    FeeRoundedToZero,
    ArithmeticOverflow,
    InvalidAmount,
    InvalidProviderAddress,
}

/// How the fee on one trade is split.
#[derive(Clone, Copy, Debug, PartialEq, Eq, Structural)]
pub struct FeeBreakdown {
    pub total_fee: i128,
    pub platform_fee: i128,
    pub provider_fee: i128,
    pub trade_amount_after_fee: i128,
}

/// The fee on a trade: `amount * 10 / 10000`, rounded down.
pub open spec fn fee_of(trade_amount: int) -> int {
    trade_amount * FEE_BPS / BPS_DENOMINATOR as int
}

/// The platform's part of a fee: 70%, rounded down.
pub open spec fn platform_part(fee: int) -> int {
    fee * PLATFORM_SHARE_PERCENTAGE / 100
}

/// Fee and amount left after the fee. Fails with `TradeTooSmall` below the minimum
/// trade and with `ArithmeticOverflow` when `amount * 10` does not fit in `i128`.
pub fn calculate_fee(trade_amount: i128) -> (r: Result<(i128, i128), FeeError>)
    ensures
        trade_amount < MIN_TRADE_AMOUNT ==> r == Err::<(i128, i128), FeeError>(FeeError::TradeTooSmall),
        trade_amount >= MIN_TRADE_AMOUNT && trade_amount * 10 > i128::MAX ==> r == Err::<
            (i128, i128),
            FeeError,
        >(FeeError::ArithmeticOverflow),
        trade_amount >= MIN_TRADE_AMOUNT && trade_amount * 10 <= i128::MAX ==> r == Ok::<
            (i128, i128),
            FeeError,
        >((fee_of(trade_amount as int) as i128, (trade_amount - fee_of(trade_amount as int)) as i128)),
{
    if trade_amount < MIN_TRADE_AMOUNT {
        return Err(FeeError::TradeTooSmall);
    }
    let scaled = match trade_amount.checked_mul(FEE_BPS as i128) {
        Some(v) => v,
        None => return Err(FeeError::ArithmeticOverflow),
    };
    let fee = scaled / (BPS_DENOMINATOR as i128);
    if fee == 0 {
        return Err(FeeError::FeeRoundedToZero);
    }
    Ok((fee, trade_amount - fee))
}

/// The fee on a trade split 70% to the platform and the rest to the provider.
/// Fails as `calculate_fee` does.
pub fn calculate_fee_breakdown(trade_amount: i128) -> (r: Result<FeeBreakdown, FeeError>)
    ensures
        trade_amount < MIN_TRADE_AMOUNT ==> r == Err::<FeeBreakdown, FeeError>(FeeError::TradeTooSmall),
        trade_amount >= MIN_TRADE_AMOUNT && trade_amount * 10 > i128::MAX ==> r == Err::<
            FeeBreakdown,
            FeeError,
        >(FeeError::ArithmeticOverflow),
        trade_amount >= MIN_TRADE_AMOUNT && trade_amount * 10 <= i128::MAX ==> r == Ok::<
            FeeBreakdown,
            FeeError,
        >(
            (FeeBreakdown {
                total_fee: fee_of(trade_amount as int) as i128,
                platform_fee: platform_part(fee_of(trade_amount as int)) as i128,
                provider_fee: (fee_of(trade_amount as int) - platform_part(
                    fee_of(trade_amount as int),
                )) as i128,
                trade_amount_after_fee: (trade_amount - fee_of(trade_amount as int)) as i128,
            }),
        ),
{
    let (total_fee, amount_after_fee) = calculate_fee(trade_amount)?;
    let platform_fee = total_fee * (PLATFORM_SHARE_PERCENTAGE as i128) / 100;
    let provider_fee = total_fee - platform_fee;
    Ok(
        FeeBreakdown {
            total_fee,
            platform_fee,
            provider_fee,
            trade_amount_after_fee: amount_after_fee,
        },
    )
}

/// Accepts a trade of at least the minimum amount.
pub fn validate_trade_amount(trade_amount: i128) -> (r: Result<(), FeeError>)
    ensures
        r is Ok <==> trade_amount >= MIN_TRADE_AMOUNT,
        r is Err ==> r == Err::<(), FeeError>(FeeError::TradeTooSmall),
{
    if trade_amount < MIN_TRADE_AMOUNT {
        return Err(FeeError::TradeTooSmall);
    }
    Ok(())
}

/// The two parts of a fee add up to the whole fee, and neither is negative.
pub proof fn lemma_fee_split_exact(trade_amount: int)
    requires
        trade_amount >= MIN_TRADE_AMOUNT,
    ensures
        platform_part(fee_of(trade_amount)) + (fee_of(trade_amount) - platform_part(
            fee_of(trade_amount),
        )) == fee_of(trade_amount),
        0 <= platform_part(fee_of(trade_amount)) <= fee_of(trade_amount),
        fee_of(trade_amount) >= 1,
{
    let f = fee_of(trade_amount);
    assert(f >= 1) by (nonlinear_arith)
        requires trade_amount >= 1000, f == trade_amount * 10 / 10000;
    assert(0 <= f * 70 / 100 <= f) by (nonlinear_arith)
        requires f >= 1;
}

} // verus!
