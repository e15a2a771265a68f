use vstd::prelude::*;

verus! {

/// Errors of the administrative controls of the signal registry.
#[derive(Clone, Copy, Debug, PartialEq, Eq, Structural)]
pub enum AdminError {
    Unauthorized,
    AlreadyInitialized,
    NotInitialized,
    InvalidParameter,
    TradingPaused,
    PauseExpired,
    InvalidFeeRate,
    InvalidRiskParameter,
    InsufficientSignatures,
    DuplicateSigner,
    InvalidAssetPair,
    CannotFollowSelf,
}

#[derive(Clone, Copy, Debug, PartialEq, Eq, Structural)]
pub enum SocialError {
    CannotFollowSelf,
}

#[derive(Clone, Copy, Debug, PartialEq, Eq, Structural)]
pub enum TemplateError {
    TemplateNotFound,
    Unauthorized,
    PrivateTemplate,
    MissingVariable,
    InvalidTemplate,
    InvalidAction,
    InvalidExpiry,
}

/// Errors of provider staking.
#[derive(Clone, Copy, Debug, PartialEq, Eq, Structural)]
pub enum ContractError {
    InvalidStakeAmount,
    NoStakeFound,
    StakeLocked,
    InsufficientStake,
    BelowMinimumStake,
}

/// Errors of signal submission.
#[derive(Clone, Copy, Debug, PartialEq, Eq, Structural)]
pub enum Error {
    NoStake,
    BelowMinimumStake,
    InvalidAssetPair,
    InvalidPrice,
    EmptyRationale,
    DuplicateSignal,
}

/// Errors of automated trading.
#[derive(Clone, Copy, Debug, PartialEq, Eq, Structural)]
pub enum AutoTradeError {
    InvalidAmount,
    Unauthorized,
    SignalNotFound,
    SignalExpired,
    InsufficientBalance,
    InsufficientLiquidity,
    DailyTradeLimitExceeded,
    PositionLimitExceeded,
}

} // verus!
