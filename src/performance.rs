use vstd::prelude::*;

use crate::reputation::{div_trunc, trunc_div};

verus! {

pub const BASIS_POINTS_100_PERCENT: i128 = 10000;

/// Returns are never reported below -100%.
pub const MIN_ROI_BPS: i128 = -10000;

#[derive(Clone, Copy, Debug, PartialEq, Eq, Structural)]
pub enum SignalStatus {
    Pending,
    Active,
    Executed,
    Expired,
    /// Average return above 2%.
    Successful,
    /// Average return below -5%, or expired without executions.
    Failed,
}

#[derive(Clone, Copy, Debug, PartialEq, Eq, Structural)]
pub enum SignalAction {
    Buy,
    Sell,
}

/// Track record of a signal provider.
#[derive(Clone, Copy, Debug, PartialEq, Eq, Structural)]
pub struct ProviderPerformance {
    pub total_signals: u32,
    pub successful_signals: u32,
    pub failed_signals: u32,
    pub total_copies: u64,
    /// Successful signals per total, in basis points.
    pub success_rate: u32,
    /// Average return per terminated signal, in basis points.
    pub avg_return: i128,
    pub total_volume: i128,
}

pub type SignalStats = ProviderPerformance;

/// Ordering of signal listings.
#[derive(Clone, Copy, Debug, PartialEq, Eq, Structural)]
pub enum SortOption {
    PerformanceDesc,
    RecencyDesc,
    VolumeDesc,
}

/// Performance figures of one signal.
#[derive(Clone, Copy, Debug, PartialEq, Eq, Structural)]
pub struct SignalPerformanceView {
    pub signal_id: u64,
    pub executions: u32,
    pub total_volume: i128,
    /// In basis points.
    pub average_roi: i128,
    pub status: SignalStatus,
}

#[derive(Clone, Copy, Debug, PartialEq, Eq, Structural)]
pub enum PerformanceError {
    SignalNotFound,
    InvalidPrice,
    DivisionByZero,
    InvalidVolume,
    SignalExpired,
    NoExecutions,
}

/// Price movement in the trade's favour: up for a buy, down for a sell.
pub open spec fn price_gain(entry_price: i128, exit_price: i128, action: SignalAction) -> int {
    match action {
        SignalAction::Buy => exit_price - entry_price,
        SignalAction::Sell => entry_price - exit_price,
    }
}

/// Return in basis points, `gain * 10000 / entry` truncated, floored at -100%.
pub open spec fn roi_of(entry_price: i128, exit_price: i128, action: SignalAction) -> int {
    let roi = trunc_div(price_gain(entry_price, exit_price, action) * 10000, entry_price as int);
    if roi < MIN_ROI_BPS { MIN_ROI_BPS as int } else { roi }
}

/// Return of a trade in basis points (10000 = 100%), never below -100%. The entry
/// price must not be zero, and the gain and its product by 10000 must fit in `i128`.
pub fn calculate_roi(entry_price: i128, exit_price: i128, action: &SignalAction) -> (roi: i128)
    requires
        entry_price != 0,
        i128::MIN <= price_gain(entry_price, exit_price, *action) * 10000 <= i128::MAX,
    ensures
        roi == roi_of(entry_price, exit_price, *action),
{
    let price_diff: i128 = match action {
        SignalAction::Buy => exit_price - entry_price,
        SignalAction::Sell => entry_price - exit_price,
    };
    let scaled = price_diff * BASIS_POINTS_100_PERCENT;
    assert(scaled != i128::MIN) by (nonlinear_arith)
        requires scaled == price_diff * 10000;
    assert(price_diff == price_gain(entry_price, exit_price, *action));
    let roi = div_trunc(scaled, entry_price);
    assert(roi == trunc_div(scaled as int, entry_price as int));
    if roi < MIN_ROI_BPS {
        MIN_ROI_BPS
    } else {
        roi
    }
}

/// A signal reaching a terminal state from a live one.
pub open spec fn is_terminal_transition(old_status: SignalStatus, new_status: SignalStatus) -> bool {
    (old_status == SignalStatus::Active || old_status == SignalStatus::Pending) && (new_status
        == SignalStatus::Successful || new_status == SignalStatus::Failed)
}

/// The provider's record after one of its signals terminated with return `roi` and
/// volume `volume`: one more signal, one more success or failure, the success rate
/// recomputed, `roi` folded into the rolling average (an intermediate that leaves
/// `i128` is dropped) and the volume added.
pub open spec fn after_terminal(p: ProviderPerformance, new_status: SignalStatus, roi: i128, volume: i128) -> ProviderPerformance {
    let n = p.total_signals + 1;
    let successes = if new_status == SignalStatus::Successful {
        p.successful_signals + 1
    } else {
        p.successful_signals as int
    };
    let old_total = if i128::MIN <= p.avg_return * (n - 1) <= i128::MAX {
        p.avg_return * (n - 1)
    } else {
        0
    };
    let new_total = if i128::MIN <= old_total + roi <= i128::MAX {
        old_total + roi
    } else {
        old_total
    };
    ProviderPerformance {
        total_signals: n as u32,
        successful_signals: successes as u32,
        failed_signals: if new_status == SignalStatus::Failed {
            (p.failed_signals + 1) as u32
        } else {
            p.failed_signals
        },
        success_rate: (successes * 10000 / n) as u32,
        avg_return: trunc_div(new_total, n) as i128,
        total_volume: (p.total_volume + volume) as i128,
        ..p
    }
}

/// Updates a provider's record when one of its signals changes status; only a
/// move from Active or Pending to Successful or Failed counts.
pub fn update_provider_performance(
    provider_stats: &mut ProviderPerformance,
    old_status: &SignalStatus,
    new_status: &SignalStatus,
    signal_roi: i128,
    signal_volume: i128,
)
    requires
        is_terminal_transition(*old_status, *new_status) ==> {
            &&& old(provider_stats).total_signals < u32::MAX
            &&& *new_status == SignalStatus::Successful ==> old(provider_stats).successful_signals < u32::MAX
            &&& *new_status == SignalStatus::Failed ==> old(provider_stats).failed_signals < u32::MAX
            &&& i128::MIN <= old(provider_stats).total_volume + signal_volume <= i128::MAX
            &&& old(provider_stats).successful_signals <= old(provider_stats).total_signals
        },
    ensures
        !is_terminal_transition(*old_status, *new_status) ==> *final(provider_stats) == *old(provider_stats),
        is_terminal_transition(*old_status, *new_status) ==> *final(provider_stats) == after_terminal(
            *old(provider_stats),
            *new_status,
            signal_roi,
            signal_volume,
        ),
{
    let terminal = match (old_status, new_status) {
        (SignalStatus::Active, SignalStatus::Successful) => true,
        (SignalStatus::Active, SignalStatus::Failed) => true,
        (SignalStatus::Pending, SignalStatus::Successful) => true,
        (SignalStatus::Pending, SignalStatus::Failed) => true,
        _ => false,
    };
    if !terminal {
        return;
    }
    provider_stats.total_signals = provider_stats.total_signals + 1;
    match new_status {
        SignalStatus::Successful => {
            provider_stats.successful_signals = provider_stats.successful_signals + 1;
        },
        SignalStatus::Failed => {
            provider_stats.failed_signals = provider_stats.failed_signals + 1;
        },
        _ => {},
    }
    let n = provider_stats.total_signals as i128;
    let s = provider_stats.successful_signals as i128;
    assert(s * 10000 <= n * 10000) by (nonlinear_arith)
        requires s <= n;
    assert(n * 10000 <= 0xffff_ffff * 10000) by (nonlinear_arith)
        requires n <= 0xffff_ffff;
    provider_stats.success_rate = (s * BASIS_POINTS_100_PERCENT / n) as u32;
    let old_total = match provider_stats.avg_return.checked_mul(n - 1) {
        Some(v) => v,
        None => 0,
    };
    let new_total = match old_total.checked_add(signal_roi) {
        Some(v) => v,
        None => old_total,
    };
    provider_stats.avg_return = new_total / n;
    provider_stats.total_volume = provider_stats.total_volume + signal_volume;
}

/// A status change that should update the provider's record: a real change into
/// Successful or Failed.
pub fn should_update_provider_stats(old_status: &SignalStatus, new_status: &SignalStatus) -> (r: bool)
    ensures
        r == (*old_status != *new_status && (*new_status == SignalStatus::Successful || *new_status
            == SignalStatus::Failed)),
{
    *old_status != *new_status && (*new_status == SignalStatus::Successful
        || *new_status == SignalStatus::Failed)
}

} // verus!

verus! {

/// Average return above this (2%) makes a signal successful.
pub const SUCCESS_THRESHOLD_BPS: i128 = 200;

/// Average return below this (-5%) makes a signal failed.
pub const FAILURE_THRESHOLD_BPS: i128 = -500;

/// A trade idea and the running totals of its executions.
#[derive(Clone, Debug)]
pub struct Signal {
    pub id: u64,
    pub provider: u64,
    /// For example `XLM/USDC`.
    pub asset_pair: Vec<u8>,
    pub action: SignalAction,
    pub price: i128,
    pub rationale: Vec<u8>,
    pub timestamp: u64,
    pub expiry: u64,
    pub status: SignalStatus,
    pub executions: u32,
    pub successful_executions: u32,
    pub total_volume: i128,
    /// Sum of the executions' returns, in basis points.
    pub total_roi: i128,
}

/// One execution of a signal.
#[derive(Clone, Copy, Debug, PartialEq, Eq, Structural)]
pub struct TradeExecution {
    pub signal_id: u64,
    pub executor: u64,
    pub entry_price: i128,
    pub exit_price: i128,
    pub volume: i128,
    /// In basis points.
    pub roi: i128,
    pub timestamp: u64,
}

/// Average return per execution, truncated; 0 without executions.
pub open spec fn average_roi_of(total_roi: i128, executions: u32) -> int {
    if executions == 0 { 0 } else { trunc_div(total_roi as int, executions as int) }
}

/// The status a signal earns at `now`: failed when it expired unexecuted,
/// unchanged while unexecuted, otherwise by its average return.
pub open spec fn status_at(signal: Signal, now: u64) -> SignalStatus {
    if signal.expiry < now && signal.executions == 0 {
        SignalStatus::Failed
    } else if signal.executions == 0 {
        signal.status
    } else if average_roi_of(signal.total_roi, signal.executions) > SUCCESS_THRESHOLD_BPS {
        SignalStatus::Successful
    } else if average_roi_of(signal.total_roi, signal.executions) < FAILURE_THRESHOLD_BPS {
        SignalStatus::Failed
    } else {
        SignalStatus::Active
    }
}

/// Folds one execution into the signal's totals.
pub fn update_signal_stats(signal: &mut Signal, trade: &TradeExecution)
    requires
        old(signal).executions < u32::MAX,
        i128::MIN <= old(signal).total_volume + trade.volume <= i128::MAX,
        i128::MIN <= old(signal).total_roi + trade.roi <= i128::MAX,
    ensures
        final(signal).executions == old(signal).executions + 1,
        final(signal).total_volume == old(signal).total_volume + trade.volume,
        final(signal).total_roi == old(signal).total_roi + trade.roi,
        final(signal).id == old(signal).id,
        final(signal).provider == old(signal).provider,
        final(signal).asset_pair == old(signal).asset_pair,
        final(signal).action == old(signal).action,
        final(signal).price == old(signal).price,
        final(signal).rationale == old(signal).rationale,
        final(signal).timestamp == old(signal).timestamp,
        final(signal).expiry == old(signal).expiry,
        final(signal).status == old(signal).status,
        final(signal).successful_executions == old(signal).successful_executions,
{
    signal.executions = signal.executions + 1;
    signal.total_volume = signal.total_volume + trade.volume;
    signal.total_roi = signal.total_roi + trade.roi;
}

/// The status a signal earns at `now`.
pub fn evaluate_signal_status(signal: &Signal, now: u64) -> (s: SignalStatus)
    ensures
        s == status_at(*signal, now),
{
    if signal.expiry < now && signal.executions == 0 {
        return SignalStatus::Failed;
    }
    if signal.executions == 0 {
        return signal.status;
    }
    let avg_roi = get_signal_average_roi(signal);
    if avg_roi > SUCCESS_THRESHOLD_BPS {
        SignalStatus::Successful
    } else if avg_roi < FAILURE_THRESHOLD_BPS {
        SignalStatus::Failed
    } else {
        SignalStatus::Active
    }
}

/// Average return per execution in basis points; 0 without executions.
pub fn get_signal_average_roi(signal: &Signal) -> (r: i128)
    ensures
        r == average_roi_of(signal.total_roi, signal.executions),
{
    if signal.executions == 0 {
        0
    } else {
        signal.total_roi / (signal.executions as i128)
    }
}

} // verus!
