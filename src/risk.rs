use vstd::prelude::*;

use crate::errors::AutoTradeError;
use crate::reputation::{div_trunc, trunc_div};

verus! {

pub const DAY_IN_SECONDS: u64 = 86400;

/// A user's trading limits.
#[derive(Clone, Copy, Debug, PartialEq, Eq, Structural)]
pub struct RiskConfig {
    /// Largest share of the portfolio in one asset, in percent.
    pub max_position_pct: u32,
    /// Most trades in 24 hours.
    pub daily_trade_limit: u32,
    /// Loss from entry, in percent, at which a position is sold.
    pub stop_loss_pct: u32,
}

impl Default for RiskConfig {
    /// 20% per position, 10 trades a day, 15% stop loss.
    fn default() -> (c: Self)
        ensures
            c == (RiskConfig { max_position_pct: 20, daily_trade_limit: 10, stop_loss_pct: 15 }),
    {
        RiskConfig { max_position_pct: 20, daily_trade_limit: 10, stop_loss_pct: 15 }
    }
}

#[derive(Clone, Copy, Debug, PartialEq, Eq, Structural)]
pub struct Position {
    pub asset_id: u32,
    pub amount: i128,
    pub entry_price: i128,
    pub timestamp: u64,
}

#[derive(Clone, Copy, Debug, PartialEq, Eq, Structural)]
pub struct TradeRecord {
    pub timestamp: u64,
    pub signal_id: u64,
    pub amount: i128,
}

/// Start of the 24-hour window that ends at `now`.
pub open spec fn window_start(now: u64) -> int {
    if now >= DAY_IN_SECONDS { now - DAY_IN_SECONDS } else { 0 }
}

/// Trades of `history` inside the 24 hours before `now`.
pub open spec fn recent_trades(history: Seq<TradeRecord>, now: u64) -> nat
    decreases history.len(),
{
    if history.len() == 0 {
        0
    } else {
        recent_trades(history.drop_last(), now) + if history.last().timestamp >= window_start(now) {
            1nat
        } else {
            0nat
        }
    }
}

/// Refuses a trade when the last 24 hours already hold `daily_trade_limit` trades.
pub fn check_daily_trade_limit(history: &Vec<TradeRecord>, now: u64, config: &RiskConfig) -> (r: Result<(), AutoTradeError>)
    ensures
        r is Ok <==> recent_trades(history@, now) < config.daily_trade_limit,
        r is Err ==> r == Err::<(), AutoTradeError>(AutoTradeError::DailyTradeLimitExceeded),
{
    let day_ago = now.saturating_sub(DAY_IN_SECONDS);
    let mut recent: u64 = 0;
    let mut i: usize = 0;
    while i < history.len()
        invariant
            0 <= i <= history.len(),
            day_ago == window_start(now),
            recent == recent_trades(history@.take(i as int), now),
            recent <= i,
        decreases history.len() - i,
    {
        proof {
            assert(history@.take(i + 1).drop_last() =~= history@.take(i as int));
        }
        if history[i].timestamp >= day_ago {
            recent = recent + 1;
        }
        i = i + 1;
    }
    assert(history@.take(history.len() as int) =~= history@);
    if recent >= config.daily_trade_limit as u64 {
        return Err(AutoTradeError::DailyTradeLimitExceeded);
    }
    Ok(())
}

/// The price at which a position is sold: the entry price less the stop-loss share.
pub open spec fn stop_loss_price(entry_price: i128, stop_loss_pct: u32) -> int {
    trunc_div(entry_price * (100 - stop_loss_pct), 100)
}

/// Whether the stop loss of a held position is reached at `current_price`; never
/// without a position.
pub fn check_stop_loss(position: &Option<Position>, current_price: i128, config: &RiskConfig) -> (r: bool)
    requires
        config.stop_loss_pct <= 100,
        position is Some ==> i128::MIN < position->0.entry_price * 100 <= i128::MAX,
    ensures
        r == match *position {
            Some(p) => current_price <= stop_loss_price(p.entry_price, config.stop_loss_pct),
            None => false,
        },
{
    match position {
        Some(p) => {
            let keep = 100 - config.stop_loss_pct as i128;
            assert(i128::MIN < p.entry_price * keep <= i128::MAX) by (nonlinear_arith)
                requires
                    0 <= keep <= 100,
                    i128::MIN < p.entry_price * 100 <= i128::MAX;
            let stop = div_trunc(p.entry_price * keep, 100);
            current_price <= stop
        },
        None => false,
    }
}

} // verus!
