use vstd::prelude::*;

use crate::reputation::trunc_div;
use crate::types::{ExternalPrice, OracleError};

verus! {

/// Observations older than this many seconds are discarded.
pub const MAX_PRICE_AGE_SECONDS: u64 = 300;

/// At most 300 seconds old at `now` (an observation from the future is fresh).
pub open spec fn is_fresh(p: ExternalPrice, now: u64) -> bool {
    !(now > p.timestamp && now - p.timestamp > MAX_PRICE_AGE_SECONDS)
}

/// An observation enters the average when its signature holds, it is fresh and
/// its oracle has a positive weight.
pub open spec fn counts_toward(p: ExternalPrice, w: u32, now: u64) -> bool {
    p.signature_valid && is_fresh(p, now) && w > 0
}

/// Within the range of `i128`.
pub open spec fn fits_i128(x: int) -> bool {
    i128::MIN <= x <= i128::MAX
}

/// Weighted sum and total weight of the counted observations, or `None` when a
/// product or a running sum leaves the `i128` range.
pub open spec fn fusion(prices: Seq<ExternalPrice>, weights: Seq<u32>, now: u64) -> Option<(int, int)>
    decreases prices.len(),
{
    if prices.len() == 0 {
        Some((0, 0))
    } else {
        let k = prices.len() - 1;
        match fusion(prices.take(k), weights, now) {
            None => None,
            Some((sum, total)) => if counts_toward(prices[k], weights[k], now) {
                let prod = prices[k].price * weights[k];
                if fits_i128(prod) && fits_i128(sum + prod) {
                    Some((sum + prod, total + weights[k]))
                } else {
                    None
                }
            } else {
                Some((sum, total))
            },
        }
    }
}

/// The weight-proportional average of the counted observations.
pub open spec fn fused_price(prices: Seq<ExternalPrice>, weights: Seq<u32>, now: u64) -> Result<
    i128,
    OracleError,
> {
    if prices.len() == 0 {
        Err(OracleError::InsufficientOracles)
    } else {
        match fusion(prices, weights, now) {
            None => Err(OracleError::Overflow),
            Some((sum, total)) => if total == 0 {
                Err(OracleError::NoOracleData)
            } else {
                Ok(trunc_div(sum, total) as i128)
            },
        }
    }
}

proof fn lemma_fusion_none_extends(prices: Seq<ExternalPrice>, weights: Seq<u32>, now: u64, i: int)
    requires
        0 <= i <= prices.len(),
        fusion(prices.take(i), weights, now) is None,
    ensures
        fusion(prices, weights, now) is None,
    decreases prices.len(),
{
    if i < prices.len() {
        let k = prices.len() - 1;
        assert(prices.take(k).take(i) =~= prices.take(i));
        lemma_fusion_none_extends(prices.take(k), weights, now, i);
    } else {
        assert(prices.take(i) =~= prices);
    }
}

/// Folds signed external observations, each weighted by its oracle's current
/// weight (`weights[i]` for `prices[i]`), into one price: `sum(price * weight) /
/// sum(weight)` over the observations whose signature holds, that are at most 300
/// seconds old and whose weight is positive. Fails with `InsufficientOracles` on no
/// observation, `Overflow` when the weighted sum leaves the `i128` range and
/// `NoOracleData` when nothing counted.
pub fn fuse_external_prices(prices: &Vec<ExternalPrice>, weights: &Vec<u32>, now: u64) -> (r: Result<i128, OracleError>)
    requires
        weights.len() == prices.len(),
    ensures
        r == fused_price(prices@, weights@, now),
{
    if prices.len() == 0 {
        return Err(OracleError::InsufficientOracles);
    }
    let mut sum: i128 = 0;
    let mut total: i128 = 0;
    let mut i: usize = 0;
    while i < prices.len()
        invariant
            0 <= i <= prices.len(),
            weights.len() == prices.len(),
            fusion(prices@.take(i as int), weights@, now) == Some((sum as int, total as int)),
            0 <= total <= i * 0xffff_ffff,
        decreases prices.len() - i,
    {
        let p = prices[i];
        let w = weights[i];
        proof {
            assert(prices@.take(i + 1).take(i as int) =~= prices@.take(i as int));
            assert(prices@.take(i + 1)[i as int] == p);
        }
        let stale = now.saturating_sub(p.timestamp) > MAX_PRICE_AGE_SECONDS;
        if p.signature_valid && !stale && w > 0 {
            match p.price.checked_mul(w as i128) {
                None => {
                    proof {
                        lemma_fusion_none_extends(prices@, weights@, now, i + 1);
                    }
                    return Err(OracleError::Overflow);
                },
                Some(prod) => match sum.checked_add(prod) {
                    None => {
                        proof {
                            lemma_fusion_none_extends(prices@, weights@, now, i + 1);
                        }
                        return Err(OracleError::Overflow);
                    },
                    Some(s) => {
                        assert((i + 1) * 0xffff_ffff == i * 0xffff_ffff + 0xffff_ffff) by (nonlinear_arith);
                        assert((i + 1) * 0xffff_ffff <= 0x1_0000_0000_0000_0000 * 0xffff_ffff) by (nonlinear_arith)
                            requires i + 1 <= 0x1_0000_0000_0000_0000;
                        sum = s;
                        total = total + w as i128;
                    },
                },
            }
        } else {
            assert((i + 1) * 0xffff_ffff >= i * 0xffff_ffff) by (nonlinear_arith);
        }
        i = i + 1;
    }
    assert(prices@.take(prices.len() as int) =~= prices@);
    if total == 0 {
        Err(OracleError::NoOracleData)
    } else {
        Ok(sum / total)
    }
}

} // verus!
