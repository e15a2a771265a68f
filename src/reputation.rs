use vstd::prelude::*;

use crate::types::{OracleReputation, SlashReason};

verus! {

/// Score of an oracle that has never submitted.
pub const DEFAULT_REPUTATION: u32 = 50;

/// A submission within 5% (500 bps) of consensus counts as accurate.
pub const ACCURACY_THRESHOLD_BPS: i128 = 500;

/// A submission more than 20% (2000 bps) away from consensus is slashed.
pub const MAJOR_DEVIATION_THRESHOLD_BPS: i128 = 2000;

/// Without a slash for longer than this, an oracle earns the consistency bonus.
pub const WEEK_IN_SECONDS: u64 = 86400 * 7;

pub const MAJOR_DEVIATION_PENALTY: u32 = 20;

pub const SIGNATURE_FAILURE_PENALTY: u32 = 30;

/// Below this many submissions the accuracy rate alone never removes an oracle.
pub const REMOVAL_MIN_SUBMISSIONS: u32 = 100;

pub const BPS_SCALE: i128 = 10000;

/// The record of a freshly registered (or unknown) oracle.
pub open spec fn default_reputation_spec() -> OracleReputation {
    OracleReputation {
        total_submissions: 0,
        accurate_submissions: 0,
        avg_deviation: 0,
        reputation_score: 50,
        weight: 1,
        last_slash: 0,
    }
}

/// The counters of a record are consistent.
pub open spec fn counts_ok(r: OracleReputation) -> bool {
    &&& r.accurate_submissions <= r.total_submissions
    &&& r.avg_deviation >= 0
}

/// The weight tier of a reputation score.
pub open spec fn tier_weight(score: u32) -> u32 {
    if 90 <= score <= 100 {
        10
    } else if 75 <= score <= 89 {
        5
    } else if 60 <= score <= 74 {
        2
    } else if 50 <= score <= 59 {
        1
    } else {
        0
    }
}

/// Integer division truncating toward zero, as Rust's `/` on signed integers.
pub open spec fn trunc_div(a: int, b: int) -> int {
    let q = abs_int(a) / abs_int(b);
    if (a >= 0) == (b > 0) {
        q
    } else {
        -q
    }
}

/// Absolute value.
pub open spec fn abs_int(a: int) -> int {
    if a >= 0 {
        a
    } else {
        -a
    }
}

/// Signed division truncating toward zero, as Rust's `/`.
pub fn div_trunc(a: i128, b: i128) -> (q: i128)
    requires
        b != 0,
        a != i128::MIN,
    ensures
        q == trunc_div(a as int, b as int),
{
    let magnitude: i128 = if a >= 0 { a } else { -a };
    if b == i128::MIN {
        proof {
            vstd::arithmetic::div_mod::lemma_basic_div(magnitude as int, 0x8000_0000_0000_0000_0000_0000_0000_0000);
        }
        return 0;
    }
    let divisor: i128 = if b > 0 { b } else { -b };
    let q = magnitude / divisor;
    if (a >= 0) == (b > 0) {
        q
    } else {
        -q
    }
}

/// `x` clamped to 0..=100.
pub open spec fn clamp_score(x: int) -> u32 {
    if x < 0 {
        0
    } else if x > 100 {
        100
    } else {
        x as u32
    }
}

/// Share of accurate submissions, scaled to 0..=60.
pub open spec fn accuracy_score(r: OracleReputation) -> int {
    r.accurate_submissions * 60 / r.total_submissions as int
}

/// 30 less one point per 1000 bps of average deviation, at most 30 points off.
pub open spec fn deviation_score(r: OracleReputation) -> int {
    let penalty = trunc_div(r.avg_deviation as int, 1000);
    30 - (if penalty < 30 { penalty } else { 30 })
}

/// No slash happened during the last week (strictly more than seven days ago).
pub open spec fn consistency_score(r: OracleReputation, now: u64) -> int {
    if now as int - r.last_slash as int > WEEK_IN_SECONDS as int {
        10
    } else {
        0
    }
}

/// The reputation score that a record earns at time `now`.
pub open spec fn reputation_of(r: OracleReputation, now: u64) -> u32 {
    if r.total_submissions == 0 {
        DEFAULT_REPUTATION
    } else {
        clamp_score(accuracy_score(r) + deviation_score(r) + consistency_score(r, now))
    }
}

/// Distance of `price` from `consensus` in basis points, saturated at `i128::MAX`
/// before the division.
pub open spec fn deviation_bps(price: i128, consensus: i128) -> int {
    let d = if price >= consensus { price - consensus } else { consensus - price };
    let scaled = if d * 10000 > i128::MAX { i128::MAX as int } else { d * 10000 };
    scaled / consensus as int
}

/// One more, saturating at `u32::MAX`.
pub open spec fn sat_inc(x: u32) -> u32 {
    if x < u32::MAX { (x + 1) as u32 } else { x }
}

/// The record after one submission of `price` in a round that settled on `consensus`.
pub open spec fn after_submission(r: OracleReputation, price: i128, consensus: i128) -> OracleReputation {
    let dev = deviation_bps(price, consensus);
    let n = sat_inc(r.total_submissions);
    OracleReputation {
        total_submissions: n,
        accurate_submissions: if dev <= ACCURACY_THRESHOLD_BPS {
            sat_inc(r.accurate_submissions)
        } else {
            r.accurate_submissions
        },
        avg_deviation: ((r.avg_deviation * (n - 1) + dev) / n as int) as i128,
        ..r
    }
}

/// Score points taken by a slash.
pub open spec fn penalty_of(reason: SlashReason) -> u32 {
    match reason {
        SlashReason::MajorDeviation => MAJOR_DEVIATION_PENALTY,
        SlashReason::SignatureFailure => SIGNATURE_FAILURE_PENALTY,
    }
}

/// The record after a penalty at time `now`.
pub open spec fn slashed(r: OracleReputation, reason: SlashReason, now: u64) -> OracleReputation {
    OracleReputation {
        reputation_score: if r.reputation_score >= penalty_of(reason) {
            (r.reputation_score - penalty_of(reason)) as u32
        } else {
            0
        },
        last_slash: now,
        ..r
    }
}

/// The record with its score recomputed at `now` and its weight set to the score's tier.
pub open spec fn adjusted(r: OracleReputation, now: u64) -> OracleReputation {
    OracleReputation {
        reputation_score: reputation_of(r, now),
        weight: tier_weight(reputation_of(r, now)),
        ..r
    }
}

/// Persistently inaccurate (at least 100 submissions, under 50% accurate) or
/// scoring under 50.
pub open spec fn removal_due(r: OracleReputation, now: u64) -> bool {
    ||| r.total_submissions >= REMOVAL_MIN_SUBMISSIONS
        && r.accurate_submissions * 100 / (r.total_submissions as int) < 50
    ||| reputation_of(r, now) < 50
}

/// The record of a freshly registered oracle: score 50, weight 1, no history.
pub fn default_reputation() -> (r: OracleReputation)
    ensures
        r == default_reputation_spec(),
{
    OracleReputation {
        total_submissions: 0,
        accurate_submissions: 0,
        avg_deviation: 0,
        reputation_score: DEFAULT_REPUTATION,
        weight: 1,
        last_slash: 0,
    }
}

/// The weight tier of a score: 90-100 give 10, 75-89 give 5, 60-74 give 2,
/// 50-59 give 1, anything else 0.
pub fn weight_for_score(score: u32) -> (w: u32)
    ensures
        w == tier_weight(score),
{
    if 90 <= score && score <= 100 {
        10
    } else if 75 <= score && score <= 89 {
        5
    } else if 60 <= score && score <= 74 {
        2
    } else if 50 <= score && score <= 59 {
        1
    } else {
        0
    }
}

/// Reputation score of a record at time `now`: 50 without history, otherwise
/// accuracy (0..60) plus deviation (0..30) plus consistency (0 or 10), clamped to 0..=100.
pub fn calculate_reputation(stats: &OracleReputation, now: u64) -> (score: u32)
    ensures
        score == reputation_of(*stats, now),
        score <= 100,
{
    if stats.total_submissions == 0 {
        return DEFAULT_REPUTATION;
    }
    let accuracy: u64 = (stats.accurate_submissions as u64 * 60) / stats.total_submissions as u64;
    let avg = stats.avg_deviation;
    let raw_penalty: i128 = avg / 1000;
    assert(raw_penalty == trunc_div(avg as int, 1000));
    let penalty: i128 = if raw_penalty < 30 { raw_penalty } else { 30 };
    let consistency: u64 = if now >= stats.last_slash && now - stats.last_slash > WEEK_IN_SECONDS {
        10
    } else {
        0
    };
    if penalty < -100 {
        // the deviation part alone exceeds the cap
        return 100;
    }
    let total: i128 = accuracy as i128 + (30 - penalty) + consistency as i128;
    if total > 100 {
        100
    } else if total < 0 {
        0
    } else {
        total as u32
    }
}

/// Distance of `price` from `consensus` in basis points (`|price - consensus| * 10000 / consensus`),
/// the product saturating at `i128::MAX`.
pub fn deviation(price: i128, consensus: i128) -> (d: i128)
    requires
        price > 0,
        consensus > 0,
    ensures
        d == deviation_bps(price, consensus),
        d >= 0,
{
    let diff: i128 = if price >= consensus { price - consensus } else { consensus - price };
    let scaled: i128 = if diff > i128::MAX / BPS_SCALE {
        assert(diff * 10000 > i128::MAX) by (nonlinear_arith)
            requires diff > i128::MAX / 10000;
        i128::MAX
    } else {
        assert(diff * 10000 <= i128::MAX) by (nonlinear_arith)
            requires diff <= i128::MAX / 10000, diff >= 0;
        diff * BPS_SCALE
    };
    scaled / consensus
}

/// Folds one submission into a record: one more submission, one more accurate one
/// if within 5% of consensus, and the running average deviation updated as
/// `(avg * (n - 1) + deviation) / n` with `n` the new total. Counters saturate.
pub fn track_oracle_accuracy(stats: &mut OracleReputation, submitted_price: i128, consensus_price: i128)
    requires
        submitted_price > 0,
        consensus_price > 0,
        old(stats).avg_deviation >= 0,
    ensures
        *final(stats) == after_submission(*old(stats), submitted_price, consensus_price),
        counts_ok(*old(stats)) ==> counts_ok(*final(stats)),
{
    let dev = deviation(submitted_price, consensus_price);
    let n: u32 = if stats.total_submissions < u32::MAX {
        stats.total_submissions + 1
    } else {
        stats.total_submissions
    };
    let avg = stats.avg_deviation;
    let diff: i128 = dev - avg;
    let step: i128 = if diff >= 0 {
        diff / (n as i128)
    } else {
        -((-diff - 1) / (n as i128)) - 1
    };
    proof {
        lemma_running_average(avg as int, dev as int, n as int, diff as int, step as int);
    }
    stats.avg_deviation = avg + step;
    stats.total_submissions = n;
    if dev <= ACCURACY_THRESHOLD_BPS && stats.accurate_submissions < u32::MAX {
        stats.accurate_submissions = stats.accurate_submissions + 1;
    }
}

proof fn lemma_running_average(avg: int, dev: int, n: int, diff: int, step: int)
    requires
        avg >= 0,
        dev >= 0,
        n >= 1,
        diff == dev - avg,
        diff >= 0 ==> step == diff / n,
        diff < 0 ==> step == -((-diff - 1) / n) - 1,
    ensures
        step == diff / n,
        avg + step == (avg * (n - 1) + dev) / n,
        avg + step >= 0,
        avg + step <= if avg >= dev { avg } else { dev },
{
    if diff < 0 {
        let m = -diff - 1;
        let q = m / n;
        let r = m % n;
        vstd::arithmetic::div_mod::lemma_fundamental_div_mod(m, n);
        assert(m == n * q + r && 0 <= r < n);
        assert(diff == n * (-q - 1) + (n - 1 - r)) by (nonlinear_arith)
            requires m == n * q + r, diff == -m - 1;
        vstd::arithmetic::div_mod::lemma_fundamental_div_mod_converse(diff, n, -q - 1, n - 1 - r);
        assert(q >= 0) by (nonlinear_arith) requires m >= 0, n >= 1, q == m / n;
        assert(n * q <= m) by (nonlinear_arith) requires m == n * q + r, r >= 0;
        assert(-q - 1 >= diff) by (nonlinear_arith) requires n * q <= m, n >= 1, q >= 0, diff == -m - 1;
    } else {
        vstd::arithmetic::div_mod::lemma_div_pos_is_pos(diff, n);
        vstd::arithmetic::div_mod::lemma_div_is_ordered_by_denominator(diff, 1, n);
    }
    let q = diff / n;
    let r = diff % n;
    vstd::arithmetic::div_mod::lemma_fundamental_div_mod(diff, n);
    assert(avg * (n - 1) + dev == n * (avg + q) + r) by (nonlinear_arith)
        requires diff == n * q + r, diff == dev - avg;
    vstd::arithmetic::div_mod::lemma_fundamental_div_mod_converse(avg * (n - 1) + dev, n, avg + q, r);
}

/// Applies a penalty: the score drops by 20 (major deviation) or 30 (signature
/// failure), not below 0, and the slash time becomes `now`.
pub fn slash_oracle(stats: &mut OracleReputation, reason: SlashReason, now: u64)
    ensures
        *final(stats) == slashed(*old(stats), reason, now),
{
    let penalty: u32 = match reason {
        SlashReason::MajorDeviation => MAJOR_DEVIATION_PENALTY,
        SlashReason::SignatureFailure => SIGNATURE_FAILURE_PENALTY,
    };
    stats.reputation_score = stats.reputation_score.saturating_sub(penalty);
    stats.last_slash = now;
}

/// Recomputes the score at `now` and sets the weight to its tier; returns the new weight.
pub fn adjust_oracle_weight(stats: &mut OracleReputation, now: u64) -> (w: u32)
    ensures
        *final(stats) == adjusted(*old(stats), now),
        w == final(stats).weight,
{
    let reputation = calculate_reputation(stats, now);
    let w = weight_for_score(reputation);
    stats.weight = w;
    stats.reputation_score = reputation;
    w
}

/// Whether an oracle is a candidate for automatic removal at `now`.
pub fn should_remove_oracle(stats: &OracleReputation, now: u64) -> (r: bool)
    ensures
        r == removal_due(*stats, now),
{
    if stats.total_submissions >= REMOVAL_MIN_SUBMISSIONS {
        let rate: u64 = (stats.accurate_submissions as u64 * 100) / stats.total_submissions as u64;
        if rate < 50 {
            return true;
        }
    }
    calculate_reputation(stats, now) < 50
}

} // verus!
