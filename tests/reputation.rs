use stellar_swipe::median::weighted_median;
use stellar_swipe::reputation::{
    adjust_oracle_weight, calculate_reputation, default_reputation, deviation, div_trunc,
    should_remove_oracle, slash_oracle, track_oracle_accuracy, weight_for_score, WEEK_IN_SECONDS,
};
use stellar_swipe::types::{OracleReputation, SlashReason};

fn record(total: u32, accurate: u32, avg: i128, last_slash: u64) -> OracleReputation {
    OracleReputation {
        total_submissions: total,
        accurate_submissions: accurate,
        avg_deviation: avg,
        reputation_score: 50,
        weight: 1,
        last_slash,
    }
}

#[test]
fn weight_tiers() {
    assert_eq!(weight_for_score(100), 10);
    assert_eq!(weight_for_score(90), 10);
    assert_eq!(weight_for_score(89), 5);
    assert_eq!(weight_for_score(75), 5);
    assert_eq!(weight_for_score(74), 2);
    assert_eq!(weight_for_score(60), 2);
    assert_eq!(weight_for_score(59), 1);
    assert_eq!(weight_for_score(50), 1);
    assert_eq!(weight_for_score(49), 0);
    assert_eq!(weight_for_score(0), 0);
    assert_eq!(weight_for_score(101), 0);
}

#[test]
fn fresh_record() {
    let r = default_reputation();
    assert_eq!(r.reputation_score, 50);
    assert_eq!(r.weight, 1);
    assert_eq!(r.total_submissions, 0);
    assert_eq!(r.accurate_submissions, 0);
    assert_eq!(calculate_reputation(&r, 1_000_000), 50);
}

#[test]
fn reputation_formula() {
    // 7 of 10 accurate: 42; avg 2500 bps: 30 - 2 = 28; slash long ago: 10
    let r = record(10, 7, 2500, 0);
    assert_eq!(calculate_reputation(&r, WEEK_IN_SECONDS + 1), 80);
    // a slash exactly a week ago earns no bonus
    assert_eq!(calculate_reputation(&r, WEEK_IN_SECONDS), 70);
    // deviation penalty caps at 30
    let r = record(4, 4, 90_000, 0);
    assert_eq!(calculate_reputation(&r, 0), 60);
    // a slash in the future earns no bonus
    let r = record(1, 1, 0, 500);
    assert_eq!(calculate_reputation(&r, 100), 90);
    // clamped at 100 for a negative average
    let r = record(1, 1, -1_000_000, 0);
    assert_eq!(calculate_reputation(&r, 0), 100);
}

#[test]
fn deviation_in_basis_points() {
    assert_eq!(deviation(100, 100), 0);
    assert_eq!(deviation(101, 100), 100);
    assert_eq!(deviation(99, 100), 100);
    assert_eq!(deviation(150, 101), 4851);
    assert_eq!(deviation(i128::MAX, 1), i128::MAX);
}

#[test]
fn tracking_updates_counters_and_average() {
    let mut r = record(1, 1, 100, 0);
    track_oracle_accuracy(&mut r, 110, 100);
    assert_eq!(r.total_submissions, 2);
    assert_eq!(r.accurate_submissions, 1);
    // (100 * 1 + 1000) / 2
    assert_eq!(r.avg_deviation, 550);
    track_oracle_accuracy(&mut r, 104, 100);
    assert_eq!(r.accurate_submissions, 2);
    // (550 * 2 + 400) / 3 = 500
    assert_eq!(r.avg_deviation, 500);
    track_oracle_accuracy(&mut r, 100, 100);
    // (500 * 3 + 0) / 4 = 375
    assert_eq!(r.avg_deviation, 375);
    assert_eq!(r.total_submissions, 4);
}

#[test]
fn tracking_saturates_counters() {
    let mut r = record(u32::MAX, u32::MAX, 0, 0);
    track_oracle_accuracy(&mut r, 100, 100);
    assert_eq!(r.total_submissions, u32::MAX);
    assert_eq!(r.accurate_submissions, u32::MAX);
}

#[test]
fn slashing() {
    let mut r = record(0, 0, 0, 0);
    r.reputation_score = 50;
    slash_oracle(&mut r, SlashReason::MajorDeviation, 77);
    assert_eq!(r.reputation_score, 30);
    assert_eq!(r.last_slash, 77);
    slash_oracle(&mut r, SlashReason::SignatureFailure, 99);
    assert_eq!(r.reputation_score, 0);
    assert_eq!(r.last_slash, 99);
}

#[test]
fn weight_adjustment_recomputes_score() {
    let mut r = record(10, 10, 0, 0);
    r.reputation_score = 10;
    r.weight = 0;
    assert_eq!(adjust_oracle_weight(&mut r, 0), 10);
    assert_eq!(r.reputation_score, 90);
    assert_eq!(r.weight, 10);
}

#[test]
fn removal_criteria() {
    // 100 submissions, 49 accurate
    let r = record(100, 49, 0, 0);
    assert!(should_remove_oracle(&r, 10_000_000));
    // 99 submissions and a good score: kept
    let r = record(99, 49, 0, 0);
    assert!(!should_remove_oracle(&r, 10_000_000));
    // low score
    let r = record(5, 0, 9000, 0);
    assert!(should_remove_oracle(&r, 0));
    assert!(!should_remove_oracle(&default_reputation(), 0));
}

#[test]
fn median_by_multiplicity() {
    assert_eq!(weighted_median(&vec![5], &vec![0]), 5);
    assert_eq!(weighted_median(&vec![100, 101, 150], &vec![1, 1, 1]), 101);
    assert_eq!(weighted_median(&vec![150, 100, 101], &vec![1, 1, 1]), 101);
    // 10 copies of 300 against 1 of 100 and 1 of 200
    assert_eq!(weighted_median(&vec![100, 200, 300], &vec![1, 1, 10]), 300);
    // even length: average of the middle pair, rounded down
    assert_eq!(weighted_median(&vec![100, 103], &vec![2, 2]), 101);
    // weight 0 still counts once
    assert_eq!(weighted_median(&vec![10, 20], &vec![0, 0]), 15);
}

#[test]
fn truncating_division() {
    assert_eq!(div_trunc(7, 2), 3);
    assert_eq!(div_trunc(-7, 2), -3);
    assert_eq!(div_trunc(7, -2), -3);
    assert_eq!(div_trunc(-7, -2), 3);
    assert_eq!(div_trunc(5, i128::MIN), 0);
}
