use stellar_swipe::contract::OracleContract;
use stellar_swipe::types::{AccountId, OracleError, OracleEvent, SlashReason};

const ADMIN: AccountId = 1;
const ORACLE1: AccountId = 11;
const ORACLE2: AccountId = 12;
const ORACLE3: AccountId = 13;
const NOW: u64 = 0;

fn create_test_env() -> OracleContract {
    let mut c = OracleContract::new();
    c.initialize(ADMIN).unwrap();
    c
}

fn with_three_oracles() -> OracleContract {
    let mut c = create_test_env();
    c.register_oracle(ADMIN, ORACLE1).unwrap();
    c.register_oracle(ADMIN, ORACLE2).unwrap();
    c.register_oracle(ADMIN, ORACLE3).unwrap();
    c
}

#[test]
fn test_initialize() {
    let mut c = OracleContract::new();
    assert_eq!(c.initialize(ADMIN), Ok(()));
    assert_eq!(c.initialize(ADMIN), Err(OracleError::AlreadyInitialized));
}

#[test]
fn test_register_oracle() {
    let mut c = create_test_env();
    c.register_oracle(ADMIN, ORACLE1).unwrap();

    let reputation = c.get_oracle_reputation(ORACLE1);
    assert_eq!(reputation.reputation_score, 50);
    assert_eq!(reputation.weight, 1);
    assert_eq!(reputation.total_submissions, 0);
}

#[test]
fn test_submit_price() {
    let mut c = create_test_env();
    c.register_oracle(ADMIN, ORACLE1).unwrap();

    c.submit_price(ORACLE1, 100_000_000, NOW).unwrap();

    let consensus = c.calculate_consensus(NOW);
    assert_eq!(consensus, Ok(100_000_000));
}

#[test]
fn test_reputation_calculation_accurate_oracle() {
    let mut c = with_three_oracles();

    c.submit_price(ORACLE1, 100_000_000, NOW).unwrap();
    c.submit_price(ORACLE2, 105_000_000, NOW).unwrap();
    c.submit_price(ORACLE3, 120_000_000, NOW).unwrap();

    c.calculate_consensus(NOW).unwrap();

    let rep1 = c.get_oracle_reputation(ORACLE1);
    let rep2 = c.get_oracle_reputation(ORACLE2);
    let rep3 = c.get_oracle_reputation(ORACLE3);

    assert_eq!(rep1.total_submissions, 1);
    assert_eq!(rep2.total_submissions, 1);
    assert_eq!(rep3.total_submissions, 1);

    assert!(rep3.avg_deviation > rep1.avg_deviation);
}

#[test]
fn test_weight_adjustment() {
    let mut c = with_three_oracles();

    for _ in 0..10 {
        c.submit_price(ORACLE1, 100_000_000, NOW).unwrap();
        c.submit_price(ORACLE2, 105_000_000, NOW).unwrap();
        c.submit_price(ORACLE3, 95_000_000, NOW).unwrap();
        c.calculate_consensus(NOW).unwrap();
    }

    let rep1 = c.get_oracle_reputation(ORACLE1);
    assert!(rep1.weight >= 2);
    assert!(rep1.reputation_score >= 75);
}

#[test]
fn test_slash_for_major_deviation() {
    let mut c = with_three_oracles();

    c.submit_price(ORACLE1, 100_000_000, NOW).unwrap();
    c.submit_price(ORACLE2, 101_000_000, NOW).unwrap();
    c.submit_price(ORACLE3, 150_000_000, NOW).unwrap();

    c.calculate_consensus(NOW).unwrap();

    let rep3 = c.get_oracle_reputation(ORACLE3);
    assert!(rep3.reputation_score < 50);
}

#[test]
fn test_oracle_removal_for_poor_performance() {
    let mut c = with_three_oracles();

    for i in 0..50 {
        c.submit_price(ORACLE1, 100_000_000, NOW).unwrap();
        c.submit_price(ORACLE2, 101_000_000, NOW).unwrap();

        let rep3 = c.get_oracle_reputation(ORACLE3);
        if rep3.weight > 0 {
            c.submit_price(ORACLE3, 200_000_000, NOW).unwrap();
        }

        c.calculate_consensus(NOW).unwrap();

        if i > 10 && rep3.weight == 0 {
            break;
        }
    }

    let rep3 = c.get_oracle_reputation(ORACLE3);
    assert_eq!(rep3.weight, 0);
}

#[test]
fn test_reputation_recovery() {
    let mut c = with_three_oracles();

    for _ in 0..5 {
        c.submit_price(ORACLE1, 106_000_000, NOW).unwrap();
        c.submit_price(ORACLE2, 100_000_000, NOW).unwrap();
        c.submit_price(ORACLE3, 101_000_000, NOW).unwrap();
        c.calculate_consensus(NOW).unwrap();
    }

    let rep_before = c.get_oracle_reputation(ORACLE1);

    for _ in 0..20 {
        c.submit_price(ORACLE1, 100_000_000, NOW).unwrap();
        c.submit_price(ORACLE2, 100_500_000, NOW).unwrap();
        c.submit_price(ORACLE3, 101_000_000, NOW).unwrap();
        c.calculate_consensus(NOW).unwrap();
    }

    let rep_after = c.get_oracle_reputation(ORACLE1);
    assert!(rep_after.accurate_submissions > rep_before.accurate_submissions);
    assert_eq!(rep_after.total_submissions, 25);
}

#[test]
fn test_weighted_median() {
    let mut c = with_three_oracles();

    for _ in 0..10 {
        c.submit_price(ORACLE1, 100_000_000, NOW).unwrap();
        c.submit_price(ORACLE2, 100_000_000, NOW).unwrap();
        c.submit_price(ORACLE3, 100_000_000, NOW).unwrap();
        c.calculate_consensus(NOW).unwrap();
    }

    let rep1 = c.get_oracle_reputation(ORACLE1);
    assert!(rep1.weight >= 1);
    assert_eq!(rep1.total_submissions, 10);
}

#[test]
fn test_minimum_oracles_maintained() {
    let mut c = with_three_oracles();

    let oracles_before = c.get_oracles();
    assert_eq!(oracles_before.len(), 3);

    for _ in 0..50 {
        let rep1 = c.get_oracle_reputation(ORACLE1);
        let rep2 = c.get_oracle_reputation(ORACLE2);
        let rep3 = c.get_oracle_reputation(ORACLE3);

        if rep1.weight > 0 {
            c.submit_price(ORACLE1, 200_000_000, NOW).unwrap();
        }
        if rep2.weight > 0 {
            c.submit_price(ORACLE2, 300_000_000, NOW).unwrap();
        }
        if rep3.weight > 0 {
            c.submit_price(ORACLE3, 400_000_000, NOW).unwrap();
        }

        if rep1.weight == 0 && rep2.weight == 0 && rep3.weight == 0 {
            break;
        }

        c.calculate_consensus(NOW).unwrap();
    }

    let oracles = c.get_oracles();
    assert!(oracles.len() >= 2);
}

#[test]
fn test_invalid_price_rejected() {
    let mut c = create_test_env();
    c.register_oracle(ADMIN, ORACLE1).unwrap();

    let result = c.submit_price(ORACLE1, 0, NOW);
    assert!(result.is_err());

    let result = c.submit_price(ORACLE1, -100, NOW);
    assert!(result.is_err());
}

#[test]
fn test_unregistered_oracle_cannot_submit() {
    let mut c = create_test_env();
    let unregistered: AccountId = 99;

    let result = c.submit_price(unregistered, 100_000_000, NOW);
    assert!(result.is_err());
}

// ---- further cases ----

#[test]
fn consensus_is_weighted_median_with_slash_of_outlier() {
    let now: u64 = 1_000_000;
    let mut c = with_three_oracles();
    c.submit_price(ORACLE1, 100, now).unwrap();
    c.submit_price(ORACLE2, 101, now).unwrap();
    c.submit_price(ORACLE3, 150, now).unwrap();
    c.take_events();

    assert_eq!(c.calculate_consensus(now), Ok(101));

    let rep3 = c.get_oracle_reputation(ORACLE3);
    assert_eq!(rep3.last_slash, now);
    assert_eq!(rep3.total_submissions, 1);
    assert_eq!(rep3.accurate_submissions, 0);
    // deviation 49 * 10000 / 101 = 4851 bps
    assert_eq!(rep3.avg_deviation, 4851);
    // recomputed: accuracy 0 + deviation 30 - 4 + no consistency bonus
    assert_eq!(rep3.reputation_score, 26);
    assert_eq!(rep3.weight, 0);

    let events = c.take_events();
    assert!(events.contains(&OracleEvent::OracleSlashed {
        oracle: ORACLE3,
        reason: SlashReason::MajorDeviation,
        penalty: 20,
    }));
    assert_eq!(
        events.last(),
        Some(&OracleEvent::ConsensusReached { price: 101, num_oracles: 3 })
    );
    let data = c.get_consensus_price().unwrap();
    assert_eq!(data.price, 101);
    assert_eq!(data.timestamp, now);
    assert_eq!(data.num_oracles, 3);
}

#[test]
fn zero_price_is_rejected_without_touching_the_buffer() {
    let mut c = with_three_oracles();
    c.submit_price(ORACLE1, 100, NOW).unwrap();
    let before = c.get_price_submissions();
    assert_eq!(c.submit_price(ORACLE2, 0, NOW), Err(OracleError::InvalidPrice));
    assert_eq!(c.get_price_submissions(), before);
    assert_eq!(c.get_price_submissions().len(), 1);
}

#[test]
fn empty_round_is_rejected_without_changes() {
    let mut c = with_three_oracles();
    let oracles = c.get_oracles();
    let rep = c.get_oracle_reputation(ORACLE2);
    assert_eq!(c.calculate_consensus(NOW), Err(OracleError::InsufficientOracles));
    assert_eq!(c.get_oracles(), oracles);
    assert_eq!(c.get_oracle_reputation(ORACLE2), rep);
    assert_eq!(c.get_consensus_price(), None);
}

#[test]
fn removal_is_skipped_when_it_would_breach_the_floor() {
    let mut c = with_three_oracles();
    for _ in 0..20 {
        let mut any = false;
        for (o, p) in [(ORACLE1, 200), (ORACLE2, 300), (ORACLE3, 400)] {
            if c.get_oracle_reputation(o).weight > 0 {
                c.submit_price(o, p, NOW).unwrap();
                any = true;
            }
        }
        if !any {
            break;
        }
        c.calculate_consensus(NOW).unwrap();
    }
    assert!(c.get_oracle_reputation(ORACLE1).reputation_score < 50);
    assert!(c.get_oracle_reputation(ORACLE3).reputation_score < 50);
    assert!(c.get_oracle_reputation(ORACLE2).reputation_score >= 50);
    assert_eq!(c.get_oracles(), vec![ORACLE1, ORACLE2, ORACLE3]);
}

#[test]
fn single_outlier_is_removed_when_two_remain() {
    let mut c = with_three_oracles();
    c.submit_price(ORACLE1, 100, NOW).unwrap();
    c.submit_price(ORACLE2, 100, NOW).unwrap();
    c.submit_price(ORACLE3, 300, NOW).unwrap();
    c.calculate_consensus(NOW).unwrap();
    assert_eq!(c.get_oracles(), vec![ORACLE1, ORACLE2]);
    let events = c.take_events();
    assert!(events.contains(&OracleEvent::OracleRemoved { oracle: ORACLE3 }));
    // the record survives removal
    assert_eq!(c.get_oracle_reputation(ORACLE3).total_submissions, 1);
}

#[test]
fn weights_follow_scores_after_each_round() {
    let mut c = with_three_oracles();
    for round in 0..5u64 {
        for (o, p) in [(ORACLE1, 100), (ORACLE2, 104), (ORACLE3, 110)] {
            if c.get_oracles().contains(&o) && c.get_oracle_reputation(o).weight > 0 {
                c.submit_price(o, p, round).unwrap();
            }
        }
        c.calculate_consensus(round).unwrap();
        for o in c.get_oracles() {
            let r = c.get_oracle_reputation(o);
            assert_eq!(r.weight, stellar_swipe::reputation::weight_for_score(r.reputation_score));
            assert!(r.accurate_submissions <= r.total_submissions);
        }
    }
}

#[test]
fn reads_do_not_change_state() {
    let mut c = with_three_oracles();
    c.submit_price(ORACLE1, 100, NOW).unwrap();
    c.calculate_consensus(NOW).unwrap();
    let a = c.get_oracle_reputation(ORACLE1);
    let p = c.get_consensus_price();
    assert_eq!(c.get_oracle_reputation(ORACLE1), a);
    assert_eq!(c.get_consensus_price(), p);
}

#[test]
fn even_count_takes_average_of_middle_prices() {
    let mut c = create_test_env();
    c.register_oracle(ADMIN, ORACLE1).unwrap();
    c.register_oracle(ADMIN, ORACLE2).unwrap();
    c.submit_price(ORACLE1, 100, NOW).unwrap();
    c.submit_price(ORACLE2, 103, NOW).unwrap();
    assert_eq!(c.calculate_consensus(NOW), Ok(101));
}

#[test]
fn heavier_oracle_pulls_the_median() {
    let mut c = with_three_oracles();
    // round one: all agree, every weight rises to 10
    c.submit_price(ORACLE1, 100, NOW).unwrap();
    c.submit_price(ORACLE2, 100, NOW).unwrap();
    c.submit_price(ORACLE3, 100, NOW).unwrap();
    c.calculate_consensus(NOW).unwrap();
    assert_eq!(c.get_oracle_reputation(ORACLE1).weight, 10);
    c.register_oracle(ADMIN, 14).unwrap();
    // weight 10 of ORACLE1 against weight 1 of each newcomer-like submission
    c.submit_price(ORACLE1, 100, NOW).unwrap();
    c.submit_price(14, 500, NOW).unwrap();
    assert_eq!(c.calculate_consensus(NOW), Ok(100));
}

#[test]
fn registration_errors() {
    let mut c = OracleContract::new();
    assert_eq!(c.register_oracle(ADMIN, ORACLE1), Err(OracleError::Unauthorized));
    c.initialize(ADMIN).unwrap();
    assert_eq!(c.register_oracle(2, ORACLE1), Err(OracleError::Unauthorized));
    c.register_oracle(ADMIN, ORACLE1).unwrap();
    assert_eq!(c.register_oracle(ADMIN, ORACLE1), Err(OracleError::OracleAlreadyExists));
    assert_eq!(c.get_oracles(), vec![ORACLE1]);
}

#[test]
fn unregistered_submission_is_oracle_not_found() {
    let mut c = create_test_env();
    assert_eq!(c.submit_price(ORACLE1, 100, NOW), Err(OracleError::OracleNotFound));
}

#[test]
fn reregistration_resets_the_record() {
    let mut c = with_three_oracles();
    c.submit_price(ORACLE1, 100, NOW).unwrap();
    c.submit_price(ORACLE2, 100, NOW).unwrap();
    c.submit_price(ORACLE3, 100, NOW).unwrap();
    c.calculate_consensus(NOW).unwrap();
    c.register_oracle(ADMIN, 14).unwrap();
    c.submit_price(ORACLE1, 100, NOW).unwrap();
    c.submit_price(ORACLE2, 100, NOW).unwrap();
    c.submit_price(14, 300, NOW).unwrap();
    c.calculate_consensus(NOW).unwrap();
    // four registered, one candidate: it is removed
    assert_eq!(c.get_oracles().len(), 3);
    assert_eq!(c.get_oracle_reputation(14).weight, 0);
    c.register_oracle(ADMIN, 14).unwrap();
    assert_eq!(c.get_oracle_reputation(14).weight, 1);
}

#[test]
fn low_reputation_submission_is_refused() {
    let mut c = create_test_env();
    for o in [ORACLE1, ORACLE2, ORACLE3, 14] {
        c.register_oracle(ADMIN, o).unwrap();
    }
    c.submit_price(ORACLE1, 100, NOW).unwrap();
    c.submit_price(ORACLE2, 300, NOW).unwrap();
    c.submit_price(ORACLE3, 500, NOW).unwrap();
    c.calculate_consensus(NOW).unwrap();
    // ORACLE1 and ORACLE3 fell to weight 0; removing them would leave two (ORACLE2 and 14)
    assert_eq!(c.get_oracles(), vec![ORACLE2, 14]);
    assert_eq!(c.submit_price(ORACLE1, 100, NOW), Err(OracleError::OracleNotFound));
    let mut d = with_three_oracles();
    d.submit_price(ORACLE1, 100, NOW).unwrap();
    d.submit_price(ORACLE2, 300, NOW).unwrap();
    d.submit_price(ORACLE3, 500, NOW).unwrap();
    d.calculate_consensus(NOW).unwrap();
    assert_eq!(d.get_oracles().len(), 3);
    assert_eq!(d.submit_price(ORACLE1, 100, NOW), Err(OracleError::LowReputation));
}

#[test]
fn admin_removal_ignores_the_floor() {
    let mut c = create_test_env();
    c.register_oracle(ADMIN, ORACLE1).unwrap();
    assert_eq!(c.remove_oracle(2, ORACLE1), Err(OracleError::Unauthorized));
    assert_eq!(c.remove_oracle(ADMIN, ORACLE1), Ok(()));
    assert!(c.get_oracles().is_empty());
}

#[test]
fn resubmission_counts_each_entry() {
    let mut c = with_three_oracles();
    c.submit_price(ORACLE1, 100, NOW).unwrap();
    c.submit_price(ORACLE1, 100, NOW).unwrap();
    c.submit_price(ORACLE2, 200, NOW).unwrap();
    assert_eq!(c.calculate_consensus(NOW), Ok(100));
    assert_eq!(c.get_oracle_reputation(ORACLE1).total_submissions, 2);
}
