use clan_hiscores::milestone::{calc_points, check_table, CalcError, Milestone};

fn table(pairs: &[(i64, i64)]) -> Vec<Milestone> {
    pairs.iter().map(|&(threshold, reward)| Milestone { threshold, reward }).collect()
}

#[test]
fn zero_score_earns_zero_for_any_table() {
    assert_eq!(calc_points(0, &table(&[])), Ok(0));
    assert_eq!(calc_points(0, &table(&[(10, 5), (20, 5)])), Ok(0));
    assert_eq!(calc_points(0, &table(&[(-1, 50)])), Ok(0));
    // even a zero-reward sentinel is never reached for a zero score
    assert_eq!(calc_points(0, &table(&[(-1, 0)])), Ok(0));
}

#[test]
fn immediate_per_unit_sentinel() {
    // 2 * floor(125 / 50) == 4
    assert_eq!(calc_points(125, &table(&[(-1, 50)])), Ok(4));
}

#[test]
fn milestone_walk_with_thresholds() {
    let t = table(&[(10, 5), (20, 5), (-1, 3)]);
    assert_eq!(calc_points(9, &t), Ok(0));
    assert_eq!(calc_points(15, &t), Ok(5));
    // both thresholds are reached, then the sentinel adds 2 * floor(25 / 3)
    assert_eq!(calc_points(25, &t), Ok(10 + 2 * (25 / 3)));
}

#[test]
fn threshold_is_exclusive_of_partial_credit() {
    let t = table(&[(10, 7)]);
    assert_eq!(calc_points(9, &t), Ok(0));
    assert_eq!(calc_points(10, &t), Ok(7));
}

#[test]
fn exhausted_table_returns_full_total() {
    let t = table(&[(10, 5), (20, 6)]);
    assert_eq!(calc_points(100, &t), Ok(11));
}

#[test]
fn monotone_for_non_negative_tables() {
    let t = table(&[(10, 5), (20, 5), (50, 12)]);
    let mut last = 0;
    for score in 0..80 {
        let p = calc_points(score, &t).unwrap();
        assert!(p >= last, "points decreased at score {}", score);
        last = p;
    }
}

#[test]
fn zero_reward_sentinel_fails_fast() {
    assert_eq!(calc_points(5, &table(&[(-1, 0)])), Err(CalcError::ZeroRewardSentinel));
}

#[test]
fn negative_sentinel_reward_floors_downward() {
    // floor(125 / -50) == -3, doubled
    assert_eq!(calc_points(125, &table(&[(-1, -50)])), Ok(-6));
}

#[test]
fn overflow_is_reported_not_wrapped() {
    let t = table(&[(1, i64::MAX), (2, i64::MAX)]);
    assert_eq!(calc_points(5, &t), Err(CalcError::Overflow));
}

#[test]
fn table_well_formedness() {
    assert!(check_table(&table(&[(10, 5), (20, 5)])));
    assert!(check_table(&table(&[(10, 5), (-1, 3)])));
    assert!(check_table(&table(&[])));
    // sentinel not last
    assert!(!check_table(&table(&[(-1, 3), (10, 5)])));
    // zero-reward sentinel
    assert!(!check_table(&table(&[(10, 5), (-1, 0)])));
}
