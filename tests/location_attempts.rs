use data_analysis::attempts::{
    AggregateError, LocationAttempt, LocationAttemptAccumulator, LocationAttemptAggregator,
    LocationAttemptSummary,
};
use data_analysis::sparse::BIT_LEN_LIMIT;

fn attempt(seed: u16, step: u16, region: &str, n: u8, rats: u8, success: u8) -> LocationAttempt {
    LocationAttempt {
        seed_number: seed,
        iteration_number: 0,
        slot_number: 0,
        step_number: step,
        region: String::from(region),
        n,
        rat_count: rats,
        mercy_modifier: 0,
        has_lucky: 0,
        has_unlucky: 0,
        has_stylish: 0,
        success,
    }
}

#[test]
fn accumulator_counts_flags_as_zero_or_one() {
    let mut acc = LocationAttemptAccumulator::default();
    let mut a = attempt(1, 3, "A", 0, 2, 1);
    a.has_lucky = 2;
    a.has_stylish = 1;
    acc.add(&a, 0);
    acc.add(&attempt(1, 5, "A", 0, 4, 0), 2);
    assert_eq!(acc.lucky, 1);
    assert_eq!(acc.stylish, 1);
    assert_eq!(acc.unlucky, 0);
    assert_eq!(acc.success, 1);
    assert_eq!(acc.step_number, vec![3, 5]);
    assert_eq!(acc.attempted_during.len(), 3);
    assert_eq!(acc.attempted_during.ones(), 2);
}

#[test]
fn summary_of_accumulator() {
    let mut acc = LocationAttemptAccumulator::default();
    acc.add(&attempt(1, 9, "A", 0, 2, 1), 0);
    acc.add(&attempt(1, 3, "A", 0, 4, 1), 0);
    acc.add(&attempt(2, 6, "A", 0, 4, 0), 1);
    let s = LocationAttemptSummary::summarize(&mut acc);
    assert_eq!(s.attempts, 3);
    assert_eq!(s.runs_attempted, 2);
    assert_eq!(s.success, 2);
    assert_eq!(s.step_number.min, 3);
    assert_eq!(s.step_number.max, 9);
    assert_eq!(s.step_number.median, 6);
    assert_eq!(s.rat_count.mode, 4);
    assert_eq!(s.rat_count.sum, 10);
}

#[test]
fn aggregates_by_region_and_location() {
    let mut agg = LocationAttemptAggregator::new();
    agg.record(&attempt(1, 1, "A", 2, 1, 1)).unwrap();
    agg.record(&attempt(1, 2, "B", 0, 1, 0)).unwrap();
    agg.record(&attempt(2, 1, "A", 0, 3, 0)).unwrap();
    agg.record(&attempt(2, 4, "A", 2, 5, 1)).unwrap();
    assert_eq!(agg.runs_seen, 2);
    let out = agg.finish();
    assert_eq!(out.total_attempts, 4);
    let by_region = &out.summarized_location_attempts_by_region;
    assert_eq!(by_region.len(), 2);
    assert_eq!(by_region[0].0, "A");
    assert_eq!(by_region[0].1.attempts, 3);
    assert_eq!(by_region[0].1.runs_attempted, 2);
    assert_eq!(by_region[0].1.success, 2);
    assert_eq!(by_region[1].0, "B");
    assert_eq!(by_region[1].1.attempts, 1);
    let by_location = &out.summarized_location_attempts_by_region_location;
    assert_eq!(by_location[0].0, "A");
    assert_eq!(by_location[0].1.len(), 3);
    assert_eq!(by_location[0].1[0].attempts, 1);
    assert_eq!(by_location[0].1[1].attempts, 0);
    assert_eq!(by_location[0].1[1].step_number.num, 0);
    assert_eq!(by_location[0].1[2].attempts, 2);
    assert_eq!(by_location[0].1[2].rat_count.median, 5);
    assert_eq!(by_location[1].1.len(), 1);
}

#[test]
fn run_changes_when_triple_changes() {
    let mut agg = LocationAttemptAggregator::new();
    agg.record(&attempt(1, 1, "A", 0, 1, 1)).unwrap();
    agg.record(&attempt(1, 2, "A", 0, 1, 1)).unwrap();
    let mut other_slot = attempt(1, 3, "A", 0, 1, 1);
    other_slot.slot_number = 1;
    agg.record(&other_slot).unwrap();
    agg.record(&attempt(1, 4, "A", 0, 1, 1)).unwrap();
    assert_eq!(agg.runs_seen, 3);
    assert_eq!(agg.by_region[0].attempted_during.len(), 3);
}

#[test]
fn too_many_attempts_is_refused() {
    let mut agg = LocationAttemptAggregator::new();
    agg.total_attempts = usize::MAX;
    assert_eq!(agg.record(&attempt(1, 1, "A", 0, 1, 1)), Err(AggregateError::TooManyAttempts));
    assert_eq!(agg.by_region.len(), 0);
}

#[test]
fn too_many_runs_is_refused() {
    let mut agg = LocationAttemptAggregator::new();
    agg.record(&attempt(1, 1, "A", 0, 1, 1)).unwrap();
    agg.runs_seen = BIT_LEN_LIMIT;
    assert_eq!(agg.record(&attempt(2, 1, "A", 0, 1, 1)), Err(AggregateError::TooManyRuns));
    assert_eq!(agg.total_attempts, 1);
}

#[test]
fn too_many_regions_is_refused() {
    let mut agg = LocationAttemptAggregator::new();
    for k in 0..65535u32 {
        assert!(agg.interner.intern(&k.to_string()).is_some());
    }
    assert_eq!(agg.record(&attempt(1, 1, "A", 0, 1, 1)), Err(AggregateError::TooManyRegions));
    assert_eq!(agg.record(&attempt(1, 1, "12", 0, 1, 1)), Ok(()));
    assert_eq!(agg.by_region.len(), 13);
}
