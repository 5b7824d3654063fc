use data_analysis::movement::{
    replay, Location, MoveEntry, MoveReason, Movement, MovementError, MovementReplayer, RunLog,
};

fn movement(step: u16, region: &str, n: u8, reason: MoveReason) -> Movement {
    Movement {
        seed_number: 1,
        iteration_number: 2,
        slot_number: 3,
        step_number: step,
        region: String::from(region),
        n,
        reason,
    }
}

fn count(h: &Vec<Vec<u128>>, region: usize, n: usize) -> u128 {
    h.get(region).and_then(|row| row.get(n)).copied().unwrap_or(0)
}

#[test]
fn replay_carries_location_over_empty_steps() {
    let mut r = MovementReplayer::new();
    r.record(&movement(0, "A", 1, MoveReason::Priority)).unwrap();
    r.record(&movement(2, "B", 0, MoveReason::Startled)).unwrap();
    let out = r.finish();
    assert_eq!(out.regions, vec!["Menu", "A", "B"]);
    assert_eq!(out.total_steps, 3);
    assert_eq!(out.steps_spent_startled, 1);
    assert_eq!(out.movements_while_startled, 1);
    assert_eq!(count(&out.ended_at, 1, 1), 2);
    assert_eq!(count(&out.ended_at, 2, 0), 1);
    assert_eq!(count(&out.ended_at, 0, 0), 0);
}

#[test]
fn moved_to_counts_every_move_ended_at_only_the_last() {
    let mut r = MovementReplayer::new();
    r.record(&movement(0, "X", 4, MoveReason::GoMode)).unwrap();
    r.record(&movement(0, "X", 4, MoveReason::Priority)).unwrap();
    let out = r.finish();
    assert_eq!(count(&out.moved_to, 1, 4), 2);
    assert_eq!(count(&out.ended_at, 1, 4), 1);
    assert_eq!(out.total_steps, 1);
    assert_eq!(out.total_movements, 2);
}

#[test]
fn last_entry_of_step_decides() {
    let mut r = MovementReplayer::new();
    r.record(&movement(0, "A", 0, MoveReason::Startled)).unwrap();
    r.record(&movement(0, "B", 0, MoveReason::Priority)).unwrap();
    let out = r.finish();
    assert_eq!(out.steps_spent_startled, 0);
    assert_eq!(out.movements_while_startled, 1);
    assert_eq!(count(&out.ended_at, 2, 0), 1);
    assert_eq!(count(&out.ended_at, 1, 0), 0);
}

#[test]
fn run_starts_in_menu() {
    let mut r = MovementReplayer::new();
    r.record(&movement(1, "A", 0, MoveReason::Priority)).unwrap();
    let out = r.finish();
    assert_eq!(count(&out.ended_at, 0, 0), 1);
    assert_eq!(count(&out.ended_at, 1, 0), 1);
}

#[test]
fn runs_are_replayed_separately() {
    let mut r = MovementReplayer::new();
    r.record(&movement(1, "A", 0, MoveReason::Priority)).unwrap();
    let mut other = movement(0, "B", 2, MoveReason::Startled);
    other.seed_number = 9;
    r.record(&other).unwrap();
    r.record(&movement(0, "A", 3, MoveReason::GoMode)).unwrap();
    assert_eq!(r.runs.len(), 2);
    let out = r.finish();
    assert_eq!(out.total_steps, 3);
    assert_eq!(out.steps_spent_startled, 1);
    assert_eq!(count(&out.ended_at, 1, 3), 1);
    assert_eq!(count(&out.ended_at, 1, 0), 1);
    assert_eq!(count(&out.ended_at, 2, 2), 1);
}

#[test]
fn replay_of_hand_built_log() {
    let a = Location { region: 1, n: 1 };
    let runs = vec![RunLog {
        seed_number: 0,
        iteration_number: 0,
        slot_number: 0,
        steps: vec![vec![MoveEntry { to: a, reason: MoveReason::Priority }], vec![], vec![]],
    }];
    let occ = replay(&runs, Location { region: 0, n: 0 });
    assert_eq!(occ.total_steps, 3);
    assert_eq!(occ.steps_spent_startled, 0);
    assert_eq!(count(&occ.ended_at, 1, 1), 3);
}

#[test]
fn too_many_movements_is_refused() {
    let mut r = MovementReplayer::new();
    r.total_movements = usize::MAX;
    assert_eq!(
        r.record(&movement(0, "A", 0, MoveReason::Priority)),
        Err(MovementError::TooManyMovements)
    );
    assert_eq!(r.runs.len(), 0);
}

#[test]
fn too_many_regions_for_movements_is_refused() {
    let mut r = MovementReplayer::new();
    for k in 0..65534u32 {
        assert!(r.interner.intern(&k.to_string()).is_some());
    }
    assert_eq!(
        r.record(&movement(0, "A", 0, MoveReason::Priority)),
        Err(MovementError::TooManyRegions)
    );
    assert_eq!(r.record(&movement(0, "Menu", 0, MoveReason::Priority)), Ok(()));
}
