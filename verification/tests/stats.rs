use gpu_annealing::stats::MoveStats;

#[test]
fn stats_start_at_zero() {
    let s = MoveStats::new();
    assert_eq!(s.iterations, 0);
    assert_eq!(s.accepted, 0);
    assert_eq!(s.reheats, 0);
}

#[test]
fn accepted_move_counts_both() {
    let mut s = MoveStats::new();
    s.record_move(true);
    assert_eq!(s.iterations, 1);
    assert_eq!(s.accepted, 1);
    assert_eq!(s.reheats, 0);
}

#[test]
fn rejected_move_counts_only_the_attempt() {
    let mut s = MoveStats::new();
    s.record_move(false);
    s.record_move(true);
    s.record_move(false);
    assert_eq!(s.iterations, 3);
    assert_eq!(s.accepted, 1);
    assert!(s.accepted <= s.iterations);
}

#[test]
fn reheat_counts_events_only() {
    let mut s = MoveStats::new();
    s.record_move(true);
    s.record_reheat();
    s.record_reheat();
    assert_eq!(s.reheats, 2);
    assert_eq!(s.iterations, 1);
    assert_eq!(s.accepted, 1);
}
