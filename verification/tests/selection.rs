use gpu_annealing::selection::first_min_index;

#[test]
fn picks_the_cheapest_trial() {
    assert_eq!(first_min_index(&vec![50, 30, 70]), 1);
}

#[test]
fn ties_go_to_the_earliest_trial() {
    assert_eq!(first_min_index(&vec![40, 10, 10, 20]), 1);
    assert_eq!(first_min_index(&vec![5, 5]), 0);
}

#[test]
fn no_trials_gives_index_zero() {
    assert_eq!(first_min_index(&vec![]), 0);
}

#[test]
fn single_trial_is_the_best() {
    assert_eq!(first_min_index(&vec![u64::MAX]), 0);
}

#[test]
fn last_trial_can_be_the_best() {
    assert_eq!(first_min_index(&vec![9, 8, 7, 6, 0]), 4);
}

use gpu_annealing::selection::order_key;

#[test]
fn keys_order_as_the_floats_do() {
    let costs: [f64; 9] = [-1e300, -2.0, -1.0, -1e-300, 0.0, 1e-300, 1.5, 2.0, 1e300];
    for w in costs.windows(2) {
        assert!(order_key(w[0].to_bits()) < order_key(w[1].to_bits()));
    }
}

#[test]
fn key_of_zero_and_one() {
    assert_eq!(order_key(0), 0x8000_0000_0000_0000);
    assert_eq!(order_key(0x8000_0000_0000_0001), 0x7fff_ffff_ffff_fffe);
    assert_eq!(order_key(u64::MAX), 0);
}

#[test]
fn infinities_bound_the_keys() {
    let lo = order_key(f64::NEG_INFINITY.to_bits());
    let hi = order_key(f64::INFINITY.to_bits());
    assert!(lo < order_key((-1e308f64).to_bits()));
    assert!(order_key(1e308f64.to_bits()) < hi);
}
