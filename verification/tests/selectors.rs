use hackagotchi::fixed::Fixed;
use hackagotchi::recipe::{RecipeMakes, pick_weighted};
use hackagotchi::spawn::SpawnRate;

#[test]
fn zero_width_range_with_certain_guard_always_yields_exactly() {
    // SpawnRate(1.0, (2.0, 2.0)): the guard always passes and the range
    // has no width, so every draw yields exactly 2.
    let rate = SpawnRate(Fixed(1000), (Fixed(2000), Fixed(2000)));
    for _ in 0..2000 {
        assert_eq!(rate.gen_count(), 2);
    }
}

#[test]
fn zero_guard_never_yields() {
    let rate = SpawnRate(Fixed(0), (Fixed(2000), Fixed(9000)));
    for _ in 0..2000 {
        assert_eq!(rate.gen_count(), 0);
    }
}

#[test]
fn count_from_draws_rounds_stochastically() {
    // chance point 2.5: whole part 2, and the extra unit comes exactly
    // when the extra draw lands below the 0.5 remainder.
    let rate = SpawnRate(Fixed(1000), (Fixed(2000), Fixed(3000)));
    assert_eq!(rate.count_from_draws(0, 2500, 499), 3);
    assert_eq!(rate.count_from_draws(0, 2500, 500), 2);
    // A guard draw at or past the guard yields nothing.
    let shy = SpawnRate(Fixed(300), (Fixed(2000), Fixed(3000)));
    assert_eq!(shy.count_from_draws(300, 2500, 0), 0);
    assert_eq!(shy.count_from_draws(299, 2000, 999), 2);
}

#[test]
fn gen_count_expectation_tracks_guard_and_range() {
    // Expected count of SpawnRate(0.5, [2, 4)) is 1.5; over many trials
    // the average should land near it.
    let rate = SpawnRate(Fixed(500), (Fixed(2000), Fixed(4000)));
    let trials = 40_000usize;
    let mut total = 0usize;
    for _ in 0..trials {
        total += rate.gen_count();
    }
    let mean = total as f64 / trials as f64;
    assert!((1.2..1.8).contains(&mean), "mean {} strays too far", mean);
}

#[test]
fn all_of_selects_each_output_by_relative_count() {
    // AllOf([(1, X), (1, Y)]): one output per draw, never both, each
    // with empirical frequency around one half.
    let x = 10usize;
    let y = 20usize;
    let makes = RecipeMakes::AllOf(vec![(1, x), (1, y)]);
    let trials = 10_000usize;
    let mut got_x = 0usize;
    let mut got_y = 0usize;
    for _ in 0..trials {
        let picked = makes.any();
        if picked == x {
            got_x += 1;
        } else if picked == y {
            got_y += 1;
        } else {
            panic!("selected an unlisted output");
        }
    }
    assert_eq!(got_x + got_y, trials, "exactly one output per draw");
    let share = got_x as f64 / trials as f64;
    assert!((0.45..0.55).contains(&share), "share {} strays too far", share);
}

#[test]
fn just_is_deterministic() {
    let makes = RecipeMakes::Just(3, 42usize);
    for _ in 0..10 {
        assert_eq!(makes.any(), 42);
    }
}

#[test]
fn one_of_respects_weights() {
    // 90% against 10%: the heavy side must dominate.
    let makes = RecipeMakes::OneOf(vec![(Fixed(900), 1usize), (Fixed(100), 2usize)]);
    let trials = 10_000usize;
    let mut heavy = 0usize;
    for _ in 0..trials {
        let picked = makes.any();
        assert!(picked == 1 || picked == 2);
        if picked == 1 {
            heavy += 1;
        }
    }
    let share = heavy as f64 / trials as f64;
    assert!((0.85..0.95).contains(&share), "share {} strays too far", share);
}

#[test]
fn pick_weighted_selects_by_cumulative_window() {
    let ws = vec![3u64, 0, 2];
    assert_eq!(pick_weighted(&ws, 0), 0);
    assert_eq!(pick_weighted(&ws, 2), 0);
    assert_eq!(pick_weighted(&ws, 3), 2, "zero-weight entries are never picked");
    assert_eq!(pick_weighted(&ws, 4), 2);
}
