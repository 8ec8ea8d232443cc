use benchmark_engine::baseline::{greedy_baseline, raise, sum};
use benchmark_engine::contract::{ChallengeTrait, DifficultyTrait, SolutionTrait};
use benchmark_engine::knapsack::{
    Challenge, Difficulty, InstanceError, Solution, VerifyError, ITEM_BOUND, MAX_ITEMS,
};
use rand::rngs::StdRng;
use rand::{Rng, SeedableRng};

fn difficulty(num_items: usize, better_than_baseline: u32) -> Difficulty {
    Difficulty { num_items, better_than_baseline }
}

fn instance(weights: Vec<u32>, values: Vec<u32>, better_than_baseline: u32) -> Challenge {
    let difficulty = difficulty(weights.len(), better_than_baseline);
    Challenge::from_items(7, difficulty, weights, values).unwrap()
}

fn select(items: &[usize]) -> Solution {
    Solution { items: items.to_vec() }
}

/// The baseline as floating point computes it: a stable sort by falling
/// ratio, then a fill that skips what does not fit.
fn baseline_by_floats(weights: &[u32], values: &[u32], max_weight: u32) -> u32 {
    let mut order: Vec<usize> = (0..weights.len()).collect();
    order.sort_by(|&a, &b| {
        let ratio_a = values[a] as f64 / weights[a] as f64;
        let ratio_b = values[b] as f64 / weights[b] as f64;
        ratio_b.partial_cmp(&ratio_a).unwrap()
    });
    let mut total_weight = 0;
    let mut total_value = 0;
    for &item in &order {
        if total_weight + weights[item] > max_weight {
            continue;
        }
        total_value += values[item];
        total_weight += weights[item];
    }
    total_value
}

/// Generates twice and checks one solution, through the contract alone.
fn generate_twice_and_verify<C, T, U>(seed: u32, difficulty: &U, solution: &T) -> (bool, bool)
where
    C: ChallengeTrait<T, U, 2> + PartialEq,
    T: SolutionTrait,
    U: DifficultyTrait<2>,
{
    let first = C::generate_instance(seed, difficulty).ok().unwrap();
    let second = C::generate_instance(seed, difficulty).ok().unwrap();
    (first == second, first.verify_solution(solution).is_ok())
}

#[test]
fn contract_serves_the_knapsack() {
    let difficulty = Difficulty::from_arr(&[5, 100]);
    assert_eq!(
        generate_twice_and_verify::<Challenge, _, _>(42, &difficulty, &select(&[0, 1, 4])),
        (true, false)
    );
    // Items 0, 1 and 4 are the baseline of 118, short of the 130 required;
    // item 2 in place of item 4 weighs 47 and is worth 99.
    assert_eq!(
        generate_twice_and_verify::<Challenge, _, _>(42, &difficulty, &select(&[0, 1, 2])),
        (true, false)
    );
    let instance = Challenge::generate_instance(42, &difficulty).unwrap();
    assert_eq!(
        instance.verify_solution(&select(&[0, 1, 4])),
        Err(VerifyError::TooCheap { total_value: 118, min_value: 130 })
    );
}

#[test]
fn difficulty_round_trips_through_its_axes() {
    let difficulty = Difficulty::from_arr(&[50, 10]);
    assert_eq!(difficulty.num_items, 50);
    assert_eq!(difficulty.better_than_baseline, 10);
    assert_eq!(difficulty.to_arr(), [50, 10]);
}

#[test]
fn difficulty_wraps_a_negative_axis() {
    let difficulty = Difficulty::from_arr(&[3, -1]);
    assert_eq!(difficulty.num_items, 3);
    assert_eq!(difficulty.better_than_baseline, u32::MAX);
    assert_eq!(difficulty.to_arr(), [3, -1]);
}

#[test]
fn generation_repeats_for_the_same_seed_and_difficulty() {
    let first = Challenge::generate_instance(42, &difficulty(40, 25)).unwrap();
    let second = Challenge::generate_instance(42, &difficulty(40, 25)).unwrap();
    assert_eq!(first, second);
}

#[test]
fn generation_differs_between_seeds() {
    let first = Challenge::generate_instance(1, &difficulty(40, 25)).unwrap();
    let second = Challenge::generate_instance(2, &difficulty(40, 25)).unwrap();
    assert_ne!(first.weights, second.weights);
}

#[test]
fn generation_draws_weights_then_values_from_the_seeded_generator() {
    let challenge = Challenge::generate_instance(42, &difficulty(5, 100)).unwrap();
    let mut rng = StdRng::seed_from_u64(42);
    let weights: Vec<u32> = (0..5).map(|_| rng.gen_range(1..50)).collect();
    let values: Vec<u32> = (0..5).map(|_| rng.gen_range(1..50)).collect();
    assert_eq!(challenge.weights, weights);
    assert_eq!(challenge.values, values);
    assert_eq!(challenge.seed, 42);
    assert_eq!(challenge.difficulty, difficulty(5, 100));
}

#[test]
fn generation_of_seed_42_with_five_items() {
    let challenge = Challenge::generate_instance(42, &difficulty(5, 100)).unwrap();
    assert_eq!(challenge.weights, vec![7, 13, 27, 43, 32]);
    assert_eq!(challenge.values, vec![49, 48, 2, 31, 21]);
    // Half of 122. By falling ratio the items come as 0, 1, 3, 4, 2; items
    // 3 and 2 do not fit, so the baseline is 49 + 48 + 21 = 118, and a
    // tenth more is 129.8.
    assert_eq!(challenge.max_weight, 61);
    assert_eq!(challenge.min_value, 130);
    assert!(challenge.weights.iter().all(|&weight| 1 <= weight && weight < ITEM_BOUND));
    assert!(challenge.values.iter().all(|&value| 1 <= value && value < ITEM_BOUND));
    let total: u32 = challenge.weights.iter().sum();
    assert_eq!(challenge.max_weight, total / 2);
    let baseline = baseline_by_floats(&challenge.weights, &challenge.values, challenge.max_weight);
    assert_eq!(challenge.min_value, (baseline as f64 * 1.1).round() as u32);

    let all = select(&[0, 1, 2, 3, 4]);
    assert_eq!(
        challenge.verify_solution(&all),
        Err(VerifyError::TooHeavy { total_weight: total as u128, max_weight: total / 2 })
    );
}

#[test]
fn generation_agrees_with_the_baseline_by_floats() {
    for seed in 0..50 {
        let challenge = Challenge::generate_instance(seed, &difficulty(60, 0)).unwrap();
        let baseline =
            baseline_by_floats(&challenge.weights, &challenge.values, challenge.max_weight);
        assert_eq!(challenge.min_value, baseline);
        assert!(challenge.is_well_formed());
    }
}

#[test]
fn generation_refuses_too_many_items() {
    assert_eq!(
        Challenge::generate_instance(1, &difficulty(MAX_ITEMS + 1, 0)),
        Err(InstanceError::TooManyItems { num_items: MAX_ITEMS + 1 })
    );
}

#[test]
fn generation_of_no_items() {
    let challenge = Challenge::generate_instance(9, &difficulty(0, 500)).unwrap();
    assert_eq!(challenge.weights, Vec::<u32>::new());
    assert_eq!(challenge.values, Vec::<u32>::new());
    assert_eq!(challenge.max_weight, 0);
    assert_eq!(challenge.min_value, 0);
    assert_eq!(challenge.verify_solution(&select(&[])), Ok(()));
}

#[test]
fn capacity_is_half_the_weights_rounded_down() {
    assert_eq!(instance(vec![10, 20, 30], vec![60, 100, 120], 0).max_weight, 30);
    assert_eq!(instance(vec![5, 9, 3], vec![50, 81, 3], 0).max_weight, 8);
    assert_eq!(sum(&vec![5, 9, 3]), 17);
}

#[test]
fn baseline_fills_by_falling_ratio() {
    // Ratios 6, 5 and 4: the first two items fill the capacity of 30.
    assert_eq!(greedy_baseline(&vec![10, 20, 30], &vec![60, 100, 120], 30), 160);
    assert_eq!(instance(vec![10, 20, 30], vec![60, 100, 120], 0).min_value, 160);
    // The same items in another order give the same baseline.
    assert_eq!(greedy_baseline(&vec![30, 10, 20], &vec![120, 60, 100], 30), 160);
}

#[test]
fn baseline_passes_over_what_does_not_fit_and_goes_on() {
    // Ratios 10, 9 and 1 under a capacity of 8: the second item does not
    // fit behind the first, the third still does.
    assert_eq!(greedy_baseline(&vec![5, 9, 3], &vec![50, 81, 3], 8), 53);
    assert_eq!(instance(vec![5, 9, 3], vec![50, 81, 3], 0).min_value, 53);
}

#[test]
fn baseline_tries_equal_ratios_in_order_of_index() {
    // Both items have ratio 2 and only one fits: the earlier one goes in.
    assert_eq!(greedy_baseline(&vec![4, 3], &vec![8, 6], 4), 8);
    assert_eq!(greedy_baseline(&vec![3, 4], &vec![6, 8], 4), 6);
}

/// The required value as floating point computes it.
fn raised_by_floats(baseline: u32, bonus: u32) -> u32 {
    (baseline as f64 * (1.0 + bonus as f64 / 1000.0)).round() as u32
}

#[test]
fn required_value_raises_the_baseline_by_thousandths() {
    assert_eq!(raise(160, 0), 160);
    assert_eq!(raise(160, 100), 176);
    assert_eq!(raise(100, 1000), 200);
    assert_eq!(raise(5, 80), 5);
    assert_eq!(raise(5, 120), 6);
    assert_eq!(raise(0, 4000), 0);
    assert_eq!(instance(vec![10, 20, 30], vec![60, 100, 120], 100).min_value, 176);
}

#[test]
fn required_value_breaks_a_half_as_binary64_does() {
    // 5.5 exactly: the product reaches the half.
    assert_eq!(raise(5, 100), 6);
    assert_eq!(raised_by_floats(5, 100), 6);
    // 500.5 exactly: the factor 1.001 is rounded down, and the product
    // falls short of the half.
    assert_eq!(raise(500, 1), 500);
    assert_eq!(raised_by_floats(500, 1), 500);
    // 1105.5 and 2110.5 exactly, under the same factor 1.005: the first
    // product falls short of the half, the second reaches it.
    assert_eq!(raise(1100, 5), 1105);
    assert_eq!(raised_by_floats(1100, 5), 1105);
    assert_eq!(raise(2100, 5), 2111);
    assert_eq!(raised_by_floats(2100, 5), 2111);
}

#[test]
fn required_value_agrees_with_floating_point_on_small_numbers() {
    for bonus in 0..=1500 {
        for baseline in 0..4000 {
            assert_eq!(raise(baseline as u128, bonus), raised_by_floats(baseline, bonus));
        }
    }
}

#[test]
fn required_value_agrees_with_floating_point_on_halves() {
    // With an odd bonus, every baseline of 500 more than a thousand's
    // multiple is raised to a half.
    let mut bonus = 1;
    while bonus < 4_000_000 {
        let mut baseline: u32 = 500;
        while baseline < 4_000_000_000 {
            assert_eq!(raise(baseline as u128, bonus), raised_by_floats(baseline, bonus));
            baseline += 7_919_000;
        }
        bonus = bonus * 3 + 2;
    }
    for bonus in [250, 750, 1250, 2750] {
        for baseline in [2, 6, 10, 1_000_002, 3_999_999_998u32] {
            assert_eq!(raise(baseline as u128, bonus), raised_by_floats(baseline, bonus));
        }
    }
}

#[test]
fn required_value_agrees_with_floating_point_on_any_numbers() {
    let mut state: u64 = 0x9E37_79B9_7F4A_7C15;
    for _ in 0..200_000 {
        state = state.wrapping_mul(6364136223846793005).wrapping_add(1442695040888963407);
        let baseline = (state >> 32) as u32 >> ((state >> 8) % 32);
        state = state.wrapping_mul(6364136223846793005).wrapping_add(1442695040888963407);
        let bonus = (state >> 32) as u32 >> ((state >> 8) % 32);
        assert_eq!(raise(baseline as u128, bonus), raised_by_floats(baseline, bonus));
    }
}

#[test]
fn required_value_stops_at_the_greatest_number() {
    assert_eq!(raise(u32::MAX as u128, 0), u32::MAX);
    assert_eq!(raise(u32::MAX as u128, 1), u32::MAX);
    assert_eq!(raise(u32::MAX as u128 + 5, 0), u32::MAX);
    assert_eq!(raise(3_000_000_000, 1000), u32::MAX);
    assert_eq!(raise(2_000_000_000, 1000), 4_000_000_000);
}

#[test]
fn instance_needs_as_many_items_as_the_difficulty_says() {
    assert_eq!(
        Challenge::from_items(1, difficulty(3, 0), vec![1, 2], vec![1, 2, 3]),
        Err(InstanceError::ItemCountMismatch)
    );
    assert_eq!(
        Challenge::from_items(1, difficulty(3, 0), vec![1, 2, 3], vec![1, 2]),
        Err(InstanceError::ItemCountMismatch)
    );
}

#[test]
fn instance_needs_a_capacity_that_can_be_stored() {
    let heavy = vec![u32::MAX, u32::MAX, u32::MAX];
    assert_eq!(
        Challenge::from_items(1, difficulty(3, 0), heavy, vec![1, 1, 1]),
        Err(InstanceError::CapacityOverflow)
    );
    let challenge =
        Challenge::from_items(1, difficulty(2, 0), vec![u32::MAX, u32::MAX], vec![1, 1]).unwrap();
    assert_eq!(challenge.max_weight, u32::MAX);
}

#[test]
fn verification_accepts_a_feasible_selection() {
    let challenge = instance(vec![10, 20, 30], vec![60, 100, 120], 0);
    assert_eq!(challenge.verify_solution(&select(&[0, 1])), Ok(()));
    assert_eq!(challenge.verify_solution(&select(&[1, 0])), Ok(()));
}

#[test]
fn verification_rejects_a_duplicate_item() {
    let challenge = instance(vec![10, 20, 30], vec![60, 100, 120], 0);
    assert_eq!(challenge.verify_solution(&select(&[0, 1, 0])), Err(VerifyError::DuplicateItems));
    // A duplicate is reported before an item out of bounds.
    assert_eq!(challenge.verify_solution(&select(&[9, 9])), Err(VerifyError::DuplicateItems));
}

#[test]
fn verification_rejects_an_item_out_of_bounds() {
    let challenge = instance(vec![10, 20, 30], vec![60, 100, 120], 0);
    assert_eq!(
        challenge.verify_solution(&select(&[0, 3])),
        Err(VerifyError::ItemOutOfBounds { item: 3 })
    );
    assert_eq!(
        challenge.verify_solution(&select(&[7, 1, 5])),
        Err(VerifyError::ItemOutOfBounds { item: 7 })
    );
}

#[test]
fn verification_rejects_too_much_weight() {
    let challenge = instance(vec![10, 20, 30], vec![60, 100, 120], 0);
    assert_eq!(
        challenge.verify_solution(&select(&[1, 2])),
        Err(VerifyError::TooHeavy { total_weight: 50, max_weight: 30 })
    );
}

#[test]
fn verification_rejects_too_little_value() {
    let challenge = instance(vec![10, 20, 30], vec![60, 100, 120], 0);
    assert_eq!(
        challenge.verify_solution(&select(&[2])),
        Err(VerifyError::TooCheap { total_value: 120, min_value: 160 })
    );
    assert_eq!(
        challenge.verify_solution(&select(&[])),
        Err(VerifyError::TooCheap { total_value: 0, min_value: 160 })
    );
}

#[test]
fn verification_holds_weight_before_value() {
    let challenge = instance(vec![10, 20, 30], vec![1, 1, 1], 0);
    assert_eq!(challenge.max_weight, 30);
    assert_eq!(
        challenge.verify_solution(&select(&[0, 1, 2])),
        Err(VerifyError::TooHeavy { total_weight: 60, max_weight: 30 })
    );
}

#[test]
fn verification_counts_only_items_with_weight_and_value() {
    let mut challenge = instance(vec![10, 20, 30], vec![60, 100, 120], 0);
    challenge.values.pop();
    assert_eq!(challenge.item_count(), 2);
    assert_eq!(
        challenge.verify_solution(&select(&[0, 2])),
        Err(VerifyError::ItemOutOfBounds { item: 2 })
    );
    assert_eq!(challenge.verify_solution(&select(&[0, 1])), Ok(()));
}

#[test]
fn well_formedness_is_about_the_item_counts() {
    let mut challenge = instance(vec![10, 20, 30], vec![60, 100, 120], 0);
    assert!(challenge.is_well_formed());
    challenge.values.pop();
    assert!(!challenge.is_well_formed());
}
