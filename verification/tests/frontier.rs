use benchmark_engine::frontier::{difficulty_for, pick_difficulty};
use benchmark_engine::records::{Block, ChallengeData, DifficultyBounds, SetupError, VmConfig};
use benchmark_engine::registry::Registry;
use rand::rngs::StdRng;
use rand::{Rng, SeedableRng};

fn text(value: &str) -> String {
    String::from(value)
}

fn block(bounds: &[(&str, [i32; 2], [i32; 2])]) -> Block {
    let mut difficulty_bounds = Registry::new();
    for (id, min_difficulty, max_difficulty) in bounds {
        difficulty_bounds.insert(
            text(id),
            DifficultyBounds { min_difficulty: *min_difficulty, max_difficulty: *max_difficulty },
        );
    }
    Block {
        id: text("block"),
        height: 10,
        difficulty_bounds,
        wasm_vm_config: VmConfig { max_memory: 1 << 20, max_fuel: 1 << 30 },
    }
}

fn challenge(id: &str, scaled_frontier: Vec<[i32; 2]>) -> ChallengeData {
    ChallengeData { id: text(id), num_qualifiers: 10, solution_signature_threshold: 77, scaled_frontier }
}

fn ten_points() -> Vec<[i32; 2]> {
    vec![
        [59, 10],
        [50, 19],
        [55, 14],
        [51, 18],
        [58, 11],
        [52, 17],
        [57, 12],
        [53, 16],
        [56, 13],
        [54, 15],
    ]
}

#[test]
fn difficulty_reads_each_axis_by_itself() {
    // Ten points: a fifth of the way up is place 2.
    let points = ten_points();
    assert_eq!(difficulty_for(&points, 0), Some(vec![52, 17]));
    assert_eq!(difficulty_for(&points, 1), Some(vec![53, 16]));
    assert_eq!(difficulty_for(&points, 2), Some(vec![54, 15]));
}

#[test]
fn difficulty_mixes_the_axes_of_different_points() {
    let points = vec![[1, 1], [2, 2], [3, 3], [4, 4], [5, 5]];
    // Place 1 of 5: the second least on the first axis, the second greatest
    // on the second.
    assert_eq!(difficulty_for(&points, 0), Some(vec![2, 4]));
    assert_eq!(difficulty_for(&points, 1), Some(vec![3, 3]));
    assert_eq!(difficulty_for(&points, 2), Some(vec![4, 2]));
}

#[test]
fn difficulty_stays_on_a_short_frontier() {
    assert_eq!(difficulty_for(&vec![[7, 9]], 0), Some(vec![7, 9]));
    assert_eq!(difficulty_for(&vec![[7, 9]], 2), Some(vec![7, 9]));
    assert_eq!(difficulty_for(&vec![[7, 9], [8, 3]], 0), Some(vec![7, 9]));
    assert_eq!(difficulty_for(&vec![[7, 9], [8, 3]], 1), Some(vec![8, 3]));
    assert_eq!(difficulty_for(&vec![[7, 9], [8, 3]], 2), Some(vec![8, 3]));
    assert_eq!(difficulty_for(&vec![[7, 9], [8, 3]], u32::MAX), Some(vec![8, 3]));
}

#[test]
fn difficulty_of_no_points_is_none() {
    assert_eq!(difficulty_for(&Vec::new(), 0), None);
}

#[test]
fn pick_draws_the_jitter_from_the_generator() {
    let block = block(&[("c001", [50, 10], [59, 19])]);
    let challenge = challenge("c001", ten_points());
    for seed in 0..20 {
        let mut rng = StdRng::seed_from_u64(seed);
        let mut twin = StdRng::seed_from_u64(seed);
        let picked = pick_difficulty(&mut rng, &block, &challenge).unwrap();
        // A draw of a signed number takes the same from the generator.
        let jitter: i32 = twin.gen_range(0..3);
        assert_eq!(Some(picked), difficulty_for(&challenge.scaled_frontier, jitter as u32));
        assert_eq!(rng, twin);
    }
}

#[test]
fn pick_stays_within_the_bounds() {
    let block = block(&[("c001", [50, 10], [59, 19])]);
    let challenge = challenge("c001", ten_points());
    for seed in 0..20 {
        let mut rng = StdRng::seed_from_u64(seed);
        let picked = pick_difficulty(&mut rng, &block, &challenge).unwrap();
        assert_eq!(picked.len(), 2);
        assert!(50 <= picked[0] && picked[0] <= 59);
        assert!(10 <= picked[1] && picked[1] <= 19);
    }
}

#[test]
fn pick_fails_without_bounds() {
    let block = block(&[("c002", [50, 10], [59, 19])]);
    let mut rng = StdRng::seed_from_u64(1);
    assert_eq!(
        pick_difficulty(&mut rng, &block, &challenge("c001", ten_points())),
        Err(SetupError::MissingDifficultyBounds { challenge_id: text("c001") })
    );
    assert_eq!(rng, StdRng::seed_from_u64(1));
}

#[test]
fn pick_fails_on_an_empty_frontier() {
    let block = block(&[("c001", [50, 10], [59, 19])]);
    let mut rng = StdRng::seed_from_u64(1);
    assert_eq!(
        pick_difficulty(&mut rng, &block, &challenge("c001", Vec::new())),
        Err(SetupError::EmptyFrontier { challenge_id: text("c001") })
    );
}

#[test]
fn pick_fails_on_a_point_outside_the_bounds() {
    let block = block(&[("c001", [50, 10], [58, 19])]);
    let mut rng = StdRng::seed_from_u64(1);
    assert_eq!(
        pick_difficulty(&mut rng, &block, &challenge("c001", ten_points())),
        Err(SetupError::FrontierOutsideBounds { challenge_id: text("c001") })
    );
    assert_eq!(rng, StdRng::seed_from_u64(1));
}

#[test]
fn bounds_hold_their_ends() {
    let bounds = DifficultyBounds { min_difficulty: [50, 10], max_difficulty: [59, 19] };
    assert!(bounds.contains(&[50, 10]));
    assert!(bounds.contains(&[59, 19]));
    assert!(!bounds.contains(&[49, 10]));
    assert!(!bounds.contains(&[59, 20]));
}
