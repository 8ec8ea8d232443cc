use benchmark_engine::fairness::{challenge_candidates, pick_challenge, Candidate};
use benchmark_engine::records::{ChallengeData, PlayerBlockData, SetupError};
use benchmark_engine::registry::Registry;

fn text(value: &str) -> String {
    String::from(value)
}

fn challenge(id: &str, num_qualifiers: u32) -> ChallengeData {
    ChallengeData {
        id: text(id),
        num_qualifiers,
        solution_signature_threshold: 1000,
        scaled_frontier: vec![[1, 2]],
    }
}

fn assigned(ids: &[&str]) -> Registry<String> {
    let mut registry = Registry::new();
    for id in ids {
        registry.insert(text(id), format!("{}_a001", id));
    }
    registry
}

fn player(qualifiers: &[(&str, u32)]) -> Option<PlayerBlockData> {
    let mut registry = Registry::new();
    for (id, count) in qualifiers {
        registry.insert(text(id), *count);
    }
    Some(PlayerBlockData { num_qualifiers_by_challenge: Some(registry) })
}

/// The weight as floating point computes it.
fn weight(candidate: &Candidate) -> f64 {
    let share = if candidate.player_qualifiers == 0 || candidate.total_qualifiers == 0 {
        0f64
    } else {
        candidate.player_qualifiers as f64 / candidate.total_qualifiers as f64
    };
    1f64 - share + 1e-10f64
}

#[test]
fn candidates_are_the_challenges_with_an_algorithm() {
    let challenges = vec![challenge("c001", 100), challenge("c002", 50), challenge("c003", 10)];
    let candidates = challenge_candidates(
        &player(&[("c001", 20), ("c002", 50)]),
        &challenges,
        &assigned(&["c003", "c001"]),
    );
    assert_eq!(
        candidates,
        Ok(vec![
            Candidate { challenge: 0, player_qualifiers: 20, total_qualifiers: 100 },
            Candidate { challenge: 2, player_qualifiers: 0, total_qualifiers: 10 },
        ])
    );
}

#[test]
fn candidates_count_no_qualifiers_without_player_data() {
    let challenges = vec![challenge("c001", 100)];
    let expected =
        Ok(vec![Candidate { challenge: 0, player_qualifiers: 0, total_qualifiers: 100 }]);
    assert_eq!(challenge_candidates(&None, &challenges, &assigned(&["c001"])), expected);
    let unknown = Some(PlayerBlockData { num_qualifiers_by_challenge: None });
    assert_eq!(challenge_candidates(&unknown, &challenges, &assigned(&["c001"])), expected);
}

#[test]
fn candidates_skip_an_algorithm_for_an_unknown_challenge() {
    let challenges = vec![challenge("c001", 100)];
    let candidates = challenge_candidates(&None, &challenges, &assigned(&["c009", "c001"]));
    assert_eq!(
        candidates,
        Ok(vec![Candidate { challenge: 0, player_qualifiers: 0, total_qualifiers: 100 }])
    );
}

#[test]
fn no_candidates_is_an_error() {
    let challenges = vec![challenge("c001", 100)];
    assert_eq!(
        challenge_candidates(&None, &challenges, &assigned(&[])),
        Err(SetupError::NoCandidates)
    );
    assert_eq!(
        challenge_candidates(&None, &Vec::new(), &assigned(&["c001"])),
        Err(SetupError::NoCandidates)
    );
}

#[test]
fn more_player_qualifiers_than_qualifiers_is_an_error() {
    let challenges = vec![challenge("c001", 100), challenge("c002", 50), challenge("c003", 5)];
    let candidates = challenge_candidates(
        &player(&[("c002", 51), ("c003", 9)]),
        &challenges,
        &assigned(&["c001", "c002", "c003"]),
    );
    assert_eq!(candidates, Err(SetupError::InvalidWeight { challenge_id: text("c002") }));
}

#[test]
fn weight_is_positive_up_to_all_qualifiers() {
    let candidate =
        |player_qualifiers, total_qualifiers| Candidate { challenge: 0, player_qualifiers, total_qualifiers };
    assert!(candidate(0, 0).has_weight());
    assert!(candidate(7, 0).has_weight());
    assert!(candidate(0, 7).has_weight());
    assert!(candidate(7, 7).has_weight());
    assert!(!candidate(8, 7).has_weight());
    assert!(candidate(u32::MAX, u32::MAX).has_weight());
    assert!(!candidate(u32::MAX, u32::MAX - 1).has_weight());
    for candidate in [candidate(0, 0), candidate(7, 0), candidate(7, 7), candidate(8, 7)] {
        assert_eq!(candidate.has_weight(), weight(&candidate) > 0.0);
    }
    assert!(weight(&candidate(u32::MAX, u32::MAX - 1)) < 0.0);
}

#[test]
fn weight_is_one_less_the_share_plus_the_raise() {
    let unit: i128 = 10_000_000_000;
    let candidate =
        |player_qualifiers, total_qualifiers| Candidate { challenge: 0, player_qualifiers, total_qualifiers };
    // One less a fifth, plus a ten-thousand-millionth.
    assert_eq!(candidate(20, 100).weight(), (80 * unit + 100, 100 * unit));
    // No share where either number is zero.
    assert_eq!(candidate(0, 100).weight(), (unit + 1, unit));
    assert_eq!(candidate(20, 0).weight(), (unit + 1, unit));
    assert_eq!(candidate(0, 0).weight(), (unit + 1, unit));
    // All qualifiers are the player's: the raise is all that is left.
    assert_eq!(candidate(100, 100).weight(), (100, 100 * unit));
    assert_eq!(candidate(101, 100).weight(), (100 - unit, 100 * unit));
    for candidate in [candidate(20, 100), candidate(0, 7), candidate(7, 7), candidate(3, 0)] {
        let (numerator, denominator) = candidate.weight();
        let exact = numerator as f64 / denominator as f64;
        assert!((exact - weight(&candidate)).abs() < 1e-15);
    }
}

#[test]
fn fewer_player_qualifiers_weigh_more_exactly() {
    let candidate =
        |player_qualifiers, total_qualifiers| Candidate { challenge: 0, player_qualifiers, total_qualifiers };
    for total in [1, 2, 100, 1_000_000] {
        for (fewer, more) in [(0, 1), (1, 2), (0, total), (total - 1, total), (total, 2_000_000)] {
            if fewer < more {
                let (light_n, light_d) = candidate(more, total).weight();
                let (heavy_n, heavy_d) = candidate(fewer, total).weight();
                assert!(heavy_n * light_d > light_n * heavy_d);
            }
        }
    }
}

#[test]
fn fewer_player_qualifiers_weigh_more() {
    let challenges = vec![challenge("c001", 100), challenge("c002", 100), challenge("c003", 100)];
    let candidates = challenge_candidates(
        &player(&[("c001", 20), ("c002", 21), ("c003", 0)]),
        &challenges,
        &assigned(&["c001", "c002", "c003"]),
    )
    .unwrap();
    assert!(weight(&candidates[0]) > weight(&candidates[1]));
    assert!(weight(&candidates[2]) > weight(&candidates[0]));
    assert_eq!(weight(&candidates[2]), 1f64 + 1e-10f64);
    assert_eq!(weight(&candidates[0]), 1f64 - 0.2f64 + 1e-10f64);
}

#[test]
fn pick_returns_the_drawn_candidate() {
    let challenges = vec![challenge("c001", 100), challenge("c002", 50), challenge("c003", 10)];
    let algorithms = assigned(&["c001", "c003"]);
    assert_eq!(pick_challenge(&None, &challenges, &algorithms, 0), Ok(&challenges[0]));
    assert_eq!(pick_challenge(&None, &challenges, &algorithms, 1), Ok(&challenges[2]));
    for drawn in 0..2 {
        let picked = pick_challenge(&None, &challenges, &algorithms, drawn).unwrap();
        assert!(algorithms.contains(&picked.id));
    }
}

#[test]
fn pick_fails_on_a_draw_past_the_candidates() {
    let challenges = vec![challenge("c001", 100), challenge("c002", 50)];
    assert_eq!(
        pick_challenge(&None, &challenges, &assigned(&["c001"]), 1),
        Err(SetupError::SelectedChallengeMissing { drawn: 1 })
    );
}

#[test]
fn pick_fails_as_the_candidates_do() {
    let challenges = vec![challenge("c001", 100)];
    assert_eq!(
        pick_challenge(&None, &challenges, &assigned(&[]), 0),
        Err(SetupError::NoCandidates)
    );
    assert_eq!(
        pick_challenge(&player(&[("c001", 101)]), &challenges, &assigned(&["c001"]), 0),
        Err(SetupError::InvalidWeight { challenge_id: text("c001") })
    );
}
