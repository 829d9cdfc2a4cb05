use craft_dfs::default_catalog;
use craft_dfs::dfs_search;
use craft_dfs::new_status;
use craft_dfs::rlv_to_job_level;
use craft_dfs::try_dfs_search;
use craft_dfs::Score;
use ffxiv_crafting::Skills;
use ffxiv_crafting::Status;

fn fresh_status(progress: i32, quality: i32, durability: i32) -> Status {
    new_status(80, 2000, 2000, 500, 480, 80, progress, quality, durability, 15)
}

fn wide_catalog() -> Vec<Skills> {
    vec![
        Skills::MuscleMemory,
        Skills::Reflect,
        Skills::BasicSynthesis,
        Skills::CarefulSynthesis,
        Skills::DelicateSynthesis,
        Skills::BasicTouch,
        Skills::StandardTouch,
        Skills::MastersMend,
        Skills::InnerQuiet,
    ]
}

/// The score a state is worth, mirrored from the documented model: quality
/// capped at the recipe's target once progress is met, zero before; one
/// step per action applied.
fn expected_score(s: &Status, actions_applied: i32) -> Score {
    let quality = if s.progress >= s.recipe.progress {
        s.quality.min(s.recipe.quality)
    } else {
        0
    };
    Score { quality, steps: actions_applied }
}

/// Enumerate every legal rotation of at most `budget` actions in catalog
/// order, without any pruning, and keep the strictly best score.
fn brute_force_best(s: &Status, depth: i32, budget: i32, catalog: &[Skills], best: &mut Score) {
    let score = expected_score(s, depth);
    let wins = score.quality > best.quality
        || (score.quality == best.quality && score.steps < best.steps);
    if wins {
        *best = score;
    }
    if depth >= budget {
        return;
    }
    for &sk in catalog {
        if s.is_action_allowed(sk).is_ok() {
            let mut t = *s;
            t.cast_action(sk);
            brute_force_best(&t, depth + 1, budget, catalog, best);
        }
    }
}

#[test]
fn scenario_zero_depth_keeps_baseline() {
    let status = fresh_status(9000, 9000, 70);
    let (rotation, best) = dfs_search(&status, 0, &wide_catalog());
    assert!(rotation.is_empty());
    assert_eq!(best, Score { quality: 0, steps: 0 });
    assert_eq!(best, Score::from_status(&status));
}

#[test]
fn scenario_zero_targets_keeps_empty_rotation() {
    let status = fresh_status(0, 0, 70);
    assert!(status.progress >= status.recipe.progress);
    let (rotation, best) = dfs_search(&status, 6, &wide_catalog());
    assert!(rotation.is_empty());
    assert_eq!(best, Score { quality: 0, steps: 0 });
}

#[test]
fn scenario_unreachable_progress_never_leaves_baseline() {
    let status = fresh_status(9000, 9000, 70);
    let catalog = vec![Skills::BasicTouch];
    let (rotation, best) = dfs_search(&status, 4, &catalog);
    assert!(rotation.is_empty());
    assert_eq!(best, Score { quality: 0, steps: 0 });
}

#[test]
fn quality_only_counts_once_progress_is_met() {
    let fresh = fresh_status(9000, 9000, 70);
    assert_eq!(Score::from_status(&fresh), Score { quality: 0, steps: 0 });

    let mut touched = fresh;
    touched.cast_action(Skills::BasicTouch);
    assert!(touched.quality > 0);
    assert_eq!(Score::from_status(&touched).quality, 0);
    assert_eq!(Score::from_status(&touched).steps, 1);

    let mut done = fresh_status(1, 100, 70);
    done.cast_action(Skills::BasicTouch);
    done.cast_action(Skills::BasicSynthesis);
    assert!(done.progress >= done.recipe.progress);
    assert_eq!(
        Score::from_status(&done),
        Score { quality: done.quality.min(done.recipe.quality), steps: done.step }
    );
}

#[test]
fn finds_touch_then_synthesis_on_easy_recipe() {
    let status = fresh_status(1, 5000, 70);
    let catalog = vec![Skills::BasicSynthesis, Skills::BasicTouch];
    let (rotation, best) = dfs_search(&status, 3, &catalog);

    let mut replayed = status;
    for &sk in &rotation {
        assert!(replayed.is_action_allowed(sk).is_ok());
        replayed.cast_action(sk);
    }
    assert_eq!(best, expected_score(&replayed, rotation.len() as i32));
    assert!(best.quality > 0);

    let mut expected = status;
    expected.cast_action(Skills::BasicTouch);
    expected.cast_action(Skills::BasicTouch);
    expected.cast_action(Skills::BasicSynthesis);
    assert_eq!(best.quality, expected.quality.min(expected.recipe.quality));
    assert_eq!(best.steps, 3);
    assert_eq!(
        format!("{:?}", rotation),
        format!("{:?}", vec![Skills::BasicTouch, Skills::BasicTouch, Skills::BasicSynthesis])
    );
}

#[test]
fn matches_unpruned_exhaustive_search() {
    let status = fresh_status(600, 3000, 40);
    let catalog = vec![Skills::BasicSynthesis, Skills::BasicTouch, Skills::MastersMend];
    let (_, best) = dfs_search(&status, 3, &catalog);
    let mut brute = expected_score(&status, 0);
    brute_force_best(&status, 0, 3, &catalog, &mut brute);
    assert_eq!(best, brute);
}

#[test]
fn identical_inputs_give_identical_results() {
    let status = fresh_status(600, 3000, 70);
    let catalog = wide_catalog();
    let (rotation_a, best_a) = dfs_search(&status, 3, &catalog);
    let (rotation_b, best_b) = dfs_search(&status, 3, &catalog);
    assert_eq!(best_a, best_b);
    assert_eq!(format!("{:?}", rotation_a), format!("{:?}", rotation_b));
}

#[test]
fn rotation_length_stays_within_budget() {
    let status = fresh_status(600, 3000, 70);
    let catalog = wide_catalog();
    for depth in 0..4 {
        let (rotation, _) = dfs_search(&status, depth, &catalog);
        assert!(rotation.len() as i32 <= depth);
    }
}

#[test]
fn score_order_prefers_quality_then_fewer_steps() {
    assert!(Score { quality: 10, steps: 9 }.beats(Score { quality: 9, steps: 1 }));
    assert!(Score { quality: 10, steps: 2 }.beats(Score { quality: 10, steps: 3 }));
    assert!(!Score { quality: 10, steps: 3 }.beats(Score { quality: 10, steps: 2 }));
    assert!(!Score { quality: 10, steps: 3 }.beats(Score { quality: 10, steps: 3 }));
    assert!(!Score { quality: 9, steps: 1 }.beats(Score { quality: 10, steps: 9 }));
}

#[test]
fn checked_search_rejects_bad_inputs() {
    let status = fresh_status(600, 3000, 70);
    let catalog = wide_catalog();
    assert!(try_dfs_search(&status, -1, &catalog).is_none());
    assert!(try_dfs_search(&status, i32::MAX, &catalog).is_none());
    let negative_quality = fresh_status(600, -5, 70);
    assert!(try_dfs_search(&negative_quality, 2, &catalog).is_none());
    let level_above_table = new_status(90, 2000, 2000, 500, 480, 80, 600, 3000, 70, 15);
    assert!(try_dfs_search(&level_above_table, 2, &catalog).is_none());
    let (rotation, best) = try_dfs_search(&status, 2, &catalog).unwrap();
    let (rotation_direct, best_direct) = dfs_search(&status, 2, &catalog);
    assert_eq!(best, best_direct);
    assert_eq!(format!("{:?}", rotation), format!("{:?}", rotation_direct));
}

#[test]
fn job_level_table_matches_known_breakpoints() {
    assert_eq!(rlv_to_job_level(1), 1);
    assert_eq!(rlv_to_job_level(49), 49);
    assert_eq!(rlv_to_job_level(50), 50);
    assert_eq!(rlv_to_job_level(114), 50);
    assert_eq!(rlv_to_job_level(115), 51);
    assert_eq!(rlv_to_job_level(288), 69);
    assert_eq!(rlv_to_job_level(289), 69);
    assert_eq!(rlv_to_job_level(290), 70);
    assert_eq!(rlv_to_job_level(429), 79);
    assert_eq!(rlv_to_job_level(430), 80);
    assert_eq!(rlv_to_job_level(520), 80);
}

#[test]
fn default_catalog_searches_and_has_the_advertised_size() {
    let catalog = default_catalog();
    assert_eq!(catalog.len(), 24);
    let status = fresh_status(600, 3000, 70);
    let (rotation, best) = try_dfs_search(&status, 2, &catalog).unwrap();
    assert!(rotation.len() <= 2);
    let mut brute = expected_score(&status, 0);
    brute_force_best(&status, 0, 2, &catalog, &mut brute);
    assert_eq!(best, brute);
}

#[test]
fn zero_depth_stays_empty_even_when_one_action_would_score() {
    let status = fresh_status(1, 5000, 70);
    let catalog = vec![Skills::DelicateSynthesis];
    let (rotation, best) = dfs_search(&status, 0, &catalog);
    assert!(rotation.is_empty());
    assert_eq!(best, Score::from_status(&status));
    let (rotation_deeper, best_deeper) = dfs_search(&status, 1, &catalog);
    assert_eq!(rotation_deeper.len(), 1);
    assert!(best_deeper.quality > 0);
}
