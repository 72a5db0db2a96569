use zombs_engine::engine::components::BodyPartType;
use zombs_engine::game::{
    atlas_region, character_mesh_plan, distinct_deaths, run_score, wave_spawn_count,
    GameOverReport, MeshPiece,
    RunState, SpawnBudget, WaveAction, MAX_SCALED_WAVE,
};

#[test]
fn spawn_counts_follow_curve() {
    assert_eq!(wave_spawn_count(0), 4);
    assert_eq!(wave_spawn_count(1), 5);
    assert_eq!(wave_spawn_count(8), 19);
    assert_eq!(wave_spawn_count(9), 19);
    assert_eq!(wave_spawn_count(10), 21);
    assert_eq!(wave_spawn_count(100), 186);
    for w in 0..2000u32 {
        let expected = ((3 + w * 2) as f32 * (if w > 8 { 0.92 } else { 1.0 })) as u32;
        assert_eq!(wave_spawn_count(w), expected.max(4));
        assert!(wave_spawn_count(w + 1) >= wave_spawn_count(w));
    }
}

#[test]
fn spawn_curve_matches_single_precision_up_to_limit() {
    assert_eq!(MAX_SCALED_WAVE, 284_954);
    assert_eq!(wave_spawn_count(MAX_SCALED_WAVE), 524_318);
    for w in 0..=MAX_SCALED_WAVE {
        let expected = ((3 + w * 2) as f32 * (if w > 8 { 0.92 } else { 1.0 })) as u32;
        assert_eq!(wave_spawn_count(w), expected.max(4), "wave {}", w);
    }
}

#[test]
fn score_formula_and_saturation() {
    assert_eq!(run_score(0, 1), 80);
    assert_eq!(run_score(10, 3), 360);
    assert_eq!(run_score(u32::MAX, 1), u32::MAX);
    assert_eq!(run_score(1, u32::MAX / 80 + 1), u32::MAX);
    assert_eq!(run_score(357913941, 0), 4294967292);
}

#[test]
fn wave_step_decisions() {
    let mut run = RunState::new();
    assert_eq!(run.wave_step(3, true), WaveAction::HoldCooldown);
    assert_eq!(run.wave_step(0, false), WaveAction::CountDown);
    assert_eq!(run.wave, 1);
    assert_eq!(run.wave_step(0, true), WaveAction::Spawn { wave: 2, count: 7 });
    assert_eq!(run.wave, 2);
}

#[test]
fn game_over_reported_once() {
    let mut run = RunState::new();
    assert_eq!(run.game_over_report(5), None);
    run.observe_player_health(false);
    assert!(!run.player_dead);
    run.observe_player_health(true);
    run.observe_player_health(false);
    assert!(run.player_dead);
    assert_eq!(
        run.game_over_report(5),
        Some(GameOverReport { wave: 1, kills: 5, score: 140 })
    );
    assert_eq!(run.game_over_report(5), None);
    run.restart();
    assert_eq!(run, RunState::new());
    run.observe_player_health(true);
    assert!(run.game_over_report(0).is_some());
}

#[test]
fn spawn_budget_caps_attempts() {
    let mut b = SpawnBudget::new(2);
    assert_eq!(b.max_attempts, 20);
    let mut attempts = 0;
    while b.try_attempt() {
        attempts += 1;
    }
    assert_eq!(attempts, 20);
    assert_eq!(b.spawned, 0);

    let mut b = SpawnBudget::new(3);
    let mut tries = 0;
    while b.try_attempt() {
        tries += 1;
        if tries % 2 == 0 {
            b.record_spawn();
        }
    }
    assert_eq!(b.spawned, 3);
    assert_eq!(tries, 6);
}

#[test]
fn mesh_plan_textured() {
    let plan = character_mesh_plan(true);
    assert_eq!(plan.len(), 7);
    assert_eq!(plan[0].piece, MeshPiece::Torso);
    assert_eq!(plan[0].parent, None);
    assert_eq!(plan[1].piece, MeshPiece::Shadow);
    assert_eq!(plan[1].atlas, None);
    assert_eq!(plan[2].atlas, Some(atlas_region(BodyPartType::Head)));
    for (i, part) in plan.iter().enumerate().skip(1) {
        assert!(part.parent.unwrap() < i);
    }
    let r = atlas_region(BodyPartType::RightArm);
    assert_eq!((r.x, r.y, r.w, r.h, r.d), (40, 16, 4, 12, 4));
}

#[test]
fn mesh_plan_untextured() {
    let plan = character_mesh_plan(false);
    assert_eq!(plan.len(), 15);
    assert_eq!(plan[3].piece, MeshPiece::LeftEye);
    assert_eq!(plan[3].parent, Some(2));
    assert_eq!(plan[8].piece, MeshPiece::LeftHand);
    assert_eq!(plan[8].parent, Some(7));
    assert_eq!(plan[14].piece, MeshPiece::RightFoot);
    assert_eq!(plan[14].parent, Some(13));
    assert!(plan.iter().all(|p| p.atlas.is_none()));
    let legs = plan.iter().filter(|p| p.body_part == Some(BodyPartType::LeftLeg)).count();
    assert_eq!(legs, 1);
}

#[test]
fn score_never_drops_with_more_kills_or_waves() {
    let mut last = 0;
    for k in 0..50u32 {
        let s = run_score(k, 3);
        assert!(s >= last);
        assert!(run_score(k, 4) >= s);
        last = s;
    }
}

#[test]
fn zombob_hit_twice_dies_once() {
    assert_eq!(distinct_deaths(&vec![7, 3, 7, 7, 9, 3]), vec![7, 3, 9]);
    assert_eq!(distinct_deaths(&vec![5]), vec![5]);
    assert!(distinct_deaths(&vec![]).is_empty());
}
