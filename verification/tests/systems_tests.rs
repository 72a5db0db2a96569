use zombs_engine::engine::components::{BodyPartType, Weapon};
use zombs_engine::engine::input::InputState;
use zombs_engine::engine::systems::{
    limb_pose, move_axes, player_controls, LimbPose, MoveAxes, SwingPhase,
};

#[test]
fn poses() {
    assert_eq!(limb_pose(BodyPartType::RightArm, true, true), LimbPose::Aim);
    assert_eq!(limb_pose(BodyPartType::RightArm, true, false), LimbPose::Aim);
    assert_eq!(
        limb_pose(BodyPartType::LeftArm, true, true),
        LimbPose::Swing { phase: SwingPhase::Lead, reset_forward: false }
    );
    assert_eq!(
        limb_pose(BodyPartType::RightArm, false, true),
        LimbPose::Swing { phase: SwingPhase::Trail, reset_forward: true }
    );
    assert_eq!(
        limb_pose(BodyPartType::LeftLeg, false, true),
        LimbPose::Swing { phase: SwingPhase::Trail, reset_forward: false }
    );
    assert_eq!(limb_pose(BodyPartType::Head, false, true), LimbPose::Keep);
    assert_eq!(limb_pose(BodyPartType::Torso, true, false), LimbPose::Rest { reset_forward: false });
    assert_eq!(limb_pose(BodyPartType::RightArm, false, false), LimbPose::Rest { reset_forward: true });
}

#[test]
fn axes_cancel() {
    let mut input = InputState::new();
    assert_eq!(move_axes(&input), MoveAxes { forward: 0, right: 0 });
    input.up = true;
    input.left = true;
    assert_eq!(move_axes(&input), MoveAxes { forward: 1, right: -1 });
    input.down = true;
    input.right = true;
    assert_eq!(move_axes(&input), MoveAxes { forward: 0, right: 0 });
}

#[test]
fn controls_fire_jump_and_auto_reload() {
    let mut w = Weapon::taurus_g2c();
    w.current_clip = 1;
    let mut input = InputState::new();
    input.shoot = true;
    input.jump_pressed = true;
    let out = player_controls(&mut w, &input, true, true);
    assert!(out.fired);
    assert!(out.jumped);
    assert!(out.reload_started);
    assert_eq!(w.current_clip, 0);
    assert!(w.is_reloading);

    let again = player_controls(&mut w, &input, false, true);
    assert!(!again.fired);
    assert!(!again.jumped);
    assert!(!again.reload_started);
}

#[test]
fn controls_respect_cooldown_and_reload_key() {
    let mut w = Weapon::taurus_g2c();
    let mut input = InputState::new();
    input.shoot = true;
    let out = player_controls(&mut w, &input, true, false);
    assert!(!out.fired);
    assert_eq!(w.current_clip, 12);
    input.shoot = false;
    input.reload = true;
    w.current_clip = 7;
    let out = player_controls(&mut w, &input, true, true);
    assert!(out.reload_started);
    assert!(w.is_reloading);
}

#[test]
fn walk_cycle_pairs_arms_with_opposite_legs() {
    let phase = |p: BodyPartType| match limb_pose(p, false, true) {
        LimbPose::Swing { phase, .. } => phase,
        other => panic!("expected a swing, got {:?}", other),
    };
    assert_eq!(phase(BodyPartType::LeftArm), phase(BodyPartType::RightLeg));
    assert_eq!(phase(BodyPartType::RightArm), phase(BodyPartType::LeftLeg));
    assert_ne!(phase(BodyPartType::LeftArm), phase(BodyPartType::RightArm));
}

#[test]
fn empty_magazine_with_reserve_always_reloads() {
    for clip in 0..=12u32 {
        for reserve in 0..3u32 {
            for shoot in [false, true] {
                let mut w = Weapon::taurus_g2c();
                w.current_clip = clip;
                w.total_ammo = reserve;
                let mut input = InputState::new();
                input.shoot = shoot;
                player_controls(&mut w, &input, true, true);
                if w.current_clip == 0 && w.total_ammo > 0 {
                    assert!(w.is_reloading);
                }
            }
        }
    }
}
