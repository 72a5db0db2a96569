use vstd::prelude::*;
use super::components::{BodyPartType, Weapon};
use super::input::InputState;

verus! {

/// Which half of the walk cycle a swinging limb follows.
#[derive(Debug, Clone, Copy, PartialEq, Eq, Structural)]
pub enum SwingPhase {
    /// Swings with `sin(t)`.
    Lead,
    /// Swings with `sin(t + pi)`, half a cycle behind.
    Trail,
}

/// How the animation poses one body part this frame.
#[derive(Debug, Clone, Copy, PartialEq, Eq, Structural)]
pub enum LimbPose {
    /// Gun arm raised to the aiming angle and pushed forward.
    Aim,
    /// Swinging about the hip or shoulder; `reset_forward` clears the aiming offset.
    Swing { phase: SwingPhase, reset_forward: bool },
    /// Left as it is.
    Keep,
    /// Back to the rest rotation; `reset_forward` clears the aiming offset.
    Rest { reset_forward: bool },
}

/// The pose of a body part: a shooting character aims with its right arm; a moving one
/// swings arms and legs, each arm in step with the opposite leg; a still one rests.
pub open spec fn pose_of(part: BodyPartType, is_shooting: bool, is_moving: bool) -> LimbPose {
    if is_shooting && part == BodyPartType::RightArm {
        LimbPose::Aim
    } else if is_moving {
        match part {
            BodyPartType::LeftArm => LimbPose::Swing { phase: SwingPhase::Lead, reset_forward: false },
            BodyPartType::RightArm => LimbPose::Swing {
                phase: SwingPhase::Trail,
                reset_forward: true,
            },
            BodyPartType::LeftLeg => LimbPose::Swing { phase: SwingPhase::Trail, reset_forward: false },
            BodyPartType::RightLeg => LimbPose::Swing { phase: SwingPhase::Lead, reset_forward: false },
            _ => LimbPose::Keep,
        }
    } else {
        LimbPose::Rest { reset_forward: part == BodyPartType::RightArm }
    }
}

/// Chooses the pose of a body part from whether its character is shooting and moving.
pub fn limb_pose(part: BodyPartType, is_shooting: bool, is_moving: bool) -> (pose: LimbPose)
    ensures
        pose == pose_of(part, is_shooting, is_moving),
{
    if is_shooting && matches!(part, BodyPartType::RightArm) {
        LimbPose::Aim
    } else if is_moving {
        match part {
            BodyPartType::LeftArm => LimbPose::Swing { phase: SwingPhase::Lead, reset_forward: false },
            BodyPartType::RightArm => LimbPose::Swing {
                phase: SwingPhase::Trail,
                reset_forward: true,
            },
            BodyPartType::LeftLeg => LimbPose::Swing { phase: SwingPhase::Trail, reset_forward: false },
            BodyPartType::RightLeg => LimbPose::Swing { phase: SwingPhase::Lead, reset_forward: false },
            _ => LimbPose::Keep,
        }
    } else {
        LimbPose::Rest { reset_forward: matches!(part, BodyPartType::RightArm) }
    }
}

/// While walking, the arms swing against each other, each arm in step with the
/// opposite leg and against the leg on its own side.
pub proof fn lemma_walk_cycle_is_contralateral()
    ensures
        pose_of(BodyPartType::LeftArm, false, true)->phase == pose_of(
            BodyPartType::RightLeg,
            false,
            true,
        )->phase,
        pose_of(BodyPartType::RightArm, false, true)->phase == pose_of(
            BodyPartType::LeftLeg,
            false,
            true,
        )->phase,
        pose_of(BodyPartType::LeftArm, false, true)->phase != pose_of(
            BodyPartType::RightArm,
            false,
            true,
        )->phase,
        pose_of(BodyPartType::LeftArm, false, true)->phase != pose_of(
            BodyPartType::LeftLeg,
            false,
            true,
        )->phase,
{
}

/// Aiming only ever moves the right arm; every other part animates as if not shooting.
pub proof fn lemma_aim_only_moves_gun_arm(part: BodyPartType, is_moving: bool)
    ensures
        part != BodyPartType::RightArm ==> pose_of(part, true, is_moving) == pose_of(
            part,
            false,
            is_moving,
        ),
        pose_of(BodyPartType::RightArm, true, is_moving) == LimbPose::Aim,
{
}

/// The walk direction in camera terms: `forward` is +1 ahead, -1 back; `right` is +1 to
/// the right, -1 to the left; opposite keys cancel out.
#[derive(Debug, Clone, Copy, PartialEq, Eq, Structural)]
pub struct MoveAxes {
    pub forward: i32,
    pub right: i32,
}

/// The walk direction requested by the held movement keys.
pub fn move_axes(input: &InputState) -> (axes: MoveAxes)
    ensures
        axes.forward == (if input.up {
            1int
        } else {
            0
        }) - (if input.down {
            1int
        } else {
            0
        }),
        axes.right == (if input.right {
            1int
        } else {
            0
        }) - (if input.left {
            1int
        } else {
            0
        }),
{
    let mut forward: i32 = 0;
    let mut right: i32 = 0;
    if input.up {
        forward = forward + 1;
    }
    if input.down {
        forward = forward - 1;
    }
    if input.right {
        right = right + 1;
    }
    if input.left {
        right = right - 1;
    }
    MoveAxes { forward, right }
}

/// What the player's controls did this frame.
#[derive(Debug, Clone, Copy, PartialEq, Eq, Structural)]
pub struct ControlOutcome {
    /// A shot left the gun (the caller spawns the bullet and muzzle flash and restarts
    /// the fire cooldown).
    pub fired: bool,
    /// The player left the ground.
    pub jumped: bool,
    /// A reload began (the caller restarts the reload progress).
    pub reload_started: bool,
}

/// The gun after the trigger: fired when the trigger is held and a shot may be taken.
pub open spec fn after_trigger(w: Weapon, input: InputState, cooldown_elapsed: bool) -> Weapon {
    if input.shoot && w.ready_to_fire(cooldown_elapsed) {
        w.fired(cooldown_elapsed)
    } else {
        w
    }
}

/// The gun after the reload key and the empty-magazine check.
pub open spec fn after_reload_checks(w: Weapon, input: InputState) -> Weapon {
    let w2 = if input.reload {
        w.reload_requested()
    } else {
        w
    };
    if w2.current_clip == 0 && !w2.is_reloading {
        w2.reload_requested()
    } else {
        w2
    }
}

/// The gun after one frame of the player's controls.
pub open spec fn after_controls(w: Weapon, input: InputState, cooldown_elapsed: bool) -> Weapon {
    after_reload_checks(after_trigger(w, input, cooldown_elapsed), input)
}

/// Applies one frame of the player's controls to the gun and the jump: the trigger
/// fires when a shot may be taken; a grounded player jumps on a jump press; the reload
/// key requests a reload; and an empty magazine starts one on its own.
pub fn player_controls(
    weapon: &mut Weapon,
    input: &InputState,
    grounded: bool,
    cooldown_elapsed: bool,
) -> (out: ControlOutcome)
    ensures
        out.fired == (input.shoot && old(weapon).ready_to_fire(cooldown_elapsed)),
        out.jumped == (input.jump_pressed && grounded),
        out.reload_started == (!after_trigger(*old(weapon), *input, cooldown_elapsed).is_reloading
            && final(weapon).is_reloading),
        *final(weapon) == after_controls(*old(weapon), *input, cooldown_elapsed),
        old(weapon).wf() ==> final(weapon).wf(),
        out.fired == (input.shoot && old(weapon).current_clip > 0 && !old(weapon).is_reloading
            && cooldown_elapsed),
        final(weapon).current_clip == old(weapon).current_clip - (if out.fired {
            1int
        } else {
            0
        }),
        final(weapon).total_ammo == old(weapon).total_ammo,
        final(weapon).clip_size == old(weapon).clip_size,
        final(weapon).is_reloading == (old(weapon).is_reloading || out.reload_started),
{
    let jumped = input.jump_pressed && grounded;
    let mut fired = false;
    if input.shoot && weapon.can_fire(cooldown_elapsed) {
        fired = weapon.fire(cooldown_elapsed);
    }
    let mut reload_started = false;
    if input.reload {
        reload_started = weapon.start_reload();
    }
    if weapon.current_clip == 0 && !weapon.is_reloading {
        let started = weapon.start_reload();
        reload_started = reload_started || started;
    }
    ControlOutcome { fired, jumped, reload_started }
}

/// An empty magazine never sits idle while rounds remain in reserve: after the
/// controls run, a gun with an empty magazine and a non-empty reserve is reloading.
pub proof fn lemma_empty_magazine_reloads(w: Weapon, input: InputState, cooldown_elapsed: bool)
    requires
        w.wf(),
        w.clip_size > 0,
    ensures
        ({
            let r = after_controls(w, input, cooldown_elapsed);
            r.current_clip == 0 && r.total_ammo > 0 ==> r.is_reloading
        }),
{
}

/// The controls never create rounds: a frame spends at most one round, and only from
/// the magazine.
pub proof fn lemma_controls_spend_at_most_one(w: Weapon, input: InputState, cooldown_elapsed: bool)
    ensures
        after_controls(w, input, cooldown_elapsed).total_ammo == w.total_ammo,
        after_controls(w, input, cooldown_elapsed).current_clip == w.current_clip || after_controls(
            w,
            input,
            cooldown_elapsed,
        ).current_clip == w.current_clip - 1,
{
}

/// The trigger is the only way to spend a round: a frame spends one round from the
/// magazine exactly when the trigger is held, the magazine holds a round, no reload runs
/// and the cooldown has run out; with the trigger released the magazine stays as it
/// was. The reserve and the magazine size never change within a frame.
pub proof fn lemma_only_the_trigger_spends(w: Weapon, input: InputState, cooldown_elapsed: bool)
    ensures
        after_controls(w, input, cooldown_elapsed).current_clip == w.current_clip - (if input.shoot
            && w.current_clip > 0 && !w.is_reloading && cooldown_elapsed {
            1int
        } else {
            0
        }),
        !input.shoot ==> after_controls(w, input, cooldown_elapsed).current_clip == w.current_clip,
        after_controls(w, input, cooldown_elapsed).total_ammo == w.total_ammo,
        after_controls(w, input, cooldown_elapsed).clip_size == w.clip_size,
{
}

/// With nothing held, a gun that is not empty is left exactly as it was.
pub proof fn lemma_idle_controls_leave_gun(w: Weapon, input: InputState, cooldown_elapsed: bool)
    requires
        !input.shoot,
        !input.reload,
        w.current_clip > 0,
    ensures
        after_controls(w, input, cooldown_elapsed) == w,
{
}

/// A still character that is not aiming rests every body part: back to the rest
/// rotation, with the gun arm's aiming offset cleared.
pub proof fn lemma_still_character_rests(part: BodyPartType, is_shooting: bool)
    requires
        !(is_shooting && part == BodyPartType::RightArm),
    ensures
        pose_of(part, is_shooting, false) == (LimbPose::Rest {
            reset_forward: part == BodyPartType::RightArm,
        }),
        pose_of(part, is_shooting, false) matches LimbPose::Rest { reset_forward } && (
        reset_forward <==> part == BodyPartType::RightArm),
{
}

/// A walking character swings exactly its arms and legs (the gun arm only when not
/// aiming) and leaves its head and torso as they are; only a walking character leaves a
/// part as it is.
pub proof fn lemma_walking_swings_limbs(part: BodyPartType, is_shooting: bool, is_moving: bool)
    ensures
        is_moving && !(is_shooting && part == BodyPartType::RightArm) ==> (pose_of(
            part,
            is_shooting,
            is_moving,
        ) is Swing <==> (part == BodyPartType::LeftArm || part == BodyPartType::RightArm || part
            == BodyPartType::LeftLeg || part == BodyPartType::RightLeg)),
        is_moving && (part == BodyPartType::Head || part == BodyPartType::Torso) ==> pose_of(
            part,
            is_shooting,
            is_moving,
        ) == LimbPose::Keep,
        pose_of(part, is_shooting, is_moving) == LimbPose::Keep ==> is_moving,
{
}

} // verus!
