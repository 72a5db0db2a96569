use vstd::prelude::*;
use crate::engine::components::{BodyPartType, TextureAtlasRegion};
use crate::engine::world::{
    clear_zombob_trees, despawn_all, in_subtree, is_chain, kills_of, parent_map, reset_kills,
    world_entities, zombob_set, EntityRecord,
};

verus! {

/// The highest wave for which the spawn-count curve is defined: up to here the
/// single-precision product the curve was tuned with rounds to exactly this integer
/// formula.
pub const MAX_SCALED_WAVE: u32 = 284_954;

/// Zombobs spawned for wave `wave` before the floor of four: `3 + 2 * wave`, eased to
/// 92% (rounded down) from wave 9 on.
pub open spec fn wave_spawn_base(wave: int) -> int {
    if wave > 8 {
        (3 + 2 * wave) * 23 / 25
    } else {
        3 + 2 * wave
    }
}

/// Zombobs spawned for wave `wave`: the base count, but never fewer than four.
pub open spec fn wave_spawn_total(wave: int) -> int {
    if wave_spawn_base(wave) < 4 {
        4
    } else {
        wave_spawn_base(wave)
    }
}

/// How many zombobs a wave brings.
pub fn wave_spawn_count(wave: u32) -> (count: u32)
    requires
        wave <= MAX_SCALED_WAVE,
    ensures
        count == wave_spawn_total(wave as int),
        count >= 4,
{
    let n: u32 = 3 + 2 * wave;
    let scaled: u32 = if wave > 8 {
        n * 23 / 25
    } else {
        n
    };
    if scaled < 4 {
        4
    } else {
        scaled
    }
}

/// Waves never shrink: each wave brings at least as many zombobs as the one before.
pub proof fn lemma_waves_never_shrink(wave: int)
    requires
        0 <= wave,
    ensures
        wave_spawn_total(wave + 1) >= wave_spawn_total(wave),
{
    if wave > 8 {
        assert((3 + 2 * (wave + 1)) * 23 / 25 >= (3 + 2 * wave) * 23 / 25) by (nonlinear_arith)
            requires
                wave > 8,
        ;
    } else if wave == 8 {
        assert(wave_spawn_base(9) == 19);
    }
}

/// The score shown on the game-over screen: 12 points a kill and 80 a wave, capped at
/// the largest `u32`.
pub open spec fn score_value(kills: int, wave: int) -> int {
    if 12 * kills + 80 * wave > u32::MAX {
        u32::MAX as int
    } else {
        12 * kills + 80 * wave
    }
}

/// The run's score: 12 points a kill and 80 a wave, saturating at the largest `u32`.
pub fn run_score(kills: u32, wave: u32) -> (score: u32)
    ensures
        score == score_value(kills as int, wave as int),
{
    let k: u32 = match kills.checked_mul(12) {
        Some(v) => v,
        None => u32::MAX,
    };
    let w: u32 = match wave.checked_mul(80) {
        Some(v) => v,
        None => u32::MAX,
    };
    match k.checked_add(w) {
        Some(v) => v,
        None => u32::MAX,
    }
}

/// More kills or a later wave never lower the score.
pub proof fn lemma_score_monotone(k1: int, w1: int, k2: int, w2: int)
    requires
        0 <= k1 <= k2,
        0 <= w1 <= w2,
    ensures
        score_value(k1, w1) <= score_value(k2, w2),
{
}

/// What the game-over screen shows.
#[derive(Debug, Clone, Copy, PartialEq, Eq, Structural)]
pub struct GameOverReport {
    pub wave: u32,
    pub kills: u32,
    pub score: u32,
}

/// What the wave spawner does this frame.
#[derive(Debug, Clone, Copy, PartialEq, Eq, Structural)]
pub enum WaveAction {
    /// Zombobs are still alive: hold the spawn cooldown at one second.
    HoldCooldown,
    /// The field is clear but the cooldown runs: count it down by the frame time.
    CountDown,
    /// Spawn the next wave, `count` zombobs for wave number `wave`, then set the
    /// cooldown to 2.25 seconds.
    Spawn { wave: u32, count: u32 },
}

/// The progress of a run: the current wave and whether the player has died and the
/// game-over screen has been shown.
#[derive(Debug, Clone, Copy, PartialEq, Eq, Structural)]
pub struct RunState {
    pub wave: u32,
    pub player_dead: bool,
    pub game_over_announced: bool,
}

impl RunState {
    /// A run at its start: wave 1, player alive.
    pub open spec fn initial() -> RunState {
        RunState { wave: 1, player_dead: false, game_over_announced: false }
    }

    /// The run after a game-over check that found the player dead and not yet reported.
    pub open spec fn reports_game_over(self) -> bool {
        self.player_dead && !self.game_over_announced
    }

    /// The spawner's decision for `alive` zombobs and the cooldown state.
    pub open spec fn wave_decision(self, alive: u32, cooldown_elapsed: bool) -> WaveAction {
        if alive > 0 {
            WaveAction::HoldCooldown
        } else if !cooldown_elapsed {
            WaveAction::CountDown
        } else {
            WaveAction::Spawn {
                wave: (self.wave + 1) as u32,
                count: wave_spawn_total(self.wave + 1) as u32,
            }
        }
    }

    /// A fresh run.
    pub fn new() -> (s: Self)
        ensures
            s == RunState::initial(),
    {
        RunState { wave: 1, player_dead: false, game_over_announced: false }
    }

    /// Clears the run for another try: back to wave 1 with the player alive.
    pub fn restart(&mut self)
        ensures
            *final(self) == RunState::initial(),
    {
        self.wave = 1;
        self.player_dead = false;
        self.game_over_announced = false;
    }

    /// Records the player's health check: once `health_depleted` is seen the player
    /// stays dead until a restart.
    pub fn observe_player_health(&mut self, health_depleted: bool)
        ensures
            *final(self) == (RunState {
                player_dead: old(self).player_dead || health_depleted,
                ..*old(self)
            }),
    {
        if health_depleted {
            self.player_dead = true;
        }
    }

    /// The game-over report, given once per death: the first call after the player died
    /// gives the wave, the kills and the score; any other call gives `None`.
    pub fn game_over_report(&mut self, kills: u32) -> (r: Option<GameOverReport>)
        ensures
            r == (if old(self).reports_game_over() {
                Some(
                    GameOverReport {
                        wave: old(self).wave,
                        kills,
                        score: score_value(kills as int, old(self).wave as int) as u32,
                    },
                )
            } else {
                None::<GameOverReport>
            }),
            *final(self) == (RunState {
                game_over_announced: old(self).game_over_announced || old(self).player_dead,
                ..*old(self)
            }),
    {
        if self.game_over_announced || !self.player_dead {
            return None;
        }
        self.game_over_announced = true;
        let score = run_score(kills, self.wave);
        Some(GameOverReport { wave: self.wave, kills, score })
    }

    /// Decides the wave spawner's step: with zombobs alive the cooldown is held; on a
    /// clear field the cooldown runs out first; then the next wave comes.
    pub fn wave_step(&mut self, alive: u32, cooldown_elapsed: bool) -> (action: WaveAction)
        requires
            alive == 0 && cooldown_elapsed ==> old(self).wave < MAX_SCALED_WAVE,
        ensures
            action == old(self).wave_decision(alive, cooldown_elapsed),
            final(self).wave == (if action is Spawn {
                old(self).wave + 1
            } else {
                old(self).wave as int
            }),
            final(self).player_dead == old(self).player_dead,
            final(self).game_over_announced == old(self).game_over_announced,
            alive > 0 ==> action == WaveAction::HoldCooldown && final(self).wave == old(self).wave,
            action is Spawn <==> (alive == 0 && cooldown_elapsed),
    {
        if alive > 0 {
            return WaveAction::HoldCooldown;
        }
        if !cooldown_elapsed {
            return WaveAction::CountDown;
        }
        self.wave = self.wave + 1;
        let count = wave_spawn_count(self.wave);
        WaveAction::Spawn { wave: self.wave, count }
    }
}

/// No wave comes while a zombob is alive: the spawner holds its cooldown, whatever the
/// cooldown says. A wave comes exactly when the field is clear and the cooldown has run
/// out, and it is the next wave, with its spawn count of at least four zombobs.
pub proof fn lemma_no_wave_while_zombobs_live(s: RunState, alive: u32, cooldown_elapsed: bool)
    ensures
        alive > 0 ==> s.wave_decision(alive, cooldown_elapsed) == WaveAction::HoldCooldown,
        alive == 0 && !cooldown_elapsed ==> s.wave_decision(alive, cooldown_elapsed)
            == WaveAction::CountDown,
        s.wave_decision(alive, cooldown_elapsed) is Spawn <==> (alive == 0 && cooldown_elapsed),
        s.wave < MAX_SCALED_WAVE ==> (s.wave_decision(alive, cooldown_elapsed) matches WaveAction::Spawn {
            wave,
            count,
        } ==> wave == s.wave + 1 && count == wave_spawn_total(s.wave + 1) && count >= 4),
{
}

/// The game-over screen is shown once per death: after a report, asking again gives
/// nothing until the run is restarted; and a living player gets no report.
pub proof fn lemma_game_over_reported_once(s: RunState)
    ensures
        s.reports_game_over() ==> !(RunState {
            game_over_announced: true,
            ..s
        }).reports_game_over(),
        !s.player_dead ==> !s.reports_game_over(),
        !RunState::initial().reports_game_over(),
{
}

/// After a restart the next death is reported again, whatever was reported before.
pub proof fn lemma_restart_rearms_report(s: RunState)
    ensures
        !RunState::initial().player_dead,
        (RunState { player_dead: true, ..RunState::initial() }).reports_game_over(),
        s.game_over_announced ==> !s.reports_game_over(),
{
}

/// The kills recorded for entity `player`: its stats, or 0 when it keeps none.
pub open spec fn recorded_kills(entities: Map<u64, EntityRecord>, player: u64) -> u32 {
    if entities.contains_key(player) && entities[player].kills is Some {
        entities[player].kills.unwrap()
    } else {
        0
    }
}

/// `e` is, or hangs below, a zombob of `world` through a chain of parent links that
/// meets no entity listed in `avoid`.
pub open spec fn below_zombob_avoiding(world: hecs::World, avoid: Seq<u64>, e: u64) -> bool {
    exists|p: Seq<u64>|
        #[trigger] is_chain(parent_map(world), p) && p[0] == e && zombob_set(world).contains(
            p.last(),
        ) && forall|k: int| 0 <= k < p.len() ==> !avoid.contains(#[trigger] p[k])
}

impl RunState {
    /// The game-over report for a death, with the kills read from the stats of the
    /// entity `player` (0 when it keeps none): given once per death, like
    /// `game_over_report`. The world is only read.
    pub fn finalize_game_over(&mut self, world: &mut hecs::World, player: u64) -> (r: Option<
        GameOverReport,
    >)
        ensures
            *final(world) == *old(world),
            r == (if old(self).reports_game_over() {
                Some(
                    GameOverReport {
                        wave: old(self).wave,
                        kills: recorded_kills(world_entities(*old(world)), player),
                        score: score_value(
                            recorded_kills(world_entities(*old(world)), player) as int,
                            old(self).wave as int,
                        ) as u32,
                    },
                )
            } else {
                None::<GameOverReport>
            }),
            *final(self) == (RunState {
                game_over_announced: old(self).game_over_announced || old(self).player_dead,
                ..*old(self)
            }),
    {
        let kills = match kills_of(world, player) {
            Some(k) => k,
            None => 0,
        };
        self.game_over_report(kills)
    }

    /// Clears a run for another try: despawns the listed run-scoped entities
    /// (projectiles, flashes, debris) first, then every zombob with everything hanging
    /// below it, starts the kill count of `player` over at zero, and returns to wave 1
    /// with the player alive. Every entity left is as it was, apart from that kill count.
    ///
    /// An entity is left exactly when it was live, is not listed, and does not hang below
    /// a zombob through unlisted entities only. So whatever hung below a zombob is gone,
    /// unless a listed entity on its chain of parent links cut it off: the zombob trees
    /// are cleared after the listed entities are gone, and such an entity stays.
    pub fn restart_world(&mut self, world: &mut hecs::World, player: u64, ephemeral: &Vec<u64>)
        ensures
            *final(self) == RunState::initial(),
            zombob_set(*final(world)) == Set::<u64>::empty(),
            forall|e: u64| ephemeral@.contains(e) ==> !world_entities(*final(world)).contains_key(e),
            forall|e: u64|
                #[trigger] world_entities(*final(world)).contains_key(e) ==> world_entities(
                    *old(world),
                ).contains_key(e) && world_entities(*final(world))[e] == (if e == player
                    && world_entities(*old(world))[e].kills is Some {
                    EntityRecord { kills: Some(0), ..world_entities(*old(world))[e] }
                } else {
                    world_entities(*old(world))[e]
                }),
            forall|e: u64|
                #[trigger] world_entities(*final(world)).contains_key(e) <==> (world_entities(
                    *old(world),
                ).contains_key(e) && !ephemeral@.contains(e) && !below_zombob_avoiding(
                    *old(world),
                    ephemeral@,
                    e,
                )),
    {
        let ghost w0 = *world;
        despawn_all(world, ephemeral);
        let ghost w1 = *world;
        clear_zombob_trees(world);
        let ghost w2 = *world;
        reset_kills(world, player);
        self.restart();
        proof {
            let e0 = world_entities(w0);
            let e1 = world_entities(w1);
            let e2 = world_entities(w2);
            assert(parent_map(w1).submap_of(parent_map(w0)));
            assert(zombob_set(w1).subset_of(zombob_set(w0)));
            assert forall|e: u64|
                e0.contains_key(e) && !ephemeral@.contains(e) && !below_zombob_avoiding(
                    w0,
                    ephemeral@,
                    e,
                ) implies #[trigger] e2.contains_key(e) by {
                assert(e1.contains_key(e));
                if !e2.contains_key(e) {
                    let z = choose|z: u64|
                        zombob_set(w1).contains(z) && #[trigger] in_subtree(parent_map(w1), z, e);
                    let p = choose|p: Seq<u64>|
                        #[trigger] is_chain(parent_map(w1), p) && p[0] == e && p.last() == z;
                    assert forall|n: int| #![trigger p[n]] 0 <= n < p.len() - 1 implies parent_map(
                        w0,
                    ).contains_key(p[n]) && parent_map(w0)[p[n]] == p[n + 1] by {
                        assert(parent_map(w1).contains_key(p[n]));
                    }
                    assert forall|k: int| 0 <= k < p.len() implies !ephemeral@.contains(
                        #[trigger] p[k],
                    ) by {
                        if k < p.len() - 1 {
                            assert(parent_map(w1).contains_key(p[k]));
                        }
                        assert(e1.contains_key(p[k]));
                    }
                    assert(zombob_set(w0).contains(p.last()));
                    assert(is_chain(parent_map(w0), p));
                    assert(below_zombob_avoiding(w0, ephemeral@, e));
                }
            }
            assert forall|p: Seq<u64>|
                #[trigger] is_chain(parent_map(w0), p) && zombob_set(w0).contains(p.last()) && (forall|
                    k: int,
                | 1 <= k < p.len() ==> !ephemeral@.contains(#[trigger] p[k]))
                implies !world_entities(*world).contains_key(p[0]) by {
                if !ephemeral@.contains(p[0]) {
                    assert forall|n: int| #![trigger p[n]] 0 <= n < p.len() - 1 implies parent_map(
                        w1,
                    ).contains_key(p[n]) && parent_map(w1)[p[n]] == p[n + 1] by {
                        assert(parent_map(w0).contains_key(p[n]) && parent_map(w0)[p[n]] == p[n + 1]);
                        if n >= 1 {
                            assert(!ephemeral@.contains(p[n]));
                        }
                        assert(e1.contains_key(p[n]));
                    }
                    assert(is_chain(parent_map(w1), p));
                    if p.len() > 1 {
                        assert(!ephemeral@.contains(p[p.len() - 1]));
                    }
                    assert(e1.contains_key(p.last()));
                    assert(zombob_set(w1).contains(p.last()));
                    assert(in_subtree(parent_map(w1), p.last(), p[0]));
                } else {
                    assert(!e1.contains_key(p[0]));
                }
                assert(!e2.contains_key(p[0]));
            }
            assert forall|e: u64| ephemeral@.contains(e) implies !world_entities(*world).contains_key(e) by {
                assert(!e1.contains_key(e));
                assert(!e2.contains_key(e));
            }
            assert forall|e: u64| #[trigger] world_entities(*world).contains_key(e) implies e0.contains_key(e)
                && world_entities(*world)[e] == (if e == player && e0[e].kills is Some {
                EntityRecord { kills: Some(0), ..e0[e] }
            } else {
                e0[e]
            }) by {
                assert(e2.contains_key(e));
                assert(e1.contains_key(e));
                assert(e2[e] == e1[e]);
                assert(e1[e] == e0[e]);
            }
            assert forall|e: u64|
                #[trigger] world_entities(*world).contains_key(e) <==> (e0.contains_key(e)
                    && !ephemeral@.contains(e) && !below_zombob_avoiding(w0, ephemeral@, e)) by {
                if world_entities(*world).contains_key(e) {
                    assert(e2.contains_key(e));
                    assert(e1.contains_key(e));
                    if below_zombob_avoiding(w0, ephemeral@, e) {
                        let p = choose|p: Seq<u64>|
                            #[trigger] is_chain(parent_map(w0), p) && p[0] == e && zombob_set(
                                w0,
                            ).contains(p.last()) && forall|k: int|
                                0 <= k < p.len() ==> !ephemeral@.contains(#[trigger] p[k]);
                        assert(forall|k: int| 1 <= k < p.len() ==> !ephemeral@.contains(#[trigger] p[k]));
                    }
                }
                if e0.contains_key(e) && !ephemeral@.contains(e) && !below_zombob_avoiding(
                    w0,
                    ephemeral@,
                    e,
                ) {
                    assert(e2.contains_key(e));
                }
            }
            assert(zombob_set(*world) =~= Set::<u64>::empty()) by {
                assert forall|e: u64| !zombob_set(*world).contains(e) by {
                    if zombob_set(*world).contains(e) {
                        assert(zombob_set(w2).contains(e));
                    }
                }
            }
        }
    }
}

/// Counts the attempts of one wave spawn: every attempt draws a random spot, spots too
/// close to the centre are rejected, and the spawner gives up after ten attempts per
/// zombob asked for.
#[derive(Debug, Clone, Copy, PartialEq, Eq, Structural)]
pub struct SpawnBudget {
    pub count: u32,
    pub max_attempts: u32,
    pub spawned: u32,
    pub attempts: u32,
}

impl SpawnBudget {
    /// The budget stays consistent: never more spawns than asked for or than attempts
    /// made, never more attempts than allowed.
    pub open spec fn wf(self) -> bool {
        &&& self.max_attempts == 10 * self.count
        &&& self.spawned <= self.count
        &&& self.attempts <= self.max_attempts
        &&& self.spawned <= self.attempts
    }

    /// Whether another attempt is allowed.
    pub open spec fn may_attempt(self) -> bool {
        self.spawned < self.count && self.attempts < self.max_attempts
    }

    /// A budget for `count` zombobs.
    pub fn new(count: u32) -> (b: Self)
        requires
            count <= u32::MAX / 10,
        ensures
            b.count == count,
            b.max_attempts == 10 * count,
            b.spawned == 0,
            b.attempts == 0,
            b.wf(),
    {
        SpawnBudget { count, max_attempts: count * 10, spawned: 0, attempts: 0 }
    }

    /// Starts another attempt if one is allowed; returns whether it started.
    pub fn try_attempt(&mut self) -> (go: bool)
        requires
            old(self).wf(),
        ensures
            go == old(self).may_attempt(),
            final(self).wf(),
            final(self).attempts == old(self).attempts + (if go {
                1int
            } else {
                0
            }),
            final(self).spawned == old(self).spawned,
            final(self).count == old(self).count,
            final(self).max_attempts == old(self).max_attempts,
            go ==> final(self).spawned < final(self).attempts,
    {
        if self.spawned < self.count && self.attempts < self.max_attempts {
            self.attempts = self.attempts + 1;
            true
        } else {
            false
        }
    }

    /// Records that the current attempt spawned a zombob.
    pub fn record_spawn(&mut self)
        requires
            old(self).wf(),
            old(self).spawned < old(self).count,
            old(self).spawned < old(self).attempts,
        ensures
            final(self).wf(),
            *final(self) == (SpawnBudget { spawned: (old(self).spawned + 1) as u32, ..*old(self) }),
    {
        self.spawned = self.spawned + 1;
    }
}

/// The attempt loop ends: each allowed attempt uses up budget, so at most
/// `max_attempts` attempts are ever made, and no more than `count` zombobs spawn.
pub proof fn lemma_spawn_budget_bounded(b: SpawnBudget)
    requires
        b.wf(),
    ensures
        b.may_attempt() ==> b.max_attempts - (b.attempts + 1) < b.max_attempts - b.attempts,
        !b.may_attempt() ==> b.spawned == b.count || b.attempts == b.max_attempts,
        b.spawned <= b.count,
        b.attempts <= 10 * b.count,
{
}

/// The pieces a character model is built from, in the order they are spawned.
#[derive(Debug, Clone, Copy, PartialEq, Eq, Structural)]
pub enum MeshPiece {
    Torso,
    Shadow,
    Head,
    LeftEye,
    RightEye,
    LeftPupil,
    RightPupil,
    LeftArm,
    LeftHand,
    RightArm,
    RightHand,
    LeftLeg,
    LeftFoot,
    RightLeg,
    RightFoot,
}

/// One entity of a character model: which piece it is, the index (in the plan) of the
/// piece it hangs from, the body part it animates as, and its skin-texture region.
#[derive(Debug, Clone, Copy, PartialEq, Eq, Structural)]
pub struct MeshPart {
    pub piece: MeshPiece,
    pub parent: Option<usize>,
    pub body_part: Option<BodyPartType>,
    pub atlas: Option<TextureAtlasRegion>,
}

/// The skin-texture region of each body part (64x64 skin layout).
pub open spec fn body_part_region(part: BodyPartType) -> TextureAtlasRegion {
    match part {
        BodyPartType::Torso => TextureAtlasRegion { x: 16, y: 16, w: 8, h: 12, d: 4 },
        BodyPartType::Head => TextureAtlasRegion { x: 0, y: 0, w: 8, h: 8, d: 8 },
        BodyPartType::LeftArm => TextureAtlasRegion { x: 32, y: 48, w: 4, h: 12, d: 4 },
        BodyPartType::RightArm => TextureAtlasRegion { x: 40, y: 16, w: 4, h: 12, d: 4 },
        BodyPartType::LeftLeg => TextureAtlasRegion { x: 16, y: 48, w: 4, h: 12, d: 4 },
        BodyPartType::RightLeg => TextureAtlasRegion { x: 0, y: 16, w: 4, h: 12, d: 4 },
    }
}

/// The skin-texture region of a body part.
pub fn atlas_region(part: BodyPartType) -> (r: TextureAtlasRegion)
    ensures
        r == body_part_region(part),
{
    match part {
        BodyPartType::Torso => TextureAtlasRegion { x: 16, y: 16, w: 8, h: 12, d: 4 },
        BodyPartType::Head => TextureAtlasRegion { x: 0, y: 0, w: 8, h: 8, d: 8 },
        BodyPartType::LeftArm => TextureAtlasRegion { x: 32, y: 48, w: 4, h: 12, d: 4 },
        BodyPartType::RightArm => TextureAtlasRegion { x: 40, y: 16, w: 4, h: 12, d: 4 },
        BodyPartType::LeftLeg => TextureAtlasRegion { x: 16, y: 48, w: 4, h: 12, d: 4 },
        BodyPartType::RightLeg => TextureAtlasRegion { x: 0, y: 16, w: 4, h: 12, d: 4 },
    }
}

/// A body-part piece: animated as `part`, skinned from its region when textured.
pub open spec fn limb(piece: MeshPiece, parent: usize, part: BodyPartType, textured: bool) -> MeshPart {
    MeshPart {
        piece,
        parent: Some(parent),
        body_part: Some(part),
        atlas: if textured {
            Some(body_part_region(part))
        } else {
            None
        },
    }
}

/// A decoration piece (shadow, eye, hand, foot): no body part, no skin region.
pub open spec fn trim(piece: MeshPiece, parent: usize) -> MeshPart {
    MeshPart { piece, parent: Some(parent), body_part: None, atlas: None }
}

/// The character model. A textured model is the torso (root), its ground shadow, head,
/// arms and legs; an untextured one also gets eyes and pupils on the head, hands on the
/// arms and feet on the legs.
pub open spec fn character_mesh(textured: bool) -> Seq<MeshPart> {
    let torso = MeshPart {
        piece: MeshPiece::Torso,
        parent: None,
        body_part: Some(BodyPartType::Torso),
        atlas: if textured {
            Some(body_part_region(BodyPartType::Torso))
        } else {
            None
        },
    };
    if textured {
        seq![
            torso,
            trim(MeshPiece::Shadow, 0),
            limb(MeshPiece::Head, 0, BodyPartType::Head, true),
            limb(MeshPiece::LeftArm, 0, BodyPartType::LeftArm, true),
            limb(MeshPiece::RightArm, 0, BodyPartType::RightArm, true),
            limb(MeshPiece::LeftLeg, 0, BodyPartType::LeftLeg, true),
            limb(MeshPiece::RightLeg, 0, BodyPartType::RightLeg, true),
        ]
    } else {
        seq![
            torso,
            trim(MeshPiece::Shadow, 0),
            limb(MeshPiece::Head, 0, BodyPartType::Head, false),
            trim(MeshPiece::LeftEye, 2),
            trim(MeshPiece::RightEye, 2),
            trim(MeshPiece::LeftPupil, 2),
            trim(MeshPiece::RightPupil, 2),
            limb(MeshPiece::LeftArm, 0, BodyPartType::LeftArm, false),
            trim(MeshPiece::LeftHand, 7),
            limb(MeshPiece::RightArm, 0, BodyPartType::RightArm, false),
            trim(MeshPiece::RightHand, 9),
            limb(MeshPiece::LeftLeg, 0, BodyPartType::LeftLeg, false),
            trim(MeshPiece::LeftFoot, 11),
            limb(MeshPiece::RightLeg, 0, BodyPartType::RightLeg, false),
            trim(MeshPiece::RightFoot, 13),
        ]
    }
}

fn push_limb(
    plan: &mut Vec<MeshPart>,
    piece: MeshPiece,
    parent: usize,
    part: BodyPartType,
    textured: bool,
) -> (index: usize)
    requires
        old(plan)@.len() < usize::MAX,
    ensures
        index == old(plan)@.len(),
        final(plan)@ == old(plan)@.push(limb(piece, parent, part, textured)),
{
    let index = plan.len();
    let atlas = if textured {
        Some(atlas_region(part))
    } else {
        None
    };
    plan.push(MeshPart { piece, parent: Some(parent), body_part: Some(part), atlas });
    index
}

fn push_trim(plan: &mut Vec<MeshPart>, piece: MeshPiece, parent: usize)
    ensures
        final(plan)@ == old(plan)@.push(trim(piece, parent)),
{
    plan.push(MeshPart { piece, parent: Some(parent), body_part: None, atlas: None });
}

/// The entities of a character model in spawn order, each with the index of the
/// entity it hangs from.
pub fn character_mesh_plan(textured: bool) -> (plan: Vec<MeshPart>)
    ensures
        plan@ == character_mesh(textured),
{
    let mut plan: Vec<MeshPart> = Vec::new();
    let torso_atlas = if textured {
        Some(atlas_region(BodyPartType::Torso))
    } else {
        None
    };
    plan.push(
        MeshPart {
            piece: MeshPiece::Torso,
            parent: None,
            body_part: Some(BodyPartType::Torso),
            atlas: torso_atlas,
        },
    );
    let root: usize = 0;
    push_trim(&mut plan, MeshPiece::Shadow, root);
    let head = push_limb(&mut plan, MeshPiece::Head, root, BodyPartType::Head, textured);
    if !textured {
        push_trim(&mut plan, MeshPiece::LeftEye, head);
        push_trim(&mut plan, MeshPiece::RightEye, head);
        push_trim(&mut plan, MeshPiece::LeftPupil, head);
        push_trim(&mut plan, MeshPiece::RightPupil, head);
    }
    let left_arm = push_limb(&mut plan, MeshPiece::LeftArm, root, BodyPartType::LeftArm, textured);
    if !textured {
        push_trim(&mut plan, MeshPiece::LeftHand, left_arm);
    }
    let right_arm = push_limb(
        &mut plan,
        MeshPiece::RightArm,
        root,
        BodyPartType::RightArm,
        textured,
    );
    if !textured {
        push_trim(&mut plan, MeshPiece::RightHand, right_arm);
    }
    let left_leg = push_limb(&mut plan, MeshPiece::LeftLeg, root, BodyPartType::LeftLeg, textured);
    if !textured {
        push_trim(&mut plan, MeshPiece::LeftFoot, left_leg);
    }
    let right_leg = push_limb(
        &mut plan,
        MeshPiece::RightLeg,
        root,
        BodyPartType::RightLeg,
        textured,
    );
    if !textured {
        push_trim(&mut plan, MeshPiece::RightFoot, right_leg);
    }
    assert(plan@ =~= character_mesh(textured));
    plan
}

/// A character model is a tree rooted at the torso: the first part hangs from nothing
/// and every other part hangs from a part spawned before it.
pub proof fn lemma_mesh_is_tree(textured: bool)
    ensures
        character_mesh(textured).len() == (if textured {
            7int
        } else {
            15
        }),
        character_mesh(textured)[0].parent is None,
        character_mesh(textured)[0].piece == MeshPiece::Torso,
        forall|i: int|
            1 <= i < character_mesh(textured).len() ==> {
                &&& (#[trigger] character_mesh(textured)[i]).parent is Some
                &&& character_mesh(textured)[i].parent.unwrap() < i
            },
{
}

/// The piece that a piece of a character model hangs from: head, arms, legs and the
/// ground shadow hang from the torso, eyes and pupils from the head, each hand from the
/// arm and each foot from the leg on its side. The torso is the root.
pub open spec fn holder(piece: MeshPiece) -> MeshPiece {
    match piece {
        MeshPiece::LeftEye | MeshPiece::RightEye | MeshPiece::LeftPupil | MeshPiece::RightPupil => MeshPiece::Head,
        MeshPiece::LeftHand => MeshPiece::LeftArm,
        MeshPiece::RightHand => MeshPiece::RightArm,
        MeshPiece::LeftFoot => MeshPiece::LeftLeg,
        MeshPiece::RightFoot => MeshPiece::RightLeg,
        _ => MeshPiece::Torso,
    }
}

/// Head, arms and legs all hang directly from the torso, the root of the model, and
/// every other piece hangs from the piece it belongs to (`holder`).
pub proof fn lemma_limbs_hang_from_torso(textured: bool)
    ensures
        forall|i: int|
            0 <= i < character_mesh(textured).len() && (#[trigger] character_mesh(textured)[i]).body_part
                is Some && character_mesh(textured)[i].body_part != Some(BodyPartType::Torso)
                ==> character_mesh(textured)[i].parent == Some(0usize),
        forall|i: int|
            1 <= i < character_mesh(textured).len() ==> character_mesh(textured)[(
            #[trigger] character_mesh(textured)[i]).parent.unwrap() as int].piece == holder(
                character_mesh(textured)[i].piece,
            ),
{
    if textured {
        lemma_textured_holders();
    } else {
        lemma_untextured_holders();
    }
}

proof fn lemma_textured_holders()
    ensures
        forall|i: int|
            0 <= i < character_mesh(true).len() && (#[trigger] character_mesh(true)[i]).body_part
                is Some && character_mesh(true)[i].body_part != Some(BodyPartType::Torso)
                ==> character_mesh(true)[i].parent == Some(0usize),
        forall|i: int|
            1 <= i < character_mesh(true).len() ==> character_mesh(true)[(
            #[trigger] character_mesh(true)[i]).parent.unwrap() as int].piece == holder(
                character_mesh(true)[i].piece,
            ),
{
    let m = character_mesh(true);
    assert(m.len() == 7);
    assert forall|i: int| 1 <= i < m.len() implies m[(#[trigger] m[i]).parent.unwrap() as int].piece
        == holder(m[i].piece) by {
        if i == 1 {
            assert(m[1].parent == Some(0usize) && m[0].piece == MeshPiece::Torso);
        } else if i == 2 {
            assert(m[2].parent == Some(0usize) && m[0].piece == MeshPiece::Torso);
        } else if i == 3 {
            assert(m[3].parent == Some(0usize) && m[0].piece == MeshPiece::Torso);
        } else if i == 4 {
            assert(m[4].parent == Some(0usize) && m[0].piece == MeshPiece::Torso);
        } else if i == 5 {
            assert(m[5].parent == Some(0usize) && m[0].piece == MeshPiece::Torso);
        } else if i == 6 {
            assert(m[6].parent == Some(0usize) && m[0].piece == MeshPiece::Torso);
        }
    }
}

proof fn lemma_untextured_holders()
    ensures
        forall|i: int|
            0 <= i < character_mesh(false).len() && (#[trigger] character_mesh(false)[i]).body_part
                is Some && character_mesh(false)[i].body_part != Some(BodyPartType::Torso)
                ==> character_mesh(false)[i].parent == Some(0usize),
        forall|i: int|
            1 <= i < character_mesh(false).len() ==> character_mesh(false)[(
            #[trigger] character_mesh(false)[i]).parent.unwrap() as int].piece == holder(
                character_mesh(false)[i].piece,
            ),
{
    let m = character_mesh(false);
    assert(m.len() == 15);
    assert forall|i: int| 1 <= i < m.len() implies m[(#[trigger] m[i]).parent.unwrap() as int].piece
        == holder(m[i].piece) by {
        if i == 1 {
            assert(m[1].parent == Some(0usize) && m[0].piece == MeshPiece::Torso);
        } else if i == 2 {
            assert(m[2].parent == Some(0usize) && m[0].piece == MeshPiece::Torso);
        } else if i == 3 {
            assert(m[3].parent == Some(2usize) && m[2].piece == MeshPiece::Head);
        } else if i == 4 {
            assert(m[4].parent == Some(2usize) && m[2].piece == MeshPiece::Head);
        } else if i == 5 {
            assert(m[5].parent == Some(2usize) && m[2].piece == MeshPiece::Head);
        } else if i == 6 {
            assert(m[6].parent == Some(2usize) && m[2].piece == MeshPiece::Head);
        } else if i == 7 {
            assert(m[7].parent == Some(0usize) && m[0].piece == MeshPiece::Torso);
        } else if i == 8 {
            assert(m[8].parent == Some(7usize) && m[7].piece == MeshPiece::LeftArm);
        } else if i == 9 {
            assert(m[9].parent == Some(0usize) && m[0].piece == MeshPiece::Torso);
        } else if i == 10 {
            assert(m[10].parent == Some(9usize) && m[9].piece == MeshPiece::RightArm);
        } else if i == 11 {
            assert(m[11].parent == Some(0usize) && m[0].piece == MeshPiece::Torso);
        } else if i == 12 {
            assert(m[12].parent == Some(11usize) && m[11].piece == MeshPiece::LeftLeg);
        } else if i == 13 {
            assert(m[13].parent == Some(0usize) && m[0].piece == MeshPiece::Torso);
        } else if i == 14 {
            assert(m[14].parent == Some(13usize) && m[13].piece == MeshPiece::RightLeg);
        }
    }
}

/// Every body part appears exactly once in a character model, and carries its skin
/// region exactly when the model is textured; no other piece carries a region.
pub proof fn lemma_mesh_body_parts(textured: bool, part: BodyPartType)
    ensures
        exists|i: int|
            0 <= i < character_mesh(textured).len() && (#[trigger] character_mesh(
                textured,
            )[i]).body_part == Some(part),
        forall|i: int, j: int|
            0 <= i < character_mesh(textured).len() && 0 <= j < character_mesh(textured).len()
                && #[trigger] character_mesh(textured)[i].body_part == Some(part)
                && #[trigger] character_mesh(textured)[j].body_part == Some(part) ==> i == j,
        forall|i: int|
            0 <= i < character_mesh(textured).len() ==> (#[trigger] character_mesh(textured)[i]).atlas
                == (match character_mesh(textured)[i].body_part {
                Some(p) => if textured {
                    Some(body_part_region(p))
                } else {
                    None
                },
                None => None,
            }),
{
    let m = character_mesh(textured);
    let idx: int = match part {
        BodyPartType::Torso => 0,
        BodyPartType::Head => 2,
        BodyPartType::LeftArm => if textured { 3 } else { 7 },
        BodyPartType::RightArm => if textured { 4 } else { 9 },
        BodyPartType::LeftLeg => if textured { 5 } else { 11 },
        BodyPartType::RightLeg => if textured { 6 } else { 13 },
    };
    assert(m[idx].body_part == Some(part));
}

/// `s` with every repeat of an earlier element left out, in the order of first
/// appearance.
pub open spec fn first_occurrences(s: Seq<u64>) -> Seq<u64>
    decreases s.len(),
{
    if s.len() == 0 {
        Seq::empty()
    } else {
        let d = first_occurrences(s.drop_last());
        if d.contains(s.last()) {
            d
        } else {
            d.push(s.last())
        }
    }
}

/// Whether `x` is listed in `v`.
fn listed(v: &Vec<u64>, x: u64) -> (b: bool)
    ensures
        b == v@.contains(x),
{
    let mut i: usize = 0;
    while i < v.len()
        invariant
            i <= v.len(),
            forall|j: int| 0 <= j < i ==> v@[j] != x,
        decreases v.len() - i,
    {
        if v[i] == x {
            return true;
        }
        i = i + 1;
    }
    false
}

/// The zombobs that died this frame, from the deaths as the hits reported them: each
/// once, in the order of its first reported death. A zombob hit twice in one frame dies,
/// and counts as a kill, once.
pub fn distinct_deaths(dead: &Vec<u64>) -> (deaths: Vec<u64>)
    ensures
        deaths@ == first_occurrences(dead@),
        deaths@.no_duplicates(),
        forall|x: u64| deaths@.contains(x) <==> dead@.contains(x),
{
    let mut deaths: Vec<u64> = Vec::new();
    let n = dead.len();
    let mut i: usize = 0;
    while i < n
        invariant
            n == dead.len(),
            i <= n,
            deaths@ == first_occurrences(dead@.subrange(0, i as int)),
            deaths@.no_duplicates(),
            forall|x: u64| deaths@.contains(x) <==> dead@.subrange(0, i as int).contains(x),
        decreases n - i,
    {
        let x = dead[i];
        let ghost prefix = dead@.subrange(0, i as int);
        let ghost next = dead@.subrange(0, i + 1);
        assert(next.drop_last() =~= prefix);
        assert(next.last() == x);
        let ghost before = deaths@;
        if !listed(&deaths, x) {
            deaths.push(x);
        }
        proof {
            assert forall|y: u64| next.contains(y) <==> (prefix.contains(y) || y == x) by {
                if prefix.contains(y) {
                    let j = choose|j: int| 0 <= j < prefix.len() && prefix[j] == y;
                    assert(next[j] == y);
                }
                if next.contains(y) && y != x {
                    let j = choose|j: int| 0 <= j < next.len() && next[j] == y;
                    assert(prefix[j] == y);
                }
                if y == x {
                    assert(next[i as int] == y);
                }
            }
            assert forall|y: u64| deaths@.contains(y) <==> (before.contains(y) || y == x) by {
                if deaths@ != before {
                    assert(deaths@ == before.push(x));
                    if deaths@.contains(y) && y != x {
                        let j = choose|j: int| 0 <= j < deaths@.len() && deaths@[j] == y;
                        assert(before[j] == y);
                    }
                    if before.contains(y) {
                        let j = choose|j: int| 0 <= j < before.len() && before[j] == y;
                        assert(deaths@[j] == y);
                    }
                    assert(deaths@[before.len() as int] == x);
                }
            }
            assert forall|y: u64| deaths@.contains(y) <==> next.contains(y) by {
                assert(before.contains(y) <==> prefix.contains(y));
            }
        }
        i = i + 1;
    }
    assert(dead@.subrange(0, n as int) =~= dead@);
    deaths
}

/// The ids of run-scoped entities in the order they are despawned on a restart:
/// projectiles, then muzzle flashes, then debris, each group last-found first.
pub fn ephemeral_despawn_order(projectiles: &Vec<u64>, flashes: &Vec<u64>, debris: &Vec<u64>) -> (out:
    Vec<u64>)
    ensures
        out@ == projectiles@.reverse() + flashes@.reverse() + debris@.reverse(),
{
    let mut out: Vec<u64> = Vec::new();
    append_reversed(&mut out, projectiles);
    append_reversed(&mut out, flashes);
    append_reversed(&mut out, debris);
    out
}

fn append_reversed(out: &mut Vec<u64>, ids: &Vec<u64>)
    ensures
        final(out)@ == old(out)@ + ids@.reverse(),
{
    let n = ids.len();
    let mut i: usize = n;
    let ghost start = out@;
    while i > 0
        invariant
            n == ids.len(),
            i <= n,
            out@ == start + ids@.reverse().subrange(0, (n - i) as int),
        decreases i,
    {
        i = i - 1;
        out.push(ids[i]);
        assert(ids@.reverse().subrange(0, (n - i) as int) =~= ids@.reverse().subrange(
            0,
            (n - i - 1) as int,
        ).push(ids@[i as int]));
    }
    assert(ids@.reverse().subrange(0, n as int) =~= ids@.reverse());
}

} // verus!
