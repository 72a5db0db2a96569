use vstd::prelude::*;

verus! {

/// The six boxes a character model is built from.
#[derive(Debug, Clone, Copy, PartialEq, Eq, Structural)]
pub enum BodyPartType {
    Head,
    Torso,
    LeftArm,
    RightArm,
    LeftLeg,
    RightLeg,
}

/// Marks an entity as one box of a character model.
#[derive(Debug, Clone, Copy, PartialEq, Eq, Structural)]
pub struct BodyPart {
    pub part_type: BodyPartType,
}

/// A box-shaped region of the skin texture: origin `(x, y)` and box size `w x h x d`
/// in texels.
#[derive(Debug, Clone, Copy, PartialEq, Eq, Structural)]
pub struct TextureAtlasRegion {
    pub x: u32,
    pub y: u32,
    pub w: u32,
    pub h: u32,
    pub d: u32,
}

/// Attaches an entity to the entity it moves with.
#[derive(Debug, Clone, Copy)]
pub struct Parent {
    pub entity: hecs::Entity,
}

/// Marks the player-controlled entity.
#[derive(Debug, Clone, Copy, PartialEq, Eq, Structural)]
pub struct Player {
    pub id: u32,
}

/// Which shader material an instance is drawn with.
#[derive(Debug, Clone, Copy, PartialEq, Eq, Structural)]
pub enum MaterialId {
    Default,
    Ground,
    Shadow,
}

impl MaterialId {
    /// The number the shader switches on for this material.
    pub open spec fn shader_index(self) -> u32 {
        match self {
            MaterialId::Default => 0,
            MaterialId::Ground => 1,
            MaterialId::Shadow => 2,
        }
    }

    /// The number the shader switches on for this material: 0, 1 or 2.
    pub fn shader_id(&self) -> (id: u32)
        ensures
            id == self.shader_index(),
    {
        match self {
            MaterialId::Default => 0,
            MaterialId::Ground => 1,
            MaterialId::Shadow => 2,
        }
    }
}

/// The kinds of gun the player can carry.
#[derive(Debug, Clone, Copy, PartialEq, Eq, Structural)]
pub enum WeaponType {
    /// Starter pistol: cheap, reliable, 12-round magazine.
    TaurusG2C,
}

/// The ammunition and reload state of a gun.
///
/// The timing of a gun (damage, fire rate, reload time, the running cooldown and
/// reload progress) is kept by the caller in seconds; the operations here take the
/// outcome of those timers as `bool` arguments.
#[derive(Debug, Clone, Copy, PartialEq, Eq, Structural)]
pub struct Weapon {
    pub weapon_type: WeaponType,
    pub clip_size: u32,
    pub current_clip: u32,
    pub total_ammo: u32,
    pub is_reloading: bool,
}

impl Weapon {
    /// A magazine never holds more rounds than it is made for.
    pub open spec fn wf(self) -> bool {
        self.current_clip <= self.clip_size
    }

    /// All rounds the gun carries: loaded plus reserve.
    pub open spec fn rounds(self) -> int {
        self.current_clip + self.total_ammo
    }

    /// Whether a shot may be taken, given whether the fire cooldown has run out.
    pub open spec fn ready_to_fire(self, cooldown_elapsed: bool) -> bool {
        self.current_clip > 0 && !self.is_reloading && cooldown_elapsed
    }

    /// The gun after a trigger pull.
    pub open spec fn fired(self, cooldown_elapsed: bool) -> Weapon {
        if self.ready_to_fire(cooldown_elapsed) {
            Weapon { current_clip: (self.current_clip - 1) as u32, ..self }
        } else {
            self
        }
    }

    /// Whether a reload may begin: not already reloading, room in the magazine,
    /// and rounds in reserve.
    pub open spec fn may_reload(self) -> bool {
        !self.is_reloading && self.current_clip < self.clip_size && self.total_ammo > 0
    }

    /// The gun after a reload request.
    pub open spec fn reload_requested(self) -> Weapon {
        if self.may_reload() {
            Weapon { is_reloading: true, ..self }
        } else {
            self
        }
    }

    /// How many reserve rounds a completed reload moves into the magazine.
    pub open spec fn rounds_to_load(self) -> int {
        let needed = self.clip_size - self.current_clip;
        if needed <= self.total_ammo {
            needed
        } else {
            self.total_ammo as int
        }
    }

    /// The gun after a frame, given whether a running reload has run its full time.
    pub open spec fn updated(self, reload_elapsed: bool) -> Weapon {
        if self.is_reloading && reload_elapsed {
            Weapon {
                current_clip: (self.current_clip + self.rounds_to_load()) as u32,
                total_ammo: (self.total_ammo - self.rounds_to_load()) as u32,
                is_reloading: false,
                ..self
            }
        } else {
            self
        }
    }

    /// The starter pistol: a full 12-round magazine and 48 rounds in reserve.
    pub fn taurus_g2c() -> (w: Self)
        ensures
            w.weapon_type == WeaponType::TaurusG2C,
            w.clip_size == 12,
            w.current_clip == 12,
            w.total_ammo == 48,
            !w.is_reloading,
            w.wf(),
    {
        Weapon {
            weapon_type: WeaponType::TaurusG2C,
            clip_size: 12,
            current_clip: 12,
            total_ammo: 48,
            is_reloading: false,
        }
    }

    /// Whether a shot may be taken now; `cooldown_elapsed` tells whether the time
    /// until the next allowed shot has run out.
    pub fn can_fire(&self, cooldown_elapsed: bool) -> (b: bool)
        ensures
            b == self.ready_to_fire(cooldown_elapsed),
    {
        self.current_clip > 0 && !self.is_reloading && cooldown_elapsed
    }

    /// Pulls the trigger: when a shot may be taken, one round leaves the magazine.
    /// Returns whether the gun fired (the caller then restarts the fire cooldown).
    pub fn fire(&mut self, cooldown_elapsed: bool) -> (fired: bool)
        ensures
            fired == old(self).ready_to_fire(cooldown_elapsed),
            *final(self) == old(self).fired(cooldown_elapsed),
            old(self).wf() ==> final(self).wf(),
    {
        if self.can_fire(cooldown_elapsed) {
            self.current_clip = self.current_clip - 1;
            true
        } else {
            false
        }
    }

    /// Begins a reload when one may begin. Returns whether it began (the caller then
    /// restarts the reload progress).
    pub fn start_reload(&mut self) -> (started: bool)
        ensures
            started == old(self).may_reload(),
            started == (!old(self).is_reloading && old(self).current_clip < old(self).clip_size
                && old(self).total_ammo > 0),
            final(self).is_reloading == (old(self).is_reloading || started),
            *final(self) == old(self).reload_requested(),
            old(self).wf() ==> final(self).wf(),
    {
        if !self.is_reloading && self.current_clip < self.clip_size && self.total_ammo > 0 {
            self.is_reloading = true;
            true
        } else {
            false
        }
    }

    /// Advances a running reload: when `reload_elapsed` says its time is up, the
    /// magazine is filled from the reserve as far as the reserve allows and the
    /// reload ends. Returns whether a reload completed.
    pub fn update(&mut self, reload_elapsed: bool) -> (completed: bool)
        requires
            old(self).is_reloading && reload_elapsed ==> old(self).wf(),
        ensures
            completed == (old(self).is_reloading && reload_elapsed),
            *final(self) == old(self).updated(reload_elapsed),
            old(self).wf() ==> final(self).wf(),
            final(self).rounds() == old(self).rounds(),
    {
        if self.is_reloading && reload_elapsed {
            let ammo_needed = self.clip_size - self.current_clip;
            let ammo_to_load = if ammo_needed <= self.total_ammo {
                ammo_needed
            } else {
                self.total_ammo
            };
            self.current_clip = self.current_clip + ammo_to_load;
            self.total_ammo = self.total_ammo - ammo_to_load;
            self.is_reloading = false;
            true
        } else {
            false
        }
    }
}

/// A completed reload leaves the magazine full, or the reserve empty, and never
/// creates or destroys a round.
pub proof fn lemma_reload_fills_from_reserve(w: Weapon)
    requires
        w.wf(),
        w.is_reloading,
    ensures
        w.updated(true).current_clip == w.clip_size || w.updated(true).total_ammo == 0,
        w.updated(true).rounds() == w.rounds(),
        !w.updated(true).is_reloading,
{
}

/// While a reload runs the gun cannot fire, whatever the cooldown says; so a trigger
/// pull during a reload changes nothing.
pub proof fn lemma_no_fire_while_reloading(w: Weapon, cooldown_elapsed: bool)
    requires
        w.reload_requested().is_reloading,
    ensures
        !w.reload_requested().ready_to_fire(cooldown_elapsed),
        w.reload_requested().fired(cooldown_elapsed) == w.reload_requested(),
{
}

/// Each shot spends exactly one round, from the magazine, and leaves the reserve alone.
pub proof fn lemma_shot_spends_one_round(w: Weapon, cooldown_elapsed: bool)
    requires
        w.ready_to_fire(cooldown_elapsed),
    ensures
        w.fired(cooldown_elapsed).rounds() == w.rounds() - 1,
        w.fired(cooldown_elapsed).total_ammo == w.total_ammo,
{
}

/// Starting a reload and letting it run to the end moves rounds from the reserve into
/// the magazine until one of them is exhausted; a gun that may not reload is left as
/// it was.
pub proof fn lemma_reload_cycle(w: Weapon)
    requires
        w.wf(),
    ensures
        w.may_reload() ==> {
            let r = w.reload_requested().updated(true);
            &&& r.rounds() == w.rounds()
            &&& r.current_clip > w.current_clip
            &&& (r.current_clip == r.clip_size || r.total_ammo == 0)
            &&& !r.is_reloading
        },
        !w.may_reload() && !w.is_reloading ==> w.reload_requested().updated(true) == w,
{
}

/// A reload begins exactly when the gun is not reloading, its magazine has room and
/// its reserve is not empty; beginning one only raises the reloading flag, and a
/// refused request leaves the gun as it was.
pub proof fn lemma_reload_begins_when_room_and_reserve(w: Weapon)
    ensures
        (!w.is_reloading && w.current_clip < w.clip_size && w.total_ammo > 0) ==> w.reload_requested()
            == (Weapon { is_reloading: true, ..w }),
        !(!w.is_reloading && w.current_clip < w.clip_size && w.total_ammo > 0) ==> w.reload_requested()
            == w,
        w.reload_requested().current_clip == w.current_clip,
        w.reload_requested().total_ammo == w.total_ammo,
{
}

/// A trigger pull fires exactly when the magazine holds a round, no reload runs and the
/// cooldown has run out; a shot takes one round from the magazine and changes nothing
/// else, and a refused pull changes nothing.
pub proof fn lemma_shot_rules(w: Weapon, cooldown_elapsed: bool)
    ensures
        w.ready_to_fire(cooldown_elapsed) == (w.current_clip > 0 && !w.is_reloading
            && cooldown_elapsed),
        w.fired(cooldown_elapsed).current_clip == (if w.current_clip > 0 && !w.is_reloading
            && cooldown_elapsed {
            w.current_clip - 1
        } else {
            w.current_clip as int
        }),
        w.fired(cooldown_elapsed).total_ammo == w.total_ammo,
        w.fired(cooldown_elapsed).clip_size == w.clip_size,
        w.fired(cooldown_elapsed).is_reloading == w.is_reloading,
        w.fired(cooldown_elapsed).weapon_type == w.weapon_type,
{
}

/// Marker for the gun model drawn in first person.
#[derive(Debug, Clone, Copy, PartialEq, Eq, Structural)]
pub struct GunModel;

/// Whether a character holds its gun up (read by the animation).
#[derive(Debug, Clone, Copy, PartialEq, Eq, Structural)]
pub struct IsShooting {
    pub active: bool,
}

/// Marker for an enemy.
#[derive(Debug, Clone, Copy, PartialEq, Eq, Structural)]
pub struct Zombob;

/// Marker for the player character's identity.
#[derive(Debug, Clone, Copy, PartialEq, Eq, Structural)]
pub struct Jeff;

/// Run stats tracked for scoring and the game-over screen.
#[derive(Debug, Clone, Copy, PartialEq, Eq, Structural)]
pub struct PlayerStats {
    pub kills: u32,
}

impl PlayerStats {
    /// A fresh run: no kills yet.
    pub fn new() -> (stats: Self)
        ensures
            stats.kills == 0,
    {
        PlayerStats { kills: 0 }
    }

    /// Counts one more kill.
    pub fn record_kill(&mut self)
        requires
            old(self).kills < u32::MAX,
        ensures
            final(self).kills == old(self).kills + 1,
    {
        self.kills = self.kills + 1;
    }
}

} // verus!
