//! Game components: plain data attached to entities.
//!
//! Distances and positions are in milli-units (see `num::SCALE`), durations
//! in microseconds, speeds in milli-units per second.

use vstd::prelude::*;

verus! {

/// Position in 2D space, in milli-units.
#[derive(Debug, Clone, Copy, PartialEq, Eq, Structural)]
pub struct Position {
    pub x: i64,
    pub y: i64,
}

impl Position {
    pub fn new(x: i64, y: i64) -> (r: Position)
        ensures
            r == (Position { x, y }),
    {
        Position { x, y }
    }

    /// Squared distance to another position, as a wide integer.
    pub fn distance_sq_to(&self, other: &Position) -> (r: i128)
        requires
            in_coord_range(*self),
            in_coord_range(*other),
        ensures
            r == dist_sq(*self, *other),
            0 <= r <= 8000000000000000000,
    {
        let dx = (other.x as i128) - (self.x as i128);
        let dy = (other.y as i128) - (self.y as i128);
        proof {
            lemma_sq_range(dx as int);
            lemma_sq_range(dy as int);
        }
        dx * dx + dy * dy
    }

    /// Distance to another position in milli-units, rounded down: the
    /// result is the integer square root of the squared distance.
    pub fn distance_to(&self, other: &Position) -> (r: i64)
        requires
            in_coord_range(*self),
            in_coord_range(*other),
        ensures
            r >= 0,
            (r as int) * (r as int) <= dist_sq(*self, *other),
            dist_sq(*self, *other) < (r + 1) * (r + 1),
    {
        let sq = self.distance_sq_to(other);
        let r = crate::num::isqrt(sq as u64);
        proof {
            assert((r as int) * (r as int) <= sq as int);
            assert(r as int <= 3000000000) by (nonlinear_arith)
                requires
                    (r as int) * (r as int) <= 8000000000000000000 as int,
                    r as int >= 0,
            ;
        }
        r as i64
    }
}

/// Both coordinates of the position are within `num::COORD_LIMIT`.
pub open spec fn in_coord_range(p: Position) -> bool {
    crate::num::abs_spec(p.x as int) <= crate::num::COORD_LIMIT
        && crate::num::abs_spec(p.y as int) <= crate::num::COORD_LIMIT
}

proof fn lemma_sq_range(a: int)
    requires
        -2000000000 <= a <= 2000000000,
    ensures
        0 <= a * a <= 4000000000000000000,
{
    assert(0 <= a * a <= 4000000000000000000) by (nonlinear_arith)
        requires
            -2000000000 <= a <= 2000000000,
    ;
}

/// Squared Euclidean distance between two positions.
pub open spec fn dist_sq(a: Position, b: Position) -> int {
    (b.x - a.x) * (b.x - a.x) + (b.y - a.y) * (b.y - a.y)
}

/// Velocity in milli-units per second.
#[derive(Debug, Clone, Copy, PartialEq, Eq, Structural)]
pub struct Velocity {
    pub x: i64,
    pub y: i64,
}

impl Velocity {
    pub fn new(x: i64, y: i64) -> (r: Velocity)
        ensures
            r == (Velocity { x, y }),
    {
        Velocity { x, y }
    }

    pub fn zero() -> (r: Velocity)
        ensures
            r == (Velocity { x: 0, y: 0 }),
    {
        Velocity { x: 0, y: 0 }
    }
}

/// Health component.
#[derive(Debug, Clone, Copy, PartialEq, Eq, Structural)]
pub struct Health {
    pub current: i32,
    pub max: i32,
}

impl Health {
    pub fn new(max: i32) -> (r: Health)
        ensures
            r == (Health { current: max, max }),
    {
        Health { current: max, max }
    }

    /// Lowers current health by `damage`, clamped at zero from below.
    pub fn take_damage(&mut self, damage: i32)
        requires
            damage >= 0,
        ensures
            final (self).max == old(self).max,
            final (self).current == if old(self).current - damage >= 0 {
                old(self).current - damage
            } else {
                0
            },
    {
        if self.current >= damage {
            self.current = self.current - damage;
        } else {
            self.current = 0;
        }
    }

    pub fn is_alive(&self) -> (r: bool)
        ensures
            r == (self.current > 0),
    {
        self.current > 0
    }

    pub fn is_dead(&self) -> (r: bool)
        ensures
            r == (self.current <= 0),
    {
        self.current <= 0
    }
}

/// Movement speed, in milli-units per second.
#[derive(Debug, Clone, Copy, PartialEq, Eq, Structural)]
pub struct Speed {
    pub value: i64,
}

impl Speed {
    pub fn new(value: i64) -> (r: Speed)
        ensures
            r == (Speed { value }),
    {
        Speed { value }
    }
}

/// Facing direction, held as a (not necessarily normalised) vector.
/// The default facing `(SCALE, 0)` points along the positive x axis.
#[derive(Debug, Clone, Copy, PartialEq, Eq, Structural)]
pub struct Rotation {
    pub x: i64,
    pub y: i64,
}

impl Rotation {
    pub fn new(x: i64, y: i64) -> (r: Rotation)
        ensures
            r == (Rotation { x, y }),
    {
        Rotation { x, y }
    }
}

/// Circular collision radius, in milli-units.
#[derive(Debug, Clone, Copy, PartialEq, Eq, Structural)]
pub struct Radius {
    pub value: i64,
}

impl Radius {
    pub fn new(value: i64) -> (r: Radius)
        ensures
            r == (Radius { value }),
    {
        Radius { value }
    }
}

/// Tag component for the player.
#[derive(Debug, Clone, Copy, PartialEq, Eq, Structural)]
pub struct Player;

/// Tag component for enemies.
#[derive(Debug, Clone, Copy, PartialEq, Eq, Structural)]
pub struct Enemy;

/// Enemy initial behaviour archetype.
#[derive(Debug, Clone, Copy, PartialEq, Eq, Structural)]
pub enum EnemyType {
    Idle,
    Wandering,
    Patrolling,
}

/// Enemy AI perception state. The last four variants are legacy states kept
/// for compatibility with older callers; the perception machine itself only
/// produces the first four.
#[derive(Debug, Clone, Copy, PartialEq, Eq, Structural)]
pub enum AIState {
    Unaware,
    SpottedUnsure,
    SurePlayerSeen,
    Confused,
    Idle,
    Patrol,
    Chase,
    Attack,
}

/// Wander sub-state used while an enemy is unaware.
#[derive(Debug, Clone, Copy, PartialEq, Eq, Structural)]
pub enum WanderState {
    Moving,
    LookingAround,
    Waiting,
}

/// AI component for enemies. Durations and timers are in microseconds,
/// ranges in milli-units; `wander_direction` is an index into the table of
/// 36 evenly spaced headings (10 degrees apart).
#[derive(Debug, Clone, Copy, PartialEq, Eq, Structural)]
pub struct AI {
    pub state: AIState,
    pub initial_type: EnemyType,
    pub spawn_position: Position,
    pub last_known_player_position: Option<Position>,
    pub check_position: Option<Position>,
    pub detection_range: i64,
    pub attack_range: i64,
    pub attack_cooldown: i64,
    pub attack_timer: i64,
    pub state_timer: i64,
    pub spot_duration: i64,
    pub unsure_check_duration: i64,
    pub lost_player_duration: i64,
    pub confusion_duration: i64,
    pub confusion_look_timer: i64,
    pub confusion_looks_remaining: i32,
    pub confusion_look_duration: i64,
    pub wander_timer: i64,
    pub wander_look_timer: i64,
    pub wander_state: WanderState,
    pub wander_direction: u32,
    pub movement_square_size: i64,
}

impl AI {
    pub fn new() -> (r: AI)
        ensures
            r == AI::default_spec(),
    {
        AI {
            state: AIState::Unaware,
            initial_type: EnemyType::Idle,
            spawn_position: Position { x: 0, y: 0 },
            last_known_player_position: None,
            check_position: None,
            detection_range: 900000,
            attack_range: 40000,
            attack_cooldown: 1000000,
            attack_timer: 0,
            state_timer: 0,
            spot_duration: 300000,
            unsure_check_duration: 2000000,
            lost_player_duration: 3000000,
            confusion_duration: 3000000,
            confusion_look_timer: 0,
            confusion_looks_remaining: 0,
            confusion_look_duration: 300000,
            wander_timer: 0,
            wander_look_timer: 0,
            wander_state: WanderState::Waiting,
            wander_direction: 0,
            movement_square_size: 150000,
        }
    }

    /// The value produced by `AI::new`.
    pub open spec fn default_spec() -> AI {
        AI {
            state: AIState::Unaware,
            initial_type: EnemyType::Idle,
            spawn_position: Position { x: 0, y: 0 },
            last_known_player_position: None,
            check_position: None,
            detection_range: 900000,
            attack_range: 40000,
            attack_cooldown: 1000000,
            attack_timer: 0,
            state_timer: 0,
            spot_duration: 300000,
            unsure_check_duration: 2000000,
            lost_player_duration: 3000000,
            confusion_duration: 3000000,
            confusion_look_timer: 0,
            confusion_looks_remaining: 0,
            confusion_look_duration: 300000,
            wander_timer: 0,
            wander_look_timer: 0,
            wander_state: WanderState::Waiting,
            wander_direction: 0,
            movement_square_size: 150000,
        }
    }

    pub fn new_with_type(enemy_type: EnemyType, spawn_pos: Position) -> (r: AI)
        ensures
            r == (AI {
                initial_type: enemy_type,
                spawn_position: spawn_pos,
                ..AI::default_spec()
            }),
    {
        let mut ai = Self::new();
        ai.initial_type = enemy_type;
        ai.spawn_position = spawn_pos;
        ai
    }

    /// An agent can attack only once its attack timer has decayed to zero.
    pub fn can_attack(&self) -> (r: bool)
        ensures
            r == (self.attack_timer <= 0),
    {
        self.attack_timer <= 0
    }

    /// Triggering an attack resets the timer to the configured cooldown.
    pub fn reset_attack_timer(&mut self)
        ensures
            *final (self) == (AI { attack_timer: old(self).attack_cooldown, ..*old(self) }),
    {
        self.attack_timer = self.attack_cooldown;
    }
}

impl Default for AI {
    fn default() -> (r: AI)
        ensures
            r == AI::default_spec(),
    {
        AI::new()
    }
}

/// Weapon kinds.
#[derive(Debug, Clone, Copy, PartialEq, Eq, Structural)]
pub enum WeaponType {
    Pistol,
    Shotgun,
    MachineGun,
    Melee,
}

/// Weapon component; `fire_rate` and `fire_timer` are in microseconds.
#[derive(Debug, Clone, Copy, PartialEq, Eq, Structural)]
pub struct Weapon {
    pub weapon_type: WeaponType,
    pub damage: i32,
    pub ammo: i32,
    pub max_ammo: i32,
    pub fire_rate: i64,
    pub fire_timer: i64,
}

/// Damage, magazine size and cooldown of each weapon kind.
pub open spec fn weapon_stats(t: WeaponType) -> (int, int, int) {
    match t {
        WeaponType::Pistol => (50, 12, 500000),
        WeaponType::Shotgun => (80, 6, 1000000),
        WeaponType::MachineGun => (30, 30, 100000),
        WeaponType::Melee => (100, 999, 500000),
    }
}

impl Weapon {
    pub fn new(weapon_type: WeaponType) -> (r: Weapon)
        ensures
            r.weapon_type == weapon_type,
            r.damage == weapon_stats(weapon_type).0,
            r.max_ammo == weapon_stats(weapon_type).1,
            r.ammo == r.max_ammo,
            r.fire_rate == weapon_stats(weapon_type).2,
            r.fire_timer == 0,
    {
        let (damage, max_ammo, fire_rate): (i32, i32, i64) = match weapon_type {
            WeaponType::Pistol => (50, 12, 500000),
            WeaponType::Shotgun => (80, 6, 1000000),
            WeaponType::MachineGun => (30, 30, 100000),
            WeaponType::Melee => (100, 999, 500000),
        };
        Weapon { weapon_type, damage, ammo: max_ammo, max_ammo, fire_rate, fire_timer: 0 }
    }

    /// A weapon can fire once its cooldown has elapsed and ammunition remains.
    pub fn can_fire(&self) -> (r: bool)
        ensures
            r == (self.fire_timer <= 0 && self.ammo > 0),
    {
        self.fire_timer <= 0 && self.ammo > 0
    }

    /// Firing spends one round and restarts the cooldown; a weapon that
    /// cannot fire is left unchanged.
    pub fn fire(&mut self)
        ensures
            *final (self) == if old(self).fire_timer <= 0 && old(self).ammo > 0 {
                Weapon {
                    ammo: (old(self).ammo - 1) as i32,
                    fire_timer: old(self).fire_rate,
                    ..*old(self)
                }
            } else {
                *old(self)
            },
    {
        if self.can_fire() {
            self.ammo = self.ammo - 1;
            self.fire_timer = self.fire_rate;
        }
    }

    /// Advances the cooldown; a timer already at or below zero stays put.
    pub fn update(&mut self, dt: i64)
        requires
            0 <= dt,
            crate::num::TIMER_FLOOR <= old(self).fire_timer,
        ensures
            *final (self) == if old(self).fire_timer > 0 {
                Weapon {
                    fire_timer: if old(self).fire_timer - dt >= crate::num::TIMER_FLOOR {
                        old(self).fire_timer - dt
                    } else {
                        crate::num::TIMER_FLOOR as int
                    } as i64,
                    ..*old(self)
                }
            } else {
                *old(self)
            },
    {
        if self.fire_timer > 0 {
            self.fire_timer = crate::num::sat_sub_timer(self.fire_timer, dt);
        }
    }
}

/// A short-lived visual trail; `lifetime` is in microseconds.
#[derive(Debug, Clone, Copy, PartialEq, Eq, Structural)]
pub struct ProjectileTrail {
    pub start: Position,
    pub end: Position,
    pub lifetime: i64,
    pub max_lifetime: i64,
}

impl ProjectileTrail {
    pub fn new(start: Position, end: Position) -> (r: ProjectileTrail)
        ensures
            r == (ProjectileTrail { start, end, lifetime: 150000, max_lifetime: 150000 }),
    {
        ProjectileTrail { start, end, lifetime: 150000, max_lifetime: 150000 }
    }

    pub fn is_alive(&self) -> (r: bool)
        ensures
            r == (self.lifetime > 0),
    {
        self.lifetime > 0
    }
}

/// A physical bullet; speed in milli-units per second, lifetime in
/// microseconds.
#[derive(Debug, Clone, Copy, PartialEq, Eq, Structural)]
pub struct Bullet {
    pub damage: i32,
    pub speed: i64,
    pub lifetime: i64,
    pub max_lifetime: i64,
}

impl Bullet {
    pub fn new(damage: i32) -> (r: Bullet)
        ensures
            r == (Bullet { damage, speed: 800000, lifetime: 3000000, max_lifetime: 3000000 }),
    {
        Bullet { damage, speed: 800000, lifetime: 3000000, max_lifetime: 3000000 }
    }

    pub fn is_alive(&self) -> (r: bool)
        ensures
            r == (self.lifetime > 0),
    {
        self.lifetime > 0
    }
}

/// Magnitude limits on stored components, chosen so that every arithmetic
/// step a system takes stays far inside the machine integers: positions to
/// a hundred thousand world units, speeds to a thousand units per second,
/// timers inside the saturation floor.
pub const POS_LIMIT: i64 = 100000000;

pub const VEL_LIMIT: i64 = 1000000;

pub const ROT_LIMIT: i64 = 2000000000;

pub const TIMER_LIMIT: i64 = 1000000000000000;

pub open spec fn pos_bounded(p: Position) -> bool {
    crate::num::abs_spec(p.x as int) <= POS_LIMIT && crate::num::abs_spec(p.y as int) <= POS_LIMIT
}

pub open spec fn vel_bounded(v: Velocity) -> bool {
    crate::num::abs_spec(v.x as int) <= VEL_LIMIT && crate::num::abs_spec(v.y as int) <= VEL_LIMIT
}

pub open spec fn rot_bounded(r: Rotation) -> bool {
    crate::num::abs_spec(r.x as int) <= ROT_LIMIT && crate::num::abs_spec(r.y as int) <= ROT_LIMIT
}

pub open spec fn timer_ok(t: i64) -> bool {
    -TIMER_LIMIT <= t <= TIMER_LIMIT
}

pub open spec fn speed_bounded(s: Speed) -> bool {
    0 <= s.value <= VEL_LIMIT
}

pub open spec fn radius_bounded(r: Radius) -> bool {
    0 <= r.value <= POS_LIMIT
}

pub open spec fn weapon_bounded(w: Weapon) -> bool {
    timer_ok(w.fire_rate) && timer_ok(w.fire_timer) && 0 <= w.fire_rate
}

pub open spec fn bullet_bounded(b: Bullet) -> bool {
    0 <= b.speed <= VEL_LIMIT && timer_ok(b.lifetime) && timer_ok(b.max_lifetime)
}

pub open spec fn trail_bounded(t: ProjectileTrail) -> bool {
    pos_bounded(t.start) && pos_bounded(t.end) && timer_ok(t.lifetime) && timer_ok(t.max_lifetime)
}

pub open spec fn opt_pos_bounded(p: Option<Position>) -> bool {
    match p {
        Some(q) => pos_bounded(q),
        None => true,
    }
}

pub open spec fn ai_bounded(ai: AI) -> bool {
    &&& pos_bounded(ai.spawn_position)
    &&& opt_pos_bounded(ai.last_known_player_position)
    &&& opt_pos_bounded(ai.check_position)
    &&& 0 <= ai.detection_range <= POS_LIMIT
    &&& 0 <= ai.attack_range <= POS_LIMIT
    &&& 0 <= ai.attack_cooldown <= TIMER_LIMIT
    &&& timer_ok(ai.attack_timer)
    &&& timer_ok(ai.state_timer)
    &&& 0 <= ai.spot_duration <= TIMER_LIMIT
    &&& 0 <= ai.unsure_check_duration <= TIMER_LIMIT
    &&& 0 <= ai.lost_player_duration <= TIMER_LIMIT
    &&& 0 <= ai.confusion_duration <= TIMER_LIMIT
    &&& timer_ok(ai.confusion_look_timer)
    &&& 0 <= ai.confusion_look_duration <= TIMER_LIMIT
    &&& timer_ok(ai.wander_timer)
    &&& timer_ok(ai.wander_look_timer)
    &&& ai.wander_direction < 36
    &&& 0 <= ai.movement_square_size <= POS_LIMIT
}

} // verus!
