//! Enemy AI: perception, the four-state behaviour machine, wander/patrol
//! idling, and chase movement via the navigation grid.

use crate::collision::has_line_of_sight;
use crate::components::{
    ai_bounded, dist_sq, in_coord_range, pos_bounded, AIState, EnemyType, Position, Rotation,
    WanderState, AI,
};
use crate::ecs::component::{Component, ComponentId};
use crate::ecs::entity::Entity;
use crate::ecs::system::{System, MAX_FRAME_DT};
use crate::ecs::world::{Wall, World};
use crate::num::{abs_spec, sat_sub_timer};
use crate::rng::Rng;
use vstd::prelude::*;

verus! {

/// Tolerance for having returned to the check position, in milli-units
/// (five world units).
pub const CHECK_TOLERANCE: i64 = 5000;

/// The number of evenly spaced headings used by the wander behaviour.
pub const WANDER_DIRECTIONS: u32 = 36;

/// The heading vector of direction `d` (ten-degree steps), scaled by a
/// thousand: cosine and sine of the heading angle.
pub open spec fn dir_vec_spec(d: u32) -> (int, int) {
    if d == 0 { (1000int, 0int) }
    else if d == 1 { (985int, 174int) }
    else if d == 2 { (940int, 342int) }
    else if d == 3 { (866int, 500int) }
    else if d == 4 { (766int, 643int) }
    else if d == 5 { (643int, 766int) }
    else if d == 6 { (500int, 866int) }
    else if d == 7 { (342int, 940int) }
    else if d == 8 { (174int, 985int) }
    else if d == 9 { (0int, 1000int) }
    else if d == 10 { (-174int, 985int) }
    else if d == 11 { (-342int, 940int) }
    else if d == 12 { (-500int, 866int) }
    else if d == 13 { (-643int, 766int) }
    else if d == 14 { (-766int, 643int) }
    else if d == 15 { (-866int, 500int) }
    else if d == 16 { (-940int, 342int) }
    else if d == 17 { (-985int, 174int) }
    else if d == 18 { (-1000int, 0int) }
    else if d == 19 { (-985int, -174int) }
    else if d == 20 { (-940int, -342int) }
    else if d == 21 { (-866int, -500int) }
    else if d == 22 { (-766int, -643int) }
    else if d == 23 { (-643int, -766int) }
    else if d == 24 { (-500int, -866int) }
    else if d == 25 { (-342int, -940int) }
    else if d == 26 { (-174int, -985int) }
    else if d == 27 { (0int, -1000int) }
    else if d == 28 { (174int, -985int) }
    else if d == 29 { (342int, -940int) }
    else if d == 30 { (500int, -866int) }
    else if d == 31 { (643int, -766int) }
    else if d == 32 { (766int, -643int) }
    else if d == 33 { (866int, -500int) }
    else if d == 34 { (940int, -342int) }
    else { (985int, -174int) }
}

/// The heading vector of direction `d`, scaled by a thousand.
pub fn dir_vec(d: u32) -> (r: (i64, i64))
    ensures
        (r.0 as int, r.1 as int) == dir_vec_spec(d),
        -1000 <= r.0 <= 1000,
        -1000 <= r.1 <= 1000,
{
    if d == 0 { (1000, 0) }
    else if d == 1 { (985, 174) }
    else if d == 2 { (940, 342) }
    else if d == 3 { (866, 500) }
    else if d == 4 { (766, 643) }
    else if d == 5 { (643, 766) }
    else if d == 6 { (500, 866) }
    else if d == 7 { (342, 940) }
    else if d == 8 { (174, 985) }
    else if d == 9 { (0, 1000) }
    else if d == 10 { (-174, 985) }
    else if d == 11 { (-342, 940) }
    else if d == 12 { (-500, 866) }
    else if d == 13 { (-643, 766) }
    else if d == 14 { (-766, 643) }
    else if d == 15 { (-866, 500) }
    else if d == 16 { (-940, 342) }
    else if d == 17 { (-985, 174) }
    else if d == 18 { (-1000, 0) }
    else if d == 19 { (-985, -174) }
    else if d == 20 { (-940, -342) }
    else if d == 21 { (-866, -500) }
    else if d == 22 { (-766, -643) }
    else if d == 23 { (-643, -766) }
    else if d == 24 { (-500, -866) }
    else if d == 25 { (-342, -940) }
    else if d == 26 { (-174, -985) }
    else if d == 27 { (0, -1000) }
    else if d == 28 { (174, -985) }
    else if d == 29 { (342, -940) }
    else if d == 30 { (500, -866) }
    else if d == 31 { (643, -766) }
    else if d == 32 { (766, -643) }
    else if d == 33 { (866, -500) }
    else if d == 34 { (940, -342) }
    else { (985, -174) }
}

/// Whether `pos` lies in the closed axis-aligned square of half-size
/// `square_size` around `spawn`.
pub open spec fn within_square(pos: Position, spawn: Position, square_size: int) -> bool {
    abs_spec(pos.x - spawn.x) <= square_size && abs_spec(pos.y - spawn.y) <= square_size
}

/// Whether the target lies within the ninety-degree vision cone of an
/// agent at `enemy_pos` facing along `(fx, fy)`: the angle between the
/// facing and the line to the target is at most forty-five degrees, which
/// over integers is that the dot product dominates the cross product's
/// magnitude.
pub open spec fn in_vision_cone(enemy_pos: Position, target_pos: Position, fx: int, fy: int) -> bool {
    let dx = target_pos.x - enemy_pos.x;
    let dy = target_pos.y - enemy_pos.y;
    let dot = fx * dx + fy * dy;
    let cross = fx * dy - fy * dx;
    dot >= abs_spec(cross)
}

/// The facing vector of a rotation; an agent with the zero vector faces
/// along the positive x axis.
pub open spec fn facing_of(r: Rotation) -> (int, int) {
    if r.x == 0 && r.y == 0 {
        (1000int, 0int)
    } else {
        (r.x as int, r.y as int)
    }
}

/// The full perception gate: unobstructed line of sight, player strictly
/// within detection range, and within the vision cone.
pub open spec fn can_see_player(
    enemy_pos: Position,
    player_pos: Position,
    rot: Rotation,
    detection_range: int,
    walls: Seq<Wall>,
) -> bool {
    &&& crate::collision::los(enemy_pos, player_pos, walls)
    &&& dist_sq(enemy_pos, player_pos) < detection_range * detection_range
    &&& in_vision_cone(enemy_pos, player_pos, facing_of(rot).0, facing_of(rot).1)
}

/// The rotation the perception uses for `id`: its rotation component, or
/// the default facing without one.
pub open spec fn facing_component(w: World, id: u64) -> Rotation {
    match w.lookup(Entity(id), ComponentId::Rotation) {
        Some(Component::Rotation(r)) => r,
        _ => Rotation { x: 1000, y: 0 },
    }
}

/// Whether the enemy with id `id` perceives a player at `ppos` in world
/// `w`: line of sight, detection range and vision cone together.
pub open spec fn sees_player(w: World, id: u64, ppos: Position) -> bool {
    match (w.lookup(Entity(id), ComponentId::Position), w.lookup(Entity(id), ComponentId::Ai)) {
        (Some(Component::Position(epos)), Some(Component::Ai(a))) => can_see_player(
            epos,
            ppos,
            facing_component(w, id),
            a.detection_range as int,
            w.walls_view(),
        ),
        _ => false,
    }
}

/// The position of the first player, when the AI frame runs at all: a
/// player exists, has a position, and it is within the world's bounds.
pub open spec fn ai_frame_player(w: World) -> Option<Position> {
    if w.query_spec(ComponentId::Player).len() > 0 {
        match w.lookup(w.query_spec(ComponentId::Player)[0], ComponentId::Position) {
            Some(Component::Position(p)) => if pos_bounded(p) {
                Some(p)
            } else {
                None
            },
            _ => None,
        }
    } else {
        None
    }
}

/// How one frame advances a live enemy's perception record, exactly as
/// the four-state machine prescribes, given whether it perceives a player
/// at `ppos` in the old world. Enemies without the full kit, or dead, are
/// unconstrained here.
pub open spec fn perception_outcome(w0: World, w1: World, id: u64, ppos: Position, dt: int) -> bool {
    match (
        w0.lookup(Entity(id), ComponentId::Position),
        w0.lookup(Entity(id), ComponentId::Health),
        w0.lookup(Entity(id), ComponentId::Ai),
        w1.lookup(Entity(id), ComponentId::Ai),
    ) {
        (
            Some(Component::Position(ep)),
            Some(Component::Health(h)),
            Some(Component::Ai(a0)),
            Some(Component::Ai(a1)),
        ) => {
            h.current > 0 && (w0.lookup(Entity(id), ComponentId::Speed) matches Some(
                Component::Speed(_),
            )) ==> {
                let sees = sees_player(w0, id, ppos);
                let ticked = sat_timer_spec(a0.state_timer as int, dt);
                &&& a1.attack_timer == (if a0.attack_timer > 0 {
                    sat_timer_spec(a0.attack_timer as int, dt)
                } else {
                    a0.attack_timer as int
                })
                &&& a1.initial_type == a0.initial_type
                &&& a1.spawn_position == a0.spawn_position
                &&& a1.detection_range == a0.detection_range
                &&& a1.attack_range == a0.attack_range
                &&& (a0.state == AIState::Unaware && sees ==> a1.state == AIState::SpottedUnsure
                    && a1.check_position == Some(ep) && a1.last_known_player_position == Some(
                    ppos,
                ) && a1.state_timer == a0.spot_duration)
                &&& (a0.state == AIState::Unaware && !sees ==> a1.state == AIState::Unaware
                    && a1.check_position == a0.check_position
                    && a1.last_known_player_position == a0.last_known_player_position)
                &&& (a0.state == AIState::SpottedUnsure && sees
                    ==> a1.last_known_player_position == Some(ppos) && a1.state == (if ticked
                    <= 0 {
                    AIState::SurePlayerSeen
                } else {
                    AIState::SpottedUnsure
                }))
                &&& (a0.state == AIState::SpottedUnsure && !sees ==> a1.state == (
                match a0.check_position {
                    Some(cp) => if dist_sq(ep, cp) < CHECK_TOLERANCE * CHECK_TOLERANCE {
                        AIState::Unaware
                    } else {
                        AIState::SpottedUnsure
                    },
                    None => AIState::Unaware,
                }))
                &&& (a0.state == AIState::SurePlayerSeen && sees ==> a1.state
                    == AIState::SurePlayerSeen && a1.last_known_player_position == Some(ppos)
                    && a1.state_timer == a0.lost_player_duration)
                &&& (a0.state == AIState::SurePlayerSeen && !sees ==> a1.state == (if ticked
                    <= 0 {
                    AIState::Confused
                } else {
                    AIState::SurePlayerSeen
                }) && (a1.state == AIState::Confused ==> 2 <= a1.confusion_looks_remaining <= 3
                    && a1.confusion_look_timer == a0.confusion_look_duration))
                &&& (a0.state == AIState::Confused && sees ==> a1.state
                    == AIState::SurePlayerSeen && a1.last_known_player_position == Some(ppos)
                    && a1.state_timer == a0.lost_player_duration)
                &&& (a0.state == AIState::Confused && !sees ==> (a1.state == AIState::Confused
                    || (a1.state == AIState::Unaware && a1.wander_state
                    == WanderState::Waiting)))
                &&& (a0.state == AIState::Idle || a0.state == AIState::Patrol || a0.state
                    == AIState::Chase || a0.state == AIState::Attack ==> a1.state == a0.state)
            }
        },
        _ => true,
    }
}

/// How one frame drives a kitted enemy's movement outputs: a dead enemy
/// only has its velocity cleared; a sure agent seeing the player within
/// attack range stands still and turns to face it; an unaware idler that
/// perceives nothing neither moves nor turns.
pub open spec fn motion_outcome(w0: World, w1: World, id: u64, ppos: Position) -> bool {
    match (
        w0.lookup(Entity(id), ComponentId::Position),
        w0.lookup(Entity(id), ComponentId::Health),
        w0.lookup(Entity(id), ComponentId::Ai),
    ) {
        (Some(Component::Position(ep)), Some(Component::Health(h)), Some(Component::Ai(a0))) => {
            (w0.lookup(Entity(id), ComponentId::Speed) matches Some(Component::Speed(_)))
                ==> {
                let sees = sees_player(w0, id, ppos);
                let has_vel = w0.cmap().contains_key((id, ComponentId::Velocity));
                &&& (h.current <= 0 ==> {
                    &&& w1.lookup(Entity(id), ComponentId::Ai) == w0.lookup(
                        Entity(id),
                        ComponentId::Ai,
                    )
                    &&& w1.lookup(Entity(id), ComponentId::Rotation) == w0.lookup(
                        Entity(id),
                        ComponentId::Rotation,
                    )
                    &&& (has_vel ==> w1.lookup(Entity(id), ComponentId::Velocity) == Some(
                        Component::Velocity(crate::components::Velocity { x: 0, y: 0 }),
                    ))
                })
                &&& (h.current > 0 && a0.state == AIState::SurePlayerSeen && sees && dist_sq(
                    ep,
                    ppos,
                ) < a0.attack_range * a0.attack_range ==> {
                    &&& (has_vel ==> w1.lookup(Entity(id), ComponentId::Velocity) == Some(
                        Component::Velocity(crate::components::Velocity { x: 0, y: 0 }),
                    ))
                    &&& (w0.cmap().contains_key((id, ComponentId::Rotation)) ==> w1.lookup(
                        Entity(id),
                        ComponentId::Rotation,
                    ) == Some(
                        Component::Rotation(
                            Rotation { x: (ppos.x - ep.x) as i64, y: (ppos.y - ep.y) as i64 },
                        ),
                    ))
                })
                &&& (h.current > 0 && a0.state == AIState::Unaware && !sees && a0.initial_type
                    == EnemyType::Idle ==> {
                    &&& (has_vel ==> w1.lookup(Entity(id), ComponentId::Velocity) == Some(
                        Component::Velocity(crate::components::Velocity { x: 0, y: 0 }),
                    ))
                    &&& w1.lookup(Entity(id), ComponentId::Rotation) == w0.lookup(
                        Entity(id),
                        ComponentId::Rotation,
                    )
                })
            }
        },
        _ => true,
    }
}

/// The frame outcomes only read an enemy's own AI, rotation and velocity
/// entries of the new world, so they survive any later change that leaves
/// those entries alone.
proof fn lemma_outcome_stable(w0: World, wa: World, wb: World, id: u64, ppos: Position, dt: int)
    requires
        perception_outcome(w0, wa, id, ppos, dt),
        motion_outcome(w0, wa, id, ppos),
        wa.lookup(Entity(id), ComponentId::Ai) == wb.lookup(Entity(id), ComponentId::Ai),
        wa.lookup(Entity(id), ComponentId::Rotation) == wb.lookup(
            Entity(id),
            ComponentId::Rotation,
        ),
        wa.lookup(Entity(id), ComponentId::Velocity) == wb.lookup(
            Entity(id),
            ComponentId::Velocity,
        ),
        wa.cmap().contains_key((id, ComponentId::Velocity)) == wb.cmap().contains_key(
            (id, ComponentId::Velocity),
        ),
    ensures
        perception_outcome(w0, wb, id, ppos, dt),
        motion_outcome(w0, wb, id, ppos),
{
}

/// System that drives enemy behaviour, carrying its own deterministic/// System that drives enemy behaviour, carrying its own deterministic
/// random generator.
pub struct AISystem {
    pub rng: Rng,
}

impl AISystem {
    pub fn new() -> (r: AISystem)
        ensures
            r.rng.state == 12345,
    {
        AISystem { rng: Rng::new() }
    }

    /// The position of the first player-tagged entity, if any.
    pub fn find_player_position(world: &World) -> (r: Option<Position>)
        requires
            world.wf(),
        ensures
            r is Some <==> (world.query_spec(ComponentId::Player).len() > 0
                && world.cmap().contains_key(
                (world.query_spec(ComponentId::Player)[0].0, ComponentId::Position),
            )),
            r matches Some(p) ==> world.lookup(
                world.query_spec(ComponentId::Player)[0],
                ComponentId::Position,
            ) == Some(Component::Position(p)),
    {
        let players = world.query(ComponentId::Player);
        if players.len() == 0 {
            return None;
        }
        let first = players[0];
        match world.get_component(first, ComponentId::Position) {
            Some(Component::Position(p)) => Some(p),
            Some(_) => {
                proof {
                    crate::ecs::world::World::lemma_lookup_kind(
                        *world,
                        first,
                        ComponentId::Position,
                    );
                }
                None
            },
            None => None,
        }
    }

    /// Whether a position is within the allowed movement square.
    pub fn is_within_movement_square(pos: &Position, spawn: &Position, square_size: i64) -> (r:
        bool)
        requires
            in_coord_range(*pos),
            in_coord_range(*spawn),
            0 <= square_size,
        ensures
            r == within_square(*pos, *spawn, square_size as int),
    {
        let dx = if pos.x >= spawn.x {
            pos.x - spawn.x
        } else {
            spawn.x - pos.x
        };
        let dy = if pos.y >= spawn.y {
            pos.y - spawn.y
        } else {
            spawn.y - pos.y
        };
        dx <= square_size && dy <= square_size
    }

    /// Whether the target is inside the agent's ninety-degree vision cone.
    pub fn is_within_vision_cone(
        enemy_pos: &Position,
        target_pos: &Position,
        enemy_rotation: &Rotation,
    ) -> (r: bool)
        requires
            in_coord_range(*enemy_pos),
            in_coord_range(*target_pos),
            crate::components::rot_bounded(*enemy_rotation),
        ensures
            r == in_vision_cone(
                *enemy_pos,
                *target_pos,
                facing_of(*enemy_rotation).0,
                facing_of(*enemy_rotation).1,
            ),
    {
        let (fx, fy): (i64, i64) = if enemy_rotation.x == 0 && enemy_rotation.y == 0 {
            (1000, 0)
        } else {
            (enemy_rotation.x, enemy_rotation.y)
        };
        let dx = (target_pos.x as i128) - (enemy_pos.x as i128);
        let dy = (target_pos.y as i128) - (enemy_pos.y as i128);
        proof {
            lemma_cone_products(fx as int, fy as int, dx as int, dy as int);
        }
        let dot = (fx as i128) * dx + (fy as i128) * dy;
        let cross = (fx as i128) * dy - (fy as i128) * dx;
        let cross_abs = if cross >= 0 {
            cross
        } else {
            -cross
        };
        dot >= cross_abs
    }
}

proof fn lemma_cone_products(fx: int, fy: int, dx: int, dy: int)
    requires
        abs_spec(fx) <= 2000000000,
        abs_spec(fy) <= 2000000000,
        abs_spec(dx) <= 2000000000,
        abs_spec(dy) <= 2000000000,
    ensures
        abs_spec(fx * dx) <= 4000000000000000000,
        abs_spec(fy * dy) <= 4000000000000000000,
        abs_spec(fx * dy) <= 4000000000000000000,
        abs_spec(fy * dx) <= 4000000000000000000,
{
    assert(abs_spec(fx * dx) <= 4000000000000000000 && abs_spec(fy * dy) <= 4000000000000000000
        && abs_spec(fx * dy) <= 4000000000000000000 && abs_spec(fy * dx)
        <= 4000000000000000000) by (nonlinear_arith)
        requires
            abs_spec(fx) <= 2000000000,
            abs_spec(fy) <= 2000000000,
            abs_spec(dx) <= 2000000000,
            abs_spec(dy) <= 2000000000,
    ;
}

impl AISystem {
    /// The probe point `step` ten-unit strides along heading `d` from
    /// `pos`.
    pub open spec fn ray_probe(pos: Position, d: u32, step: int) -> Position {
        Position {
            x: (pos.x + crate::num::scale_spec(dir_vec_spec(d).0, step * 10000, 1000)) as i64,
            y: (pos.y + crate::num::scale_spec(dir_vec_spec(d).1, step * 10000, 1000)) as i64,
        }
    }

    /// Whether the probe point is obstructed: inside some wall, or outside
    /// the movement square.
    pub open spec fn probe_blocked(
        pos: Position,
        spawn: Position,
        square_size: int,
        walls: Seq<Wall>,
        d: u32,
        step: int,
    ) -> bool {
        let p = Self::ray_probe(pos, d, step);
        (exists|i: int| 0 <= i < walls.len() && point_in_wall(p, #[trigger] walls[i]))
            || !within_square(p, spawn, square_size)
    }

    /// The unobstructed length of the ray along heading `d`, scanning from
    /// stride `s`: the first obstructed stride's distance, or the full two
    /// hundred units.
    pub open spec fn ray_length_from(
        pos: Position,
        spawn: Position,
        square_size: int,
        walls: Seq<Wall>,
        d: u32,
        s: int,
    ) -> int
        decreases 21 - s when s <= 21
    {
        if s > 20 {
            200000
        } else if Self::probe_blocked(pos, spawn, square_size, walls, d, s) {
            s * 10000
        } else {
            Self::ray_length_from(pos, spawn, square_size, walls, d, s + 1)
        }
    }

    pub open spec fn ray_length(
        pos: Position,
        spawn: Position,
        square_size: int,
        walls: Seq<Wall>,
        d: u32,
    ) -> int {
        Self::ray_length_from(pos, spawn, square_size, walls, d, 1)
    }

    /// The scan for the longest ray from heading `d` on, carrying the best
    /// heading so far; a longer ray wins strictly, so the earliest longest
    /// heading is kept.
    pub open spec fn best_dir_from(
        pos: Position,
        spawn: Position,
        square_size: int,
        walls: Seq<Wall>,
        d: int,
        best: u32,
        best_len: int,
    ) -> u32
        decreases 36 - d when d <= 36
    {
        if d >= 36 {
            best
        } else {
            let len = Self::ray_length(pos, spawn, square_size, walls, d as u32);
            if len > best_len {
                Self::best_dir_from(pos, spawn, square_size, walls, d + 1, d as u32, len)
            } else {
                Self::best_dir_from(pos, spawn, square_size, walls, d + 1, best, best_len)
            }
        }
    }

    /// The heading with the most open space: the first heading whose ray
    /// is strictly longest.
    pub open spec fn best_open_dir(
        pos: Position,
        spawn: Position,
        square_size: int,
        walls: Seq<Wall>,
    ) -> u32 {
        Self::best_dir_from(pos, spawn, square_size, walls, 0, 0, 0)
    }

    /// What the open-direction choice returns for generator state `s0`: an
    /// even first draw keeps the longest open heading, an odd one takes a
    /// uniformly random heading from a second draw.
    pub open spec fn open_dir_pick(
        pos: Position,
        spawn: Position,
        square_size: int,
        walls: Seq<Wall>,
        s0: u32,
    ) -> u32 {
        if crate::rng::lcg_next(s0) % 2 == 0 {
            Self::best_open_dir(pos, spawn, square_size, walls)
        } else {
            (crate::rng::lcg_next(crate::rng::lcg_next(s0)) % 36) as u32
        }
    }

    /// The generator state after the open-direction choice.
    pub open spec fn open_dir_state(s0: u32) -> u32 {
        if crate::rng::lcg_next(s0) % 2 == 0 {
            crate::rng::lcg_next(s0)
        } else {
            crate::rng::lcg_next(crate::rng::lcg_next(s0))
        }
    }

    /// Finds the heading with the most open space: casts rays along the
    /// 36 evenly spaced directions in ten-unit steps up to two hundred
    /// units, picks the first longest unobstructed one, then with an even
    /// chance takes a uniformly random heading instead.
    pub fn find_most_open_direction(
        pos: &Position,
        spawn: &Position,
        square_size: i64,
        walls: &Vec<Wall>,
        rng: &mut Rng,
    ) -> (r: u32)
        requires
            pos_bounded(*pos),
            pos_bounded(*spawn),
            0 <= square_size <= crate::components::POS_LIMIT,
        ensures
            r < WANDER_DIRECTIONS,
            r == Self::open_dir_pick(*pos, *spawn, square_size as int, walls@, old(rng).state),
            final (rng).state == Self::open_dir_state(old(rng).state),
    {
        let mut best_direction: u32 = 0;
        let mut best_distance: i64 = 0;
        let mut d: u32 = 0;
        while d < WANDER_DIRECTIONS
            invariant
                d <= WANDER_DIRECTIONS,
                best_direction < WANDER_DIRECTIONS,
                0 <= best_distance <= 200000,
                pos_bounded(*pos),
                pos_bounded(*spawn),
                0 <= square_size <= crate::components::POS_LIMIT,
                Self::best_dir_from(
                    *pos,
                    *spawn,
                    square_size as int,
                    walls@,
                    d as int,
                    best_direction,
                    best_distance as int,
                ) == Self::best_open_dir(*pos, *spawn, square_size as int, walls@),
            decreases WANDER_DIRECTIONS - d,
        {
            let (vx, vy) = dir_vec(d);
            let mut distance: i64 = 200000;
            let mut step: i64 = 1;
            while step <= 20
                invariant
                    1 <= step <= 21,
                    -1000 <= vx <= 1000,
                    -1000 <= vy <= 1000,
                    (vx as int, vy as int) == dir_vec_spec(d),
                    pos_bounded(*pos),
                    pos_bounded(*spawn),
                    0 <= square_size <= crate::components::POS_LIMIT,
                    (distance == 200000 && forall|t: int|
                        1 <= t < step ==> !Self::probe_blocked(
                            *pos,
                            *spawn,
                            square_size as int,
                            walls@,
                            d,
                            t,
                        )) || (step == 21 && exists|sb: int|
                        {
                            &&& 1 <= sb <= 20
                            &&& distance == sb * 10000
                            &&& #[trigger] Self::probe_blocked(
                                *pos,
                                *spawn,
                                square_size as int,
                                walls@,
                                d,
                                sb,
                            )
                            &&& forall|t: int|
                                1 <= t < sb ==> !Self::probe_blocked(
                                    *pos,
                                    *spawn,
                                    square_size as int,
                                    walls@,
                                    d,
                                    t,
                                )
                        }),
                decreases 21 - step,
            {
                let check_distance = step * 10000;
                proof {
                    let mx = crate::num::abs_spec(vx as int);
                    let my = crate::num::abs_spec(vy as int);
                    assert(0 <= mx <= 1000 && 0 <= my <= 1000);
                    assert(0 <= mx * (check_distance as int) <= 210000000 && 0 <= my * (
                    check_distance as int) <= 210000000) by (nonlinear_arith)
                        requires
                            0 <= mx <= 1000,
                            0 <= my <= 1000,
                            0 <= check_distance as int <= 210000,
                    ;
                    crate::num::lemma_div_le_self(
                        crate::num::abs_spec(vx as int) * (check_distance as int),
                        1000,
                    );
                    crate::num::lemma_div_le_self(
                        crate::num::abs_spec(vy as int) * (check_distance as int),
                        1000,
                    );
                }
                let sx = crate::num::scale64(vx, check_distance, 1000);
                let sy = crate::num::scale64(vy, check_distance, 1000);
                let check_pos = Position { x: pos.x + sx, y: pos.y + sy };
                proof {
                    assert(check_pos == Self::ray_probe(*pos, d, step as int));
                }
                let hit_wall = point_hits_some_wall(&check_pos, walls);
                let outside = !Self::is_within_movement_square(&check_pos, spawn, square_size);
                if hit_wall || outside {
                    proof {
                        assert(Self::probe_blocked(
                            *pos,
                            *spawn,
                            square_size as int,
                            walls@,
                            d,
                            step as int,
                        ));
                        let ghost sb = step as int;
                        assert(1 <= sb <= 20 && step * 10000 == sb * 10000);
                    }
                    distance = check_distance;
                    step = 21;
                } else {
                    proof {
                        assert(!Self::probe_blocked(
                            *pos,
                            *spawn,
                            square_size as int,
                            walls@,
                            d,
                            step as int,
                        ));
                    }
                    step = step + 1;
                }
            }
            proof {
                if distance == 200000 && forall|t: int|
                    1 <= t < 21 ==> !Self::probe_blocked(
                        *pos,
                        *spawn,
                        square_size as int,
                        walls@,
                        d,
                        t,
                    ) {
                    Self::lemma_ray_scan(*pos, *spawn, square_size as int, walls@, d, 21);
                } else {
                    let sb = choose|sb: int|
                        {
                            &&& 1 <= sb <= 20
                            &&& distance == sb * 10000
                            &&& #[trigger] Self::probe_blocked(
                                *pos,
                                *spawn,
                                square_size as int,
                                walls@,
                                d,
                                sb,
                            )
                            &&& forall|t: int|
                                1 <= t < sb ==> !Self::probe_blocked(
                                    *pos,
                                    *spawn,
                                    square_size as int,
                                    walls@,
                                    d,
                                    t,
                                )
                        };
                    Self::lemma_ray_scan(*pos, *spawn, square_size as int, walls@, d, sb);
                }
                assert(distance == Self::ray_length(*pos, *spawn, square_size as int, walls@, d));
            }
            if distance > best_distance {
                best_distance = distance;
                best_direction = d;
            }
            d = d + 1;
        }
        let coin = rng.next_random();
        if coin % 2 == 0 {
            best_direction
        } else {
            let draw = rng.next_random();
            proof {
                vstd::arithmetic::div_mod::lemma_mod_bound(draw as int, 36);
            }
            (draw % 36) as u32
        }
    }

    /// The scan value of a ray whose first strides are all clear: the
    /// length from stride one equals the length from the first unexplored
    /// stride.
    proof fn lemma_ray_scan(
        pos: Position,
        spawn: Position,
        square_size: int,
        walls: Seq<Wall>,
        d: u32,
        s: int,
    )
        requires
            1 <= s <= 21,
            forall|t: int| 1 <= t < s ==> !Self::probe_blocked(pos, spawn, square_size, walls, d, t),
        ensures
            Self::ray_length_from(pos, spawn, square_size, walls, d, 1) == Self::ray_length_from(
                pos,
                spawn,
                square_size,
                walls,
                d,
                s,
            ),
        decreases s,
    {
        if s > 1 {
            Self::lemma_ray_scan(pos, spawn, square_size, walls, d, s - 1);
            assert(!Self::probe_blocked(pos, spawn, square_size, walls, d, s - 1));
        }
    }

    /// The point five units ahead along the current wander heading.
    pub open spec fn wander_probe(pos: Position, d: u32) -> Position {
        Position {
            x: (pos.x + dir_vec_spec(d).0 * 5) as i64,
            y: (pos.y + dir_vec_spec(d).1 * 5) as i64,
        }
    }

    /// Whether the wander probe is obstructed: inside some wall, or outside
    /// the movement square around the spawn position.
    pub open spec fn wander_ahead_blocked(
        pos: Position,
        spawn: Position,
        square_size: int,
        walls: Seq<Wall>,
        d: u32,
    ) -> bool {
        let p = Self::wander_probe(pos, d);
        (exists|i: int| 0 <= i < walls.len() && point_in_wall(p, #[trigger] walls[i]))
            || !within_square(p, spawn, square_size)
    }

    /// Drives the wander sub-machine for one frame: moving until the timer
    /// runs out or an obstacle or the region boundary is ahead, then
    /// looking around, then waiting, then moving again with a re-chosen
    /// heading. Only wander fields and timers change.
    pub fn update_wander_behavior(ai: &mut AI, pos: &Position, walls: &Vec<Wall>, rng: &mut Rng, dt: i64)
        requires
            ai_bounded(*old(ai)),
            pos_bounded(*pos),
            0 <= dt <= MAX_FRAME_DT,
        ensures
            ai_bounded(*final (ai)),
            final (ai).state == old(ai).state,
            final (ai).initial_type == old(ai).initial_type,
            final (ai).spawn_position == old(ai).spawn_position,
            final (ai).last_known_player_position == old(ai).last_known_player_position,
            final (ai).check_position == old(ai).check_position,
            final (ai).attack_timer == old(ai).attack_timer,
            final (ai).state_timer == old(ai).state_timer,
            final (ai).confusion_look_timer == old(ai).confusion_look_timer,
            final (ai).confusion_looks_remaining == old(ai).confusion_looks_remaining,
            final (ai).detection_range == old(ai).detection_range,
            final (ai).attack_range == old(ai).attack_range,
            final (ai).attack_cooldown == old(ai).attack_cooldown,
            final (ai).spot_duration == old(ai).spot_duration,
            final (ai).unsure_check_duration == old(ai).unsure_check_duration,
            final (ai).lost_player_duration == old(ai).lost_player_duration,
            final (ai).confusion_duration == old(ai).confusion_duration,
            final (ai).confusion_look_duration == old(ai).confusion_look_duration,
            final (ai).movement_square_size == old(ai).movement_square_size,
            old(ai).wander_state == WanderState::Moving ==> ({
                let ticked = sat_timer_spec(old(ai).wander_timer as int, dt as int);
                let blocked = Self::wander_ahead_blocked(
                    *pos,
                    old(ai).spawn_position,
                    old(ai).movement_square_size as int,
                    walls@,
                    old(ai).wander_direction,
                );
                &&& final (ai).wander_timer == ticked
                &&& (if ticked <= 0 || blocked {
                    &&& final (ai).wander_state == WanderState::LookingAround
                    &&& final (ai).wander_look_timer == 1500000
                    &&& (blocked ==> final (ai).wander_direction == Self::open_dir_pick(
                        *pos,
                        old(ai).spawn_position,
                        old(ai).movement_square_size as int,
                        walls@,
                        old(rng).state,
                    ))
                    &&& (!blocked ==> final (ai).wander_direction == old(ai).wander_direction)
                } else {
                    &&& final (ai).wander_state == WanderState::Moving
                    &&& final (ai).wander_look_timer == old(ai).wander_look_timer
                    &&& final (ai).wander_direction == old(ai).wander_direction
                })
            }),
            old(ai).wander_state == WanderState::LookingAround ==> ({
                let ticked = sat_timer_spec(old(ai).wander_look_timer as int, dt as int);
                &&& final (ai).wander_look_timer == ticked
                &&& final (ai).wander_direction == old(ai).wander_direction
                &&& (if ticked <= 0 {
                    &&& final (ai).wander_state == WanderState::Waiting
                    &&& final (ai).wander_timer == 1000000 + (crate::rng::lcg_next(
                        old(rng).state,
                    ) as int) % 1000001
                } else {
                    &&& final (ai).wander_state == WanderState::LookingAround
                    &&& final (ai).wander_timer == old(ai).wander_timer
                })
            }),
            old(ai).wander_state == WanderState::Waiting ==> ({
                let ticked = sat_timer_spec(old(ai).wander_timer as int, dt as int);
                &&& final (ai).wander_look_timer == old(ai).wander_look_timer
                &&& (if ticked <= 0 {
                    &&& final (ai).wander_state == WanderState::Moving
                    &&& final (ai).wander_timer == 1000000 + (crate::rng::lcg_next(
                        old(rng).state,
                    ) as int) % 1000001
                    &&& final (ai).wander_direction == Self::open_dir_pick(
                        *pos,
                        old(ai).spawn_position,
                        old(ai).movement_square_size as int,
                        walls@,
                        crate::rng::lcg_next(old(rng).state),
                    )
                } else {
                    &&& final (ai).wander_state == WanderState::Waiting
                    &&& final (ai).wander_timer == ticked
                    &&& final (ai).wander_direction == old(ai).wander_direction
                })
            }),
    {
        match ai.wander_state {
            WanderState::Moving => {
                ai.wander_timer = sat_sub_timer(ai.wander_timer, dt);
                let (vx, vy) = dir_vec(ai.wander_direction);
                let next_pos = Position { x: pos.x + vx * 5, y: pos.y + vy * 5 };
                let hit_wall = point_hits_some_wall(&next_pos, walls);
                let outside = !Self::is_within_movement_square(
                    &next_pos,
                    &ai.spawn_position,
                    ai.movement_square_size,
                );
                if ai.wander_timer <= 0 || hit_wall || outside {
                    ai.wander_state = WanderState::LookingAround;
                    ai.wander_look_timer = 1500000;
                    if hit_wall || outside {
                        ai.wander_direction = Self::find_most_open_direction(
                            pos,
                            &ai.spawn_position,
                            ai.movement_square_size,
                            walls,
                            rng,
                        );
                    }
                }
            },
            WanderState::LookingAround => {
                ai.wander_look_timer = sat_sub_timer(ai.wander_look_timer, dt);
                if ai.wander_look_timer <= 0 {
                    ai.wander_state = WanderState::Waiting;
                    ai.wander_timer = rng.random_micros_range(1000000, 2000000);
                }
            },
            WanderState::Waiting => {
                ai.wander_timer = sat_sub_timer(ai.wander_timer, dt);
                if ai.wander_timer <= 0 {
                    ai.wander_state = WanderState::Moving;
                    ai.wander_timer = rng.random_micros_range(1000000, 2000000);
                    ai.wander_direction = Self::find_most_open_direction(
                        pos,
                        &ai.spawn_position,
                        ai.movement_square_size,
                        walls,
                        rng,
                    );
                }
            },
        }
    }

    /// One frame of the perception state machine. The timers decay; the
    /// state advances exactly as the machine prescribes: an unaware agent
    /// that perceives the player becomes unsure and records where it
    /// stood; a still-perceiving unsure agent becomes sure once the spot
    /// duration has elapsed, and one that lost sight reverts to unaware
    /// only on returning near its check position; a sure agent that has
    /// lost the player long enough becomes confused; a confused agent
    /// regains sureness on sight, and otherwise reverts to unaware after
    /// its randomized look-arounds run out.
    pub fn ai_transition(
        ai: &mut AI,
        can_see: bool,
        enemy_pos: Position,
        player_pos: Position,
        walls: &Vec<Wall>,
        rng: &mut Rng,
        dt: i64,
    )
        requires
            ai_bounded(*old(ai)),
            pos_bounded(enemy_pos),
            pos_bounded(player_pos),
            0 <= dt <= MAX_FRAME_DT,
        ensures
            ai_bounded(*final (ai)),
            final (ai).initial_type == old(ai).initial_type,
            final (ai).spawn_position == old(ai).spawn_position,
            final (ai).detection_range == old(ai).detection_range,
            final (ai).attack_range == old(ai).attack_range,
            final (ai).attack_timer == (if old(ai).attack_timer > 0 {
                if old(ai).attack_timer - dt >= crate::num::TIMER_FLOOR {
                    old(ai).attack_timer - dt
                } else {
                    crate::num::TIMER_FLOOR as int
                }
            } else {
                old(ai).attack_timer as int
            }),
            old(ai).state == AIState::Unaware && can_see ==> {
                &&& final (ai).state == AIState::SpottedUnsure
                &&& final (ai).check_position == Some(enemy_pos)
                &&& final (ai).last_known_player_position == Some(player_pos)
                &&& final (ai).state_timer == old(ai).spot_duration
            },
            old(ai).state == AIState::Unaware && !can_see ==> {
                &&& final (ai).state == AIState::Unaware
                &&& final (ai).check_position == old(ai).check_position
                &&& final (ai).last_known_player_position == old(ai).last_known_player_position
            },
            old(ai).state == AIState::SpottedUnsure && can_see ==> {
                &&& final (ai).last_known_player_position == Some(player_pos)
                &&& final (ai).state == (if sat_timer_spec(old(ai).state_timer as int, dt as int)
                    <= 0 {
                    AIState::SurePlayerSeen
                } else {
                    AIState::SpottedUnsure
                })
            },
            old(ai).state == AIState::SpottedUnsure && !can_see ==> final (ai).state == (
            match old(ai).check_position {
                Some(cp) => if dist_sq(enemy_pos, cp) < CHECK_TOLERANCE * CHECK_TOLERANCE {
                    AIState::Unaware
                } else {
                    AIState::SpottedUnsure
                },
                None => AIState::Unaware,
            }),
            old(ai).state == AIState::SurePlayerSeen && can_see ==> {
                &&& final (ai).state == AIState::SurePlayerSeen
                &&& final (ai).last_known_player_position == Some(player_pos)
                &&& final (ai).state_timer == old(ai).lost_player_duration
            },
            old(ai).state == AIState::SurePlayerSeen && !can_see ==> {
                &&& final (ai).state == (if sat_timer_spec(old(ai).state_timer as int, dt as int)
                    <= 0 {
                    AIState::Confused
                } else {
                    AIState::SurePlayerSeen
                })
                &&& (final (ai).state == AIState::Confused ==> 2 <= final (ai).confusion_looks_remaining <= 3
                    && final (ai).confusion_look_timer == old(ai).confusion_look_duration)
            },
            old(ai).state == AIState::Confused && can_see ==> {
                &&& final (ai).state == AIState::SurePlayerSeen
                &&& final (ai).last_known_player_position == Some(player_pos)
                &&& final (ai).state_timer == old(ai).lost_player_duration
            },
            old(ai).state == AIState::Confused && !can_see ==> (final (ai).state
                == AIState::Confused || (final (ai).state == AIState::Unaware
                && final (ai).wander_state == WanderState::Waiting)),
            old(ai).state == AIState::Idle || old(ai).state == AIState::Patrol
                || old(ai).state == AIState::Chase || old(ai).state == AIState::Attack
                ==> final (ai).state == old(ai).state,
    {
        if ai.attack_timer > 0 {
            ai.attack_timer = sat_sub_timer(ai.attack_timer, dt);
        }
        ai.state_timer = sat_sub_timer(ai.state_timer, dt);
        match ai.state {
            AIState::Unaware => {
                if can_see {
                    ai.state_timer = ai.spot_duration;
                    ai.state = AIState::SpottedUnsure;
                    ai.check_position = Some(enemy_pos);
                    ai.last_known_player_position = Some(player_pos);
                } else {
                    match ai.initial_type {
                        EnemyType::Idle => {
                        },
                        EnemyType::Wandering | EnemyType::Patrolling => {
                            Self::update_wander_behavior(ai, &enemy_pos, walls, rng, dt);
                        },
                    }
                }
            },
            AIState::SpottedUnsure => {
                if can_see {
                    ai.last_known_player_position = Some(player_pos);
                    if ai.state_timer <= 0 {
                        ai.state = AIState::SurePlayerSeen;
                    }
                } else {
                    match ai.check_position {
                        Some(check_pos) => {
                            let d2 = enemy_pos.distance_sq_to(&check_pos);
                            if d2 < (CHECK_TOLERANCE as i128) * (CHECK_TOLERANCE as i128) {
                                ai.state = AIState::Unaware;
                                ai.check_position = None;
                            }
                        },
                        None => {
                            ai.state = AIState::Unaware;
                        },
                    }
                }
            },
            AIState::SurePlayerSeen => {
                if can_see {
                    ai.last_known_player_position = Some(player_pos);
                    ai.state_timer = ai.lost_player_duration;
                } else {
                    if ai.state_timer <= 0 {
                        ai.state = AIState::Confused;
                        ai.confusion_looks_remaining = rng.random_int_range(2, 3);
                        ai.confusion_look_timer = ai.confusion_look_duration;
                    }
                }
            },
            AIState::Confused => {
                if can_see {
                    ai.state = AIState::SurePlayerSeen;
                    ai.last_known_player_position = Some(player_pos);
                    ai.state_timer = ai.lost_player_duration;
                } else {
                    ai.confusion_look_timer = sat_sub_timer(ai.confusion_look_timer, dt);
                    if ai.confusion_look_timer <= 0 {
                        if ai.confusion_looks_remaining >= i32::MIN + 1 {
                            ai.confusion_looks_remaining = ai.confusion_looks_remaining - 1;
                        }
                        if ai.confusion_looks_remaining <= 0 {
                            ai.state = AIState::Unaware;
                            ai.wander_state = WanderState::Waiting;
                            ai.wander_timer = rng.random_micros_range(1000000, 2000000);
                        } else {
                            ai.confusion_look_timer = ai.confusion_look_duration;
                        }
                    }
                }
            },
            _ => {
            },
        }
    }
}

/// The saturating timer decrement, at spec level.
pub open spec fn sat_timer_spec(t: int, dt: int) -> int {
    if t - dt >= crate::num::TIMER_FLOOR {
        t - dt
    } else {
        crate::num::TIMER_FLOOR as int
    }
}

/// Whether the point lies inside some wall rectangle.
fn point_hits_some_wall(p: &Position, walls: &Vec<Wall>) -> (r: bool)
    ensures
        r == exists|i: int|
            0 <= i < walls@.len() && point_in_wall(*p, #[trigger] walls@[i]),
{
    let n = walls.len();
    let mut i: usize = 0;
    while i < n
        invariant
            i <= n,
            n == walls@.len(),
            forall|j: int| 0 <= j < i ==> !point_in_wall(*p, #[trigger] walls@[j]),
        decreases n - i,
    {
        let w = walls[i];
        let inside = p.x >= w.x && (p.x as i128) - (w.x as i128) <= (w.width as i128) && p.y
            >= w.y && (p.y as i128) - (w.y as i128) <= (w.height as i128);
        proof {
            assert(inside == point_in_wall(*p, walls@[i as int]));
        }
        if inside {
            return true;
        }
        i = i + 1;
    }
    false
}

/// The point lies inside the closed wall rectangle.
pub open spec fn point_in_wall(p: Position, w: Wall) -> bool {
    p.x >= w.x && p.x - w.x <= w.width && p.y >= w.y && p.y - w.y <= w.height
}

/// Both offsets of a vector are bounded by any integer whose successor
/// squares beyond the vector's squared length.
proof fn lemma_components_le_dist(dx: int, dy: int, dist: int)
    requires
        dx * dx + dy * dy < (dist + 1) * (dist + 1),
        0 <= dist,
    ensures
        crate::num::abs_spec(dx) <= dist,
        crate::num::abs_spec(dy) <= dist,
{
    assert(dx * dx >= 0 && dy * dy >= 0) by (nonlinear_arith);
    if dx > dist {
        assert(dx * dx >= (dist + 1) * (dist + 1)) by (nonlinear_arith)
            requires
                dx >= dist + 1,
                dist + 1 >= 1,
        ;
        assert(false);
    }
    if dx < -dist {
        assert(dx * dx >= (dist + 1) * (dist + 1)) by (nonlinear_arith)
            requires
                -dx >= dist + 1,
                dist + 1 >= 1,
        ;
        assert(false);
    }
    if dy > dist {
        assert(dy * dy >= (dist + 1) * (dist + 1)) by (nonlinear_arith)
            requires
                dy >= dist + 1,
                dist + 1 >= 1,
        ;
        assert(false);
    }
    if dy < -dist {
        assert(dy * dy >= (dist + 1) * (dist + 1)) by (nonlinear_arith)
            requires
                -dy >= dist + 1,
                dist + 1 >= 1,
        ;
        assert(false);
    }
}

/// A direction component scaled to a speed never exceeds the speed when
/// the component is at most the distance.
proof fn lemma_dir_component_bound(adx: int, speed: int, dist: int)
    requires
        0 <= adx <= dist,
        0 <= speed,
        1 <= dist,
    ensures
        0 <= adx * speed / dist <= speed,
{
    assert(0 <= adx * speed <= dist * speed) by (nonlinear_arith)
        requires
            0 <= adx <= dist,
            0 <= speed,
    ;
    vstd::arithmetic::div_mod::lemma_div_is_ordered(0, adx * speed, dist);
    vstd::arithmetic::div_mod::lemma_div_is_ordered(adx * speed, dist * speed, dist);
    vstd::arithmetic::div_mod::lemma_div_multiples_vanish(speed, dist);
    assert(dist * speed == speed * dist) by (nonlinear_arith);
}

impl AISystem {
    /// Velocity straight toward `target` at `speed`, and the facing toward
    /// it; a zero offset yields a standstill facing along the x axis.
    fn steer_toward(enemy_pos: Position, target: Position, speed: i64) -> (r: (
        crate::components::Velocity,
        Rotation,
    ))
        requires
            in_coord_range(enemy_pos),
            in_coord_range(target),
            0 <= speed <= crate::components::VEL_LIMIT,
        ensures
            crate::components::vel_bounded(r.0),
            crate::components::rot_bounded(r.1),
            enemy_pos == target ==> r.0 == (crate::components::Velocity { x: 0, y: 0 }),
    {
        let dist = enemy_pos.distance_to(&target);
        if dist > 0 {
            let dx = target.x - enemy_pos.x;
            let dy = target.y - enemy_pos.y;
            proof {
                lemma_components_le_dist(dx as int, dy as int, dist as int);
                lemma_dir_component_bound(
                    crate::num::abs_spec(dx as int),
                    speed as int,
                    dist as int,
                );
                lemma_dir_component_bound(
                    crate::num::abs_spec(dy as int),
                    speed as int,
                    dist as int,
                );
            }
            let vx = crate::num::scale64(dx, speed, dist);
            let vy = crate::num::scale64(dy, speed, dist);
            (crate::components::Velocity { x: vx, y: vy }, Rotation { x: dx, y: dy })
        } else {
            (crate::components::Velocity { x: 0, y: 0 }, Rotation { x: 1000, y: 0 })
        }
    }

    /// The velocity to apply and the facing to adopt (if any) for one
    /// agent, given its freshly transitioned state. A sure agent within
    /// attack range of a visible player stands still and faces the player;
    /// an unaware idler neither moves nor turns.
    fn ai_motion(
        ai: &AI,
        can_see: bool,
        enemy_pos: Position,
        player_pos: Position,
        speed: i64,
        grid: &crate::pathfinding::NavigationGrid,
        walls: &Vec<Wall>,
        rng: &mut Rng,
    ) -> (r: (crate::components::Velocity, Option<Rotation>))
        requires
            ai_bounded(*ai),
            pos_bounded(enemy_pos),
            pos_bounded(player_pos),
            0 <= speed <= crate::components::VEL_LIMIT,
            grid.wf(),
            crate::pathfinding::walls_bounded(walls@),
        ensures
            crate::components::vel_bounded(r.0),
            r.1 matches Some(rot) ==> crate::components::rot_bounded(rot),
            ai.state == AIState::Unaware && ai.initial_type == EnemyType::Idle ==> r.0
                == (crate::components::Velocity { x: 0, y: 0 }) && r.1 is None,
            ai.state == AIState::SurePlayerSeen && can_see && dist_sq(enemy_pos, player_pos)
                < ai.attack_range * ai.attack_range ==> r.0 == (crate::components::Velocity { x: 0, y: 0 })
                && r.1 == Some(
                Rotation {
                    x: (player_pos.x - enemy_pos.x) as i64,
                    y: (player_pos.y - enemy_pos.y) as i64,
                },
            ),
    {
        match ai.state {
            AIState::Unaware => {
                match ai.initial_type {
                    EnemyType::Idle => (crate::components::Velocity { x: 0, y: 0 }, None),
                    EnemyType::Wandering | EnemyType::Patrolling => {
                        match ai.wander_state {
                            WanderState::Moving => {
                                let (vx1000, vy1000) = dir_vec(ai.wander_direction);
                                proof {
                                    let m = crate::num::abs_spec(vx1000 as int);
                                    let my = crate::num::abs_spec(vy1000 as int);
                                    assert(0 <= m * speed <= 1000000000 && 0 <= my * speed
                                        <= 1000000000) by (nonlinear_arith)
                                        requires
                                            0 <= m <= 1000,
                                            0 <= my <= 1000,
                                            0 <= speed <= 1000000,
                                    ;
                                    crate::num::lemma_div_le_self(m * speed, 1000);
                                    crate::num::lemma_div_le_self(my * speed, 1000);
                                    lemma_thousandth_bound(m * speed);
                                    lemma_thousandth_bound(my * speed);
                                }
                                let vx = crate::num::scale64(vx1000, speed, 1000);
                                let vy = crate::num::scale64(vy1000, speed, 1000);
                                (
                                    crate::components::Velocity { x: vx, y: vy },
                                    Some(Rotation { x: vx1000, y: vy1000 }),
                                )
                            },
                            WanderState::LookingAround => {
                                // Scripted sweep: seventy degrees to one
                                // side, then back across to the other.
                                let lt = ai.wander_look_timer;
                                let lp: i64 = if lt >= 0 && lt <= 1500000 {
                                    1500000 - lt
                                } else {
                                    0
                                };
                                let offset: u64 = if lp < 500000 {
                                    let q = (7 * lp) as u64 / 500000;
                                    proof {
                                        crate::num::lemma_div_le_self((7 * lp) as int, 500000);
                                    }
                                    // Left phase: up to seven steps left,
                                    // encoded as a backward shift.
                                    (36 - q) as u64
                                } else {
                                    let q = (14 * (lp - 500000)) as u64 / 1000000;
                                    proof {
                                        crate::num::lemma_div_le_self(
                                            (14 * (lp - 500000)) as int,
                                            1000000,
                                        );
                                    }
                                    let q = if q > 14 {
                                        14
                                    } else {
                                        q
                                    };
                                    (36 - 7 + q) as u64
                                };
                                let shifted = ((ai.wander_direction as u64) + offset) % 36;
                                proof {
                                    vstd::arithmetic::div_mod::lemma_mod_bound(
                                        (ai.wander_direction as u64 + offset) as int,
                                        36,
                                    );
                                }
                                let (fx, fy) = dir_vec(shifted as u32);
                                (
                                    crate::components::Velocity { x: 0, y: 0 },
                                    Some(Rotation { x: fx, y: fy }),
                                )
                            },
                            WanderState::Waiting => (
                                crate::components::Velocity { x: 0, y: 0 },
                                Some(Rotation { x: 1000, y: 0 }),
                            ),
                        }
                    },
                }
            },
            AIState::SpottedUnsure => {
                let target = match ai.last_known_player_position {
                    Some(p) => p,
                    None => player_pos,
                };
                let movement_target = Self::chase_target(enemy_pos, target, grid, walls);
                let (v, rot) = Self::steer_toward(enemy_pos, movement_target, speed);
                (v, Some(rot))
            },
            AIState::SurePlayerSeen => {
                let target = if can_see {
                    player_pos
                } else {
                    match ai.last_known_player_position {
                        Some(p) => p,
                        None => player_pos,
                    }
                };
                let d2 = enemy_pos.distance_sq_to(&target);
                proof {
                    assert(0 <= (ai.attack_range as int) * (ai.attack_range as int)
                        <= 10000000000000000) by (nonlinear_arith)
                        requires
                            0 <= ai.attack_range as int <= 100000000,
                    ;
                }
                let in_attack = can_see && d2 < (ai.attack_range as i128) * (
                ai.attack_range as i128);
                if in_attack {
                    let dx = player_pos.x - enemy_pos.x;
                    let dy = player_pos.y - enemy_pos.y;
                    (crate::components::Velocity { x: 0, y: 0 }, Some(Rotation { x: dx, y: dy }))
                } else {
                    let movement_target = Self::chase_target(enemy_pos, target, grid, walls);
                    let (v, rot) = Self::steer_toward(enemy_pos, movement_target, speed);
                    (v, Some(rot))
                }
            },
            AIState::Confused => {
                let rot = if ai.confusion_look_timer == ai.confusion_look_duration {
                    let draw = rng.next_random();
                    proof {
                        vstd::arithmetic::div_mod::lemma_mod_bound(draw as int, 36);
                    }
                    let (fx, fy) = dir_vec((draw % 36) as u32);
                    Some(Rotation { x: fx, y: fy })
                } else {
                    None
                };
                (crate::components::Velocity { x: 0, y: 0 }, rot)
            },
            _ => (crate::components::Velocity { x: 0, y: 0 }, None),
        }
    }

    /// Where to head for: the target itself under clear padded sight of
    /// it, otherwise the navigation grid's next waypoint toward it, or the
    /// target again when no path exists.
    fn chase_target(
        enemy_pos: Position,
        target: Position,
        grid: &crate::pathfinding::NavigationGrid,
        walls: &Vec<Wall>,
    ) -> (r: Position)
        requires
            pos_bounded(enemy_pos),
            pos_bounded(target),
            grid.wf(),
            crate::pathfinding::walls_bounded(walls@),
        ensures
            in_coord_range(r),
    {
        proof {
            crate::pathfinding::lemma_walls_bounded_geom(walls@);
        }
        let has_clear_path = has_line_of_sight(enemy_pos, target, walls);
        if has_clear_path {
            target
        } else {
            match grid.get_next_waypoint(enemy_pos, target) {
                Some(w) => {
                    if w.x >= -crate::num::COORD_LIMIT && w.x <= crate::num::COORD_LIMIT && w.y
                        >= -crate::num::COORD_LIMIT && w.y <= crate::num::COORD_LIMIT {
                        w
                    } else {
                        target
                    }
                },
                None => target,
            }
        }
    }
}

/// A value at most a billion keeps its thousandth within the velocity
/// limit.
proof fn lemma_thousandth_bound(x: int)
    requires
        0 <= x <= 1000000000,
    ensures
        0 <= x / 1000 <= 1000000,
{
    vstd::arithmetic::div_mod::lemma_div_is_ordered(0, x, 1000);
    vstd::arithmetic::div_mod::lemma_div_is_ordered(x, 1000000000, 1000);
    vstd::arithmetic::div_mod::lemma_fundamental_div_mod_converse(1000000000, 1000, 1000000, 0);
}

impl AISystem {
    /// Runs one frame of AI for every enemy: perception, the state
    /// machine, and the velocity and facing outputs. Only velocity,
    /// rotation and AI components change; the entity set, walls and id
    /// counter stay as they were, and the world stays bounded.
    pub fn run(&mut self, world: &mut World, dt: i64)
        requires
            old(world).wf(),
            old(world).bounded(),
            0 <= dt <= MAX_FRAME_DT,
        ensures
            final (world).wf(),
            final (world).bounded(),
            final (world).live() == old(world).live(),
            final (world).walls_view() == old(world).walls_view(),
            final (world).next_id() == old(world).next_id(),
            final (world).cmap().dom() == old(world).cmap().dom(),
            forall|key: (u64, ComponentId)| #[trigger]
                old(world).cmap().contains_key(key) && key.1 != ComponentId::Velocity && key.1
                    != ComponentId::Rotation && key.1 != ComponentId::Ai ==> final (world).cmap()[key]
                    == old(world).cmap()[key],
            (match ai_frame_player(*old(world)) {
                Some(ppos) => forall|id: u64|
                    old(world).cmap().contains_key((id, ComponentId::Enemy))
                        ==> #[trigger] perception_outcome(
                        *old(world),
                        *final (world),
                        id,
                        ppos,
                        dt as int,
                    ) && motion_outcome(*old(world), *final (world), id, ppos),
                None => true,
            }),
    {
        let player_pos = match Self::find_player_position(world) {
            Some(p) => p,
            None => {
                return ;
            },
        };
        let in_range = player_pos.x >= -crate::components::POS_LIMIT && player_pos.x
            <= crate::components::POS_LIMIT && player_pos.y >= -crate::components::POS_LIMIT
            && player_pos.y <= crate::components::POS_LIMIT;
        if !in_range {
            return ;
        }
        proof {
            assert(ai_frame_player(*old(world)) == Some(player_pos));
        }
        let walls = world.walls().clone();
        proof {
            assert(walls@ =~= old(world).walls_view());
        }
        let grid = crate::pathfinding::NavigationGrid::new(&walls);
        let enemies = world.query(ComponentId::Enemy);
        let n = enemies.len();
        proof {
            crate::ecs::world::lemma_query_exact(*world, ComponentId::Enemy);
        }
        let mut k: usize = 0;
        while k < n
            invariant
                world.wf(),
                world.bounded(),
                0 <= dt <= MAX_FRAME_DT,
                n == enemies@.len(),
                k <= n,
                pos_bounded(player_pos),
                grid.wf(),
                crate::pathfinding::walls_bounded(walls@),
                walls@ == old(world).walls_view(),
                enemies@ == old(world).query_spec(ComponentId::Enemy),
                forall|e2: Entity| #[trigger]
                    old(world).query_spec(ComponentId::Enemy).contains(e2) <==> old(
                        world,
                    ).cmap().contains_key((e2.0, ComponentId::Enemy)),
                forall|a: int, b: int| 0 <= a < b < enemies@.len() ==> enemies@[a] != enemies@[b],
                world.live() == old(world).live(),
                world.walls_view() == old(world).walls_view(),
                world.next_id() == old(world).next_id(),
                world.cmap().dom() == old(world).cmap().dom(),
                forall|key: (u64, ComponentId)| #[trigger]
                    old(world).cmap().contains_key(key) && key.1 != ComponentId::Velocity
                        && key.1 != ComponentId::Rotation && key.1 != ComponentId::Ai
                        ==> world.cmap()[key] == old(world).cmap()[key],
                forall|key: (u64, ComponentId)| #[trigger]
                    old(world).cmap().contains_key(key) && !(exists|t: int|
                        0 <= t < k && (#[trigger] enemies@[t]).0 == key.0)
                        ==> world.cmap()[key] == old(world).cmap()[key],
                forall|id: u64|
                    (exists|t: int| 0 <= t < k && (#[trigger] enemies@[t]).0 == id)
                        ==> #[trigger] perception_outcome(
                        *old(world),
                        *world,
                        id,
                        player_pos,
                        dt as int,
                    ),
                forall|id: u64|
                    (exists|t: int| 0 <= t < k && (#[trigger] enemies@[t]).0 == id)
                        ==> #[trigger] motion_outcome(*old(world), *world, id, player_pos),
            decreases n - k,
        {
            let e = enemies[k];
            proof {
                assert(enemies@.contains(enemies@[k as int]));
                if exists|t: int| 0 <= t < k && (#[trigger] enemies@[t]).0 == e.0 {
                    let t = choose|t: int| 0 <= t < k && (#[trigger] enemies@[t]).0 == e.0;
                    assert(enemies@[t] == e);
                    assert(false);
                }
            }
            let ghost turn_start = *world;
            Self::update_enemy(world, &mut self.rng, e, player_pos, &grid, &walls, dt);
            proof {
                assert(sees_player(turn_start, e.0, player_pos) == sees_player(
                    *old(world),
                    e.0,
                    player_pos,
                ));
                assert(perception_outcome(*old(world), *world, e.0, player_pos, dt as int));
                assert(motion_outcome(*old(world), *world, e.0, player_pos));
                assert forall|id: u64|
                    (exists|t: int| 0 <= t < k + 1 && (#[trigger] enemies@[t]).0 == id)
                        implies #[trigger] perception_outcome(
                        *old(world),
                        *world,
                        id,
                        player_pos,
                        dt as int,
                    ) && motion_outcome(*old(world), *world, id, player_pos) by {
                    let t = choose|t: int| 0 <= t < k + 1 && (#[trigger] enemies@[t]).0 == id;
                    if t < k {
                        assert(exists|t2: int| 0 <= t2 < k && (#[trigger] enemies@[t2]).0 == id);
                        assert(perception_outcome(
                            *old(world),
                            turn_start,
                            id,
                            player_pos,
                            dt as int,
                        ));
                        assert(motion_outcome(*old(world), turn_start, id, player_pos));
                        assert(enemies@[t] != e);
                        assert(id != e.0);
                        assert(world.lookup(Entity(id), ComponentId::Ai) == turn_start.lookup(
                            Entity(id),
                            ComponentId::Ai,
                        ));
                        assert(world.lookup(Entity(id), ComponentId::Rotation)
                            == turn_start.lookup(Entity(id), ComponentId::Rotation));
                        assert(world.lookup(Entity(id), ComponentId::Velocity)
                            == turn_start.lookup(Entity(id), ComponentId::Velocity));
                        lemma_outcome_stable(
                            *old(world),
                            turn_start,
                            *world,
                            id,
                            player_pos,
                            dt as int,
                        );
                    } else {
                        assert(enemies@[t] == e);
                    }
                }
                assert forall|id: u64|
                    (exists|t: int| 0 <= t < k + 1 && (#[trigger] enemies@[t]).0 == id)
                        implies #[trigger] motion_outcome(*old(world), *world, id, player_pos) by {
                    assert(perception_outcome(*old(world), *world, id, player_pos, dt as int)
                        && motion_outcome(*old(world), *world, id, player_pos));
                }
                assert forall|key: (u64, ComponentId)| #[trigger]
                    old(world).cmap().contains_key(key) && !(exists|t: int|
                        0 <= t < k + 1 && (#[trigger] enemies@[t]).0 == key.0)
                        implies world.cmap()[key] == old(world).cmap()[key] by {
                    assert(!(exists|t: int| 0 <= t < k && (#[trigger] enemies@[t]).0 == key.0));
                    assert(enemies@[k as int].0 != key.0);
                }
            }
            k = k + 1;
        }
        proof {
            assert forall|id: u64|
                old(world).cmap().contains_key((id, ComponentId::Enemy))
                    implies #[trigger] perception_outcome(
                    *old(world),
                    *world,
                    id,
                    player_pos,
                    dt as int,
                ) && motion_outcome(*old(world), *world, id, player_pos) by {
                let e2 = Entity(id);
                assert(old(world).query_spec(ComponentId::Enemy).contains(e2));
                let t = choose|t: int| 0 <= t < enemies@.len() && enemies@[t] == e2;
                assert(enemies@[t].0 == id);
            }
            assert forall|id: u64|
                old(world).cmap().contains_key((id, ComponentId::Enemy))
                    implies #[trigger] motion_outcome(*old(world), *world, id, player_pos) by {
                assert(perception_outcome(*old(world), *world, id, player_pos, dt as int)
                    && motion_outcome(*old(world), *world, id, player_pos));
            }
        }
    }

    /// One frame of AI for one enemy entity.
    fn update_enemy(
        world: &mut World,
        rng: &mut Rng,
        entity: Entity,
        player_pos: Position,
        grid: &crate::pathfinding::NavigationGrid,
        walls: &Vec<Wall>,
        dt: i64,
    )
        requires
            old(world).wf(),
            old(world).bounded(),
            pos_bounded(player_pos),
            grid.wf(),
            crate::pathfinding::walls_bounded(walls@),
            walls@ == old(world).walls_view(),
            0 <= dt <= MAX_FRAME_DT,
        ensures
            final (world).wf(),
            final (world).bounded(),
            final (world).live() == old(world).live(),
            final (world).walls_view() == old(world).walls_view(),
            final (world).next_id() == old(world).next_id(),
            final (world).cmap().dom() == old(world).cmap().dom(),
            forall|key: (u64, ComponentId)| #[trigger]
                old(world).cmap().contains_key(key) && key.1 != ComponentId::Velocity && key.1
                    != ComponentId::Rotation && key.1 != ComponentId::Ai ==> final (world).cmap()[key]
                    == old(world).cmap()[key],
            forall|key: (u64, ComponentId)| #[trigger]
                old(world).cmap().contains_key(key) && key.0 != entity.0 ==> final (world).cmap()[key]
                    == old(world).cmap()[key],
            perception_outcome(*old(world), *final (world), entity.0, player_pos, dt as int),
            motion_outcome(*old(world), *final (world), entity.0, player_pos),
    {
        let pos_c = world.get_component(entity, ComponentId::Position);
        let spd_c = world.get_component(entity, ComponentId::Speed);
        let hp_c = world.get_component(entity, ComponentId::Health);
        let (enemy_pos, speed, health) = match (pos_c, spd_c, hp_c) {
            (
                Some(Component::Position(p)),
                Some(Component::Speed(s)),
                Some(Component::Health(h)),
            ) => (p, s, h),
            _ => {
                proof {
                    if world.cmap().contains_key((entity.0, ComponentId::Position)) {
                        crate::ecs::world::World::lemma_lookup_kind(
                            *world,
                            entity,
                            ComponentId::Position,
                        );
                    }
                    if world.cmap().contains_key((entity.0, ComponentId::Speed)) {
                        crate::ecs::world::World::lemma_lookup_kind(
                            *world,
                            entity,
                            ComponentId::Speed,
                        );
                    }
                    if world.cmap().contains_key((entity.0, ComponentId::Health)) {
                        crate::ecs::world::World::lemma_lookup_kind(
                            *world,
                            entity,
                            ComponentId::Health,
                        );
                    }
                }
                return ;
            },
        };
        proof {
            crate::ecs::world::World::lemma_lookup_kind(*world, entity, ComponentId::Position);
            crate::ecs::world::World::lemma_lookup_kind(*world, entity, ComponentId::Speed);
            assert(crate::ecs::component::component_bounded(
                old(world).cmap()[(entity.0, ComponentId::Position)],
            ));
            assert(crate::ecs::component::component_bounded(
                old(world).cmap()[(entity.0, ComponentId::Speed)],
            ));
        }

        // A dead enemy only has its velocity cleared.
        if health.is_dead() {
            match world.get_component(entity, ComponentId::Velocity) {
                Some(Component::Velocity(_)) => {
                    world.add_component(
                        entity,
                        Component::Velocity(crate::components::Velocity { x: 0, y: 0 }),
                    );
                    proof {
                        assert(world.cmap().dom() =~= old(world).cmap().dom());
                    }
                },
                _ => {
                    proof {
                        if world.cmap().contains_key((entity.0, ComponentId::Velocity)) {
                            crate::ecs::world::World::lemma_lookup_kind(
                                *world,
                                entity,
                                ComponentId::Velocity,
                            );
                        }
                    }
                },
            }
            return ;
        }

        // Perception: line of sight, detection range, and vision cone.
        let rot = match world.get_component(entity, ComponentId::Rotation) {
            Some(Component::Rotation(r)) => r,
            _ => Rotation { x: 1000, y: 0 },
        };
        proof {
            if world.cmap().contains_key((entity.0, ComponentId::Rotation)) {
                crate::ecs::world::World::lemma_lookup_kind(
                    *world,
                    entity,
                    ComponentId::Rotation,
                );
                assert(crate::ecs::component::component_bounded(
                    old(world).cmap()[(entity.0, ComponentId::Rotation)],
                ));
            }
            crate::pathfinding::lemma_walls_bounded_geom(walls@);
        }
        let ai0 = match world.get_component(entity, ComponentId::Ai) {
            Some(Component::Ai(a)) => a,
            _ => {
                proof {
                    if world.cmap().contains_key((entity.0, ComponentId::Ai)) {
                        crate::ecs::world::World::lemma_lookup_kind(
                            *world,
                            entity,
                            ComponentId::Ai,
                        );
                    }
                }
                return ;
            },
        };
        proof {
            crate::ecs::world::World::lemma_lookup_kind(*world, entity, ComponentId::Ai);
            assert(crate::ecs::component::component_bounded(
                old(world).cmap()[(entity.0, ComponentId::Ai)],
            ));
        }
        let has_los = has_line_of_sight(enemy_pos, player_pos, walls);
        let d2 = enemy_pos.distance_sq_to(&player_pos);
        proof {
            assert(0 <= (ai0.detection_range as int) * (ai0.detection_range as int)
                <= 10000000000000000) by (nonlinear_arith)
                requires
                    0 <= ai0.detection_range as int <= 100000000,
            ;
        }
        let in_det_range = d2 < (ai0.detection_range as i128) * (ai0.detection_range as i128);
        let in_cone = Self::is_within_vision_cone(&enemy_pos, &player_pos, &rot);
        let can_see = has_los && in_det_range && in_cone;

        // State machine.
        let mut ai = ai0;
        Self::ai_transition(&mut ai, can_see, enemy_pos, player_pos, walls, rng, dt);
        world.add_component(entity, Component::Ai(ai));
        proof {
            assert(world.cmap().dom() =~= old(world).cmap().dom());
        }

        // Movement and facing outputs.
        let spd = if speed.value < 0 {
            0
        } else if speed.value > crate::components::VEL_LIMIT {
            crate::components::VEL_LIMIT
        } else {
            speed.value
        };
        let (vel, rot_out) = Self::ai_motion(
            &ai,
            can_see,
            enemy_pos,
            player_pos,
            spd,
            grid,
            walls,
            rng,
        );
        let ghost before_writes = *world;
        match world.get_component(entity, ComponentId::Velocity) {
            Some(Component::Velocity(_)) => {
                world.add_component(entity, Component::Velocity(vel));
                proof {
                    assert(world.cmap().dom() =~= before_writes.cmap().dom());
                }
            },
            _ => {
                proof {
                    if world.cmap().contains_key((entity.0, ComponentId::Velocity)) {
                        crate::ecs::world::World::lemma_lookup_kind(
                            *world,
                            entity,
                            ComponentId::Velocity,
                        );
                    }
                }
            },
        }
        let ghost before_rot = *world;
        match (rot_out, world.get_component(entity, ComponentId::Rotation)) {
            (Some(r), Some(Component::Rotation(_))) => {
                world.add_component(entity, Component::Rotation(r));
                proof {
                    assert(world.cmap().dom() =~= before_rot.cmap().dom());
                }
            },
            _ => {
                proof {
                    if world.cmap().contains_key((entity.0, ComponentId::Rotation)) {
                        crate::ecs::world::World::lemma_lookup_kind(
                            *world,
                            entity,
                            ComponentId::Rotation,
                        );
                    }
                }
            },
        }
        proof {
            assert(can_see == sees_player(*old(world), entity.0, player_pos));
            assert(perception_outcome(*old(world), *world, entity.0, player_pos, dt as int));
            assert(motion_outcome(*old(world), *world, entity.0, player_pos));
        }
    }
}

impl System for AISystem {
    fn run(&mut self, world: &mut World, dt: i64) {
        AISystem::run(self, world, dt);
    }
}

} // verus!
