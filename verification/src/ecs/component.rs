//! The closed set of component kinds.
//!
//! Components are stored as one tagged union; a component's kind is a stable
//! identifier derived from the variant, so a stored value can never disagree
//! with the kind it is filed under.

use crate::components::{
    Bullet, Enemy, Health, Player, Position, ProjectileTrail, Radius, Rotation, Speed, Velocity,
    Weapon, AI,
};
use vstd::prelude::*;

verus! {

/// Stable identifier of a component kind.
#[derive(Debug, Clone, Copy, PartialEq, Eq, Hash, Structural)]
pub enum ComponentId {
    Position,
    Velocity,
    Health,
    Speed,
    Rotation,
    Radius,
    Player,
    Enemy,
    Ai,
    Weapon,
    Bullet,
    ProjectileTrail,
}

/// A component value of any kind.
#[derive(Debug, Clone, Copy, PartialEq, Eq, Structural)]
pub enum Component {
    Position(Position),
    Velocity(Velocity),
    Health(Health),
    Speed(Speed),
    Rotation(Rotation),
    Radius(Radius),
    Player(Player),
    Enemy(Enemy),
    Ai(AI),
    Weapon(Weapon),
    Bullet(Bullet),
    ProjectileTrail(ProjectileTrail),
}

impl Component {
    /// The kind a component value is filed under.
    pub open spec fn kind_spec(self) -> ComponentId {
        match self {
            Component::Position(_) => ComponentId::Position,
            Component::Velocity(_) => ComponentId::Velocity,
            Component::Health(_) => ComponentId::Health,
            Component::Speed(_) => ComponentId::Speed,
            Component::Rotation(_) => ComponentId::Rotation,
            Component::Radius(_) => ComponentId::Radius,
            Component::Player(_) => ComponentId::Player,
            Component::Enemy(_) => ComponentId::Enemy,
            Component::Ai(_) => ComponentId::Ai,
            Component::Weapon(_) => ComponentId::Weapon,
            Component::Bullet(_) => ComponentId::Bullet,
            Component::ProjectileTrail(_) => ComponentId::ProjectileTrail,
        }
    }

    pub fn kind(&self) -> (r: ComponentId)
        ensures
            r == self.kind_spec(),
    {
        match self {
            Component::Position(_) => ComponentId::Position,
            Component::Velocity(_) => ComponentId::Velocity,
            Component::Health(_) => ComponentId::Health,
            Component::Speed(_) => ComponentId::Speed,
            Component::Rotation(_) => ComponentId::Rotation,
            Component::Radius(_) => ComponentId::Radius,
            Component::Player(_) => ComponentId::Player,
            Component::Enemy(_) => ComponentId::Enemy,
            Component::Ai(_) => ComponentId::Ai,
            Component::Weapon(_) => ComponentId::Weapon,
            Component::Bullet(_) => ComponentId::Bullet,
            Component::ProjectileTrail(_) => ComponentId::ProjectileTrail,
        }
    }

    pub fn as_position(self) -> (r: Option<Position>)
        ensures
            r == (match self {
                Component::Position(p) => Some(p),
                _ => None::<Position>,
            }),
    {
        match self {
            Component::Position(p) => Some(p),
            _ => None,
        }
    }

    pub fn as_velocity(self) -> (r: Option<Velocity>)
        ensures
            r == (match self {
                Component::Velocity(v) => Some(v),
                _ => None::<Velocity>,
            }),
    {
        match self {
            Component::Velocity(v) => Some(v),
            _ => None,
        }
    }

    pub fn as_health(self) -> (r: Option<Health>)
        ensures
            r == (match self {
                Component::Health(h) => Some(h),
                _ => None::<Health>,
            }),
    {
        match self {
            Component::Health(h) => Some(h),
            _ => None,
        }
    }

    pub fn as_speed(self) -> (r: Option<Speed>)
        ensures
            r == (match self {
                Component::Speed(s) => Some(s),
                _ => None::<Speed>,
            }),
    {
        match self {
            Component::Speed(s) => Some(s),
            _ => None,
        }
    }

    pub fn as_rotation(self) -> (r: Option<Rotation>)
        ensures
            r == (match self {
                Component::Rotation(v) => Some(v),
                _ => None::<Rotation>,
            }),
    {
        match self {
            Component::Rotation(v) => Some(v),
            _ => None,
        }
    }

    pub fn as_radius(self) -> (r: Option<Radius>)
        ensures
            r == (match self {
                Component::Radius(v) => Some(v),
                _ => None::<Radius>,
            }),
    {
        match self {
            Component::Radius(v) => Some(v),
            _ => None,
        }
    }

    pub fn as_ai(self) -> (r: Option<AI>)
        ensures
            r == (match self {
                Component::Ai(v) => Some(v),
                _ => None::<AI>,
            }),
    {
        match self {
            Component::Ai(v) => Some(v),
            _ => None,
        }
    }

    pub fn as_weapon(self) -> (r: Option<Weapon>)
        ensures
            r == (match self {
                Component::Weapon(v) => Some(v),
                _ => None::<Weapon>,
            }),
    {
        match self {
            Component::Weapon(v) => Some(v),
            _ => None,
        }
    }

    pub fn as_bullet(self) -> (r: Option<Bullet>)
        ensures
            r == (match self {
                Component::Bullet(v) => Some(v),
                _ => None::<Bullet>,
            }),
    {
        match self {
            Component::Bullet(v) => Some(v),
            _ => None,
        }
    }

    pub fn as_projectile_trail(self) -> (r: Option<ProjectileTrail>)
        ensures
            r == (match self {
                Component::ProjectileTrail(v) => Some(v),
                _ => None::<ProjectileTrail>,
            }),
    {
        match self {
            Component::ProjectileTrail(v) => Some(v),
            _ => None,
        }
    }
}

impl ComponentId {
    /// The identifier a given component value is filed under.
    pub fn of(c: &Component) -> (r: ComponentId)
        ensures
            r == c.kind_spec(),
    {
        c.kind()
    }
}

/// Numeric sanity of a single component value.
pub open spec fn component_bounded(c: Component) -> bool {
    match c {
        Component::Position(p) => crate::components::pos_bounded(p),
        Component::Velocity(v) => crate::components::vel_bounded(v),
        Component::Health(_) => true,
        Component::Speed(s) => crate::components::speed_bounded(s),
        Component::Rotation(r) => crate::components::rot_bounded(r),
        Component::Radius(r) => crate::components::radius_bounded(r),
        Component::Player(_) => true,
        Component::Enemy(_) => true,
        Component::Ai(a) => crate::components::ai_bounded(a),
        Component::Weapon(w) => crate::components::weapon_bounded(w),
        Component::Bullet(b) => crate::components::bullet_bounded(b),
        Component::ProjectileTrail(t) => crate::components::trail_bounded(t),
    }
}

} // verus!
