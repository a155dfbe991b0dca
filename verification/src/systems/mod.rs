//! Per-frame behaviour systems operating on the world.

pub mod ai;
pub mod combat;
pub mod input;
pub mod movement;
pub mod projectile;
pub mod weapon;

pub use ai::AISystem;
pub use combat::CombatSystem;
pub use input::InputSystem;
pub use movement::MovementSystem;
pub use projectile::BulletSystem;
pub use projectile::ProjectileTrailSystem;
pub use weapon::WeaponUpdateSystem;
