//! A small entity/component registry with a closed component set.

pub mod component;
pub mod entity;
pub mod query;
pub mod system;
pub mod world;

pub use component::Component;
pub use component::ComponentId;
pub use entity::Entity;
pub use query::Query;
pub use query::QueryMut;
pub use system::System;
pub use world::Wall;
pub use world::World;
