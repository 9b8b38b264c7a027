//! A small container of entities and their components.

pub mod dynvec;
pub mod entity;
pub mod world;

pub use entity::{Entities, Entity};
pub use world::{EntityBuilder, World};
