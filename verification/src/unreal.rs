//! Unreal packages, read for the collision geometry that they hold.

pub mod geometry_laws;
pub mod layout;
pub mod loader;
pub mod loader_laws;
pub mod map_laws;
pub mod model;
pub mod object;
pub mod objects;
pub mod package;
pub mod package_laws;
pub mod properties;
pub mod reader;
pub mod static_mesh;
pub mod terrain;
pub mod terrain_laws;
pub mod texture;
pub mod world_laws;
