//! FerrumCraft core library: block identifiers, namespaced content IDs,
//! registries, chunked world storage, terrain generation stages, fluid
//! simulation rules, inventory handling and save encoding.

pub mod block;
pub mod text;
pub mod id;
pub mod registry;
pub mod world;
pub mod water;
pub mod gameplay;
pub mod inventory;
pub mod save;
pub mod classic_worldgen;
pub mod worldgen;
pub mod lang;
pub mod tag;
pub mod model;
pub mod resource;
pub mod font;
pub mod render;
pub mod mesher;
pub mod fluid;
pub mod logging;
pub mod texture;
pub mod validation;
pub mod water_schedule;
pub mod controls;
pub mod streaming;
pub mod mesh_queue;
pub mod debug;
pub mod input;
pub mod physics;
