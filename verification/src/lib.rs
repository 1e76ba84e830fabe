//! Simulation kernel of a turn-based, grid-world game: an entity/component
//! store, a spatial map model with visibility and blocking, a deterministic
//! per-turn pipeline of resolution systems, monster pathfinding, combat
//! resolution, an item/inventory effect engine, and a persistence snapshot.

pub mod components;
pub mod world;
pub mod map;
pub mod fov;
pub mod path;
pub mod gamelog;
pub mod game;
pub mod damage_system;
pub mod melee_combat_system;
pub mod map_indexing_system;
pub mod visibility_system;
pub mod monster_ai_system;
pub mod inventory_system;
pub mod item_use_system;
pub mod player;
pub mod saveload_system;
pub mod ownership;
