//! Simulation core of a turn-based, grid-world game: a procedurally generated
//! dungeon map, a field-of-view model, pathfinding-driven non-player behavior,
//! and a deterministic combat/damage pipeline, orchestrated by an explicit
//! turn-state machine.

pub mod components;
pub mod rect;
pub mod world;
pub mod map;
pub mod pathfinding;
pub mod visibility_system;
pub mod map_indexing_system;
pub mod melee_combat_system;
pub mod gamelog;
pub mod damage_system;
pub mod inventory_system;
pub mod behavior;
pub mod player;
pub mod state;
pub mod rng;
pub mod viewport;
pub mod spawner;
