//! Turn-based dungeon crawl simulation: map generation, pathing, sight and the
//! per-turn rules, with every rule stated as a contract.

pub mod components;
pub mod flood_fill;
pub mod game;
pub mod map;
pub mod map_builder;
pub mod random;
pub mod spawner;
pub mod systems;
pub mod turn_state;
pub mod utils;
pub mod world;
