//! The rules of a turn, one system each, in the order in which a phase runs
//! them.

pub mod collisions;
pub mod combat;
pub mod end_turn;
pub mod fov;
pub mod intent;
pub mod movement;
pub mod use_items;
pub mod player_input;
pub mod chasing;
pub mod random_move;
pub mod end_game;
pub mod map_render;
pub mod hud;
pub mod tooltips;
