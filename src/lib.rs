//! Simulation core of a small dream-exploration game: the scene state machine,
//! a maze generator for the dream world, dialogue, inventory and the rules
//! that turn player geometry and input into state changes.
//!
//! Lengths are kept in thousandths of a world unit and times in milliseconds,
//! so that every rule is exact integer arithmetic.
pub mod dialogue;
pub mod dream_world;
pub mod game_state;
pub mod geometry;
pub mod input;
pub mod inventory;
pub mod item;
pub mod maze;
pub mod npc;
pub mod player;
pub mod random;
pub mod ui;
