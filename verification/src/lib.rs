//! The rules of Starfall Dominion, a turn-based 4X space war game.
pub mod actions;
pub mod cursor;
pub mod economy;
pub mod fog;
pub mod geometry;
pub mod icons;
pub mod layout;
pub mod planets;
pub mod poi;
pub mod rng;
pub mod shell;
pub mod world;
