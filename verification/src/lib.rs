//! A text-driven snakes-and-ladders board game.
//!
//! A rectangular grid of cells is built from a command stream, augmented with
//! special cells (snakes, ladders, powerups) and populated with players.
//! Players move according to a cyclic dice sequence; landing on an occupied
//! cell bumps the resident forward, and snake/ladder offsets are applied with
//! powerup interactions (antivenom blocks a snake, escalator doubles a
//! ladder).  The board renders as a serpentine grid of text.

pub mod cell;
pub mod error;
pub mod game;
pub mod laws;
pub mod model;
pub mod parse;
pub mod player;
pub mod render;
