//! A grid-based snake simulation.
//!
//! The snake's body is not stored as a list of coordinates: every cell it
//! occupies records the direction in which the snake left it, so the body is
//! a chain of directions running from the tail to the head inside the grid
//! itself. Each tick then costs the same, whatever the snake's length.
pub mod board;
pub mod game;
pub mod laws;
pub mod controls;
pub mod render;
pub mod x11;
