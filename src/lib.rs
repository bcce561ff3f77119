//! The simulation core of a terminal snake game: a snake moves on a walled
//! grid, wraps around at the walls, grows and speeds up when it eats an apple,
//! and the session ends when the head runs into the body.
pub mod grid;
pub mod game;
pub mod screen;
