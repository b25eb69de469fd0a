//! A terminal snake game, with its rules proved: a snake steered over a
//! bounded grid grows by eating food and loses on hitting itself or the
//! boundary. The grid, the snake's chain of cells, the heading rule, the
//! tick-by-tick simulation and the input-to-intent mapping are all verified;
//! the terminal itself (raw mode, key events, drawing) and the random choice
//! of a food cell stay outside, reached through narrow interfaces.

pub mod direction;
pub mod field;
pub mod game;
pub mod input;
pub mod position;
pub mod render;
