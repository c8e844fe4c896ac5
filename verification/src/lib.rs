//! Rule engine of a falling-block puzzle game: the playfield grid, the
//! shape table, collision and rotation legality, the shuffled-bag piece
//! queue, lock and line-clear resolution with scoring, and the top-level
//! game state machine. Rendering and input live outside this crate and
//! talk to it through `game::GameCore`.

pub mod bag;
pub mod engine;
pub mod game;
pub mod grid;
pub mod pieces;
