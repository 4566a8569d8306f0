//! A Minesweeper game engine: board indexing, lazy mine placement, flood-fill
//! reveal, win detection and the ring-ordered schedule in which the mines are
//! shown after a loss. Every function is verified against a mathematical model
//! of the board.

pub mod animation;
pub mod board;
pub mod game_view;
pub mod minesweeper;
pub mod random;
pub mod rings;
pub mod time_span;
pub mod visual_grid;
pub mod wide_string;
