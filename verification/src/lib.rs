//! A verified Othello (Reversi) engine: board representation, legal-move
//! derivation, disc flipping, terminal detection, positional evaluation,
//! and minimax / alpha-beta search with selectable difficulty tiers.

pub mod board;
pub mod eval;
pub mod game;
pub mod laws;
pub mod rules;
pub mod search;

pub use board::{Cell, Player, BoardState};
pub use game::{AiDifficulty, OthelloGame};
