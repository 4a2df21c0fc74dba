//! A search engine for a game that mixes Shogi and Chess pieces on one
//! square board: move generation, evaluation, and an alpha-beta search with
//! iterative deepening, quiescence, a transposition table and killer moves.
//! Every function is verified against the contract that it states.

pub mod types;
pub mod config;
pub mod pst;
pub mod board;
pub mod eval;
pub mod tt;
pub mod zobrist;
pub mod key_laws;
pub mod moves;
pub mod move_laws;
pub mod ordering;
pub mod search;
pub mod negamax;
pub mod engine;
