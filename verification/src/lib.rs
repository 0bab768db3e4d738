//! Core of a chess position engine: legal-move generation, position state
//! with an incrementally maintained Zobrist hash, a FEN codec, a
//! piece-square-table evaluator, and a depth-limited negamax search.

pub mod chess;
pub mod fen;
pub mod legality;
pub mod movegen;
pub mod moves;
pub mod roundtrip;
pub mod score;
pub mod search;
pub mod zobrist;
