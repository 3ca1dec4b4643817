//! A bitboard chess engine core: a compact position representation, per
//! piece-kind move generation with exact contracts, legality filtering by
//! check detection, incremental Zobrist hashing whose stored hash provably
//! matches the hash recomputed from scratch, and a depth-bounded
//! alpha-beta search proved to return the unpruned minimax value.
//!
//! The `rules` module is the mathematical model everything is verified
//! against; the remaining modules hold the executable engine.

pub mod bitboard;
pub mod rules;
pub mod zobrist;
pub mod position;
pub mod move_gen;
pub mod evaluation;
pub mod server;
pub mod transposition_table;
pub mod bits;
pub mod chess;
