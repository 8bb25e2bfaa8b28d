//! A chess engine core on bitboards: the position model, the legal-move
//! generator, move application, incremental Zobrist hashing, the draw
//! detectors and a small minimax search, with every function's behaviour
//! stated as a contract and proved.

pub mod bits;
pub mod text;
pub mod masks;
pub mod squares;
pub mod enums;
pub mod boardmap;
pub mod castling;
pub mod moves;
pub mod pieces;
pub mod half;
pub mod metadata;
pub mod board;
pub mod zobrist;
pub mod forced_draws;
pub mod notation;
pub mod chess960;
pub mod chess960_laws;
pub mod search;
pub mod engine;
pub mod interactive;
pub mod hash_laws;
pub mod legality;
pub mod validity;
pub mod geometry;
pub mod captures;
pub mod after_move;
pub mod king_safety;
pub mod attacks;
pub mod reachable;
pub mod commands;
pub mod persist;
pub mod completeness;
pub mod checking;
pub mod fen;
pub mod sums;
pub mod mirror;
pub mod symmetry;
pub mod move_counts;
