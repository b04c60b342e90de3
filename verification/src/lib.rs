//! A chess position engine on 64-bit square sets: positions and their
//! text form, attack sets with magic lookup for the sliding pieces, legal
//! move generation, material scoring and a fixed-depth search.
pub mod attack_laws;
pub mod bboard;
pub mod bits;
pub mod common;
pub mod engine;
pub mod evaluator;
pub mod fen;
pub mod fen_laws;
pub mod game_setup;
pub mod magic;
pub mod move_generator;
pub mod piece_moves;
pub mod rules;
pub mod state;
