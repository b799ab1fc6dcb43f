//! Board representation and pseudo-legal move generation for a chess engine.
//!
//! A `Position` keeps one 64-bit occupancy mask per (piece, color) pair and an
//! aggregate mask; the move generator reads it and lists every destination that
//! each piece's movement rule reaches.
pub mod piece;
pub mod position;
pub mod moves;
pub mod display;
pub mod fen;
