//! Bitboard-based chess attack computation and move-path counting.
//!
//! The crate computes, for any piece on any square with any configuration of
//! blocking pieces, the exact set of attacked squares.  Leaper attacks (pawn,
//! knight, king) come from precomputed per-square tables; sliding attacks
//! (bishop, rook, queen) go through a magic-bitboard perfect-hash lookup with
//! a verified ray-casting fallback.  Alignment queries (`ray`, `between`,
//! `aligned`) read 64x64 tables.  A generic `perft` counter enumerates legal
//! move paths over any type implementing the `Position` trait.

pub mod attacks;
pub mod bitboard;
pub mod bits;
pub mod geometry;
pub mod perft;
pub mod square;
pub mod types;
