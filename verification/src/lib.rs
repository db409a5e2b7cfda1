//! A verified Reversi (Othello) engine-testing library.
//!
//! The core pieces are a bitboard `Board` kernel with branch-free move
//! generation, a transposition-tabled alpha-beta search with iterative
//! deepening under a deadline, and the decision logic of an arena that
//! pits two external engines against each other. All game rules, search
//! bookkeeping and protocol parsing live here and are verified; process
//! and socket plumbing belongs to the surrounding, unverified layer.

pub mod bits;
pub mod arena;
pub mod board;
pub mod search;
pub mod strutil;

pub use bits::popcount;
pub use bits::pos2bit;
