//! A bitboard model of a chess position.
//!
//! A [`bitboard::BitBoard`] is a set of [`square::Square`]s held as a 64-bit
//! mask, with the set algebra and with shifts that never carry a square
//! around the edge of the board. A [`board::Board`] holds one such set for
//! each kind of piece of each colour, and applies a [`board::Move`]
//! mechanically: it never asks whether the move is legal. [`navigation`]
//! steps from square to square and reports the edge of the board; [`render`]
//! draws a position for a terminal. The [`laws`] state what holds of the
//! boards whatever they contain.

pub mod bitboard;
pub mod bits;
pub mod board;
pub mod compass;
pub mod laws;
pub mod navigation;
pub mod render;
pub mod square;
pub mod text;
pub mod traits;
