//! A compact chess position core: squares, bitboards, packed moves and a
//! board that reads Forsyth-Edwards Notation.
//!
//! Every function carries a contract over a mathematical model of its data:
//! a square is its index, a bitboard is a set of squares, a move is its three
//! packed fields, and text is a sequence of characters.

use vstd::prelude::*;

pub mod bitboard;
pub mod bits;
pub mod board;
pub mod error;
pub mod fen;
pub mod grid;
pub mod moves;
pub mod opening;
pub mod square;
pub mod text;

verus! {

/// The version of this library.
pub const VERSION: &'static str = "0.1";

/// Returns [`VERSION`].
pub fn version() -> (v: &'static str)
    ensures
        v@ == VERSION@,
{
    VERSION
}

} // verus!
