//! A chess engine library: bit boards, FEN, move generation, evaluation and search.
use vstd::prelude::*;

pub mod board;
pub mod move_generator;
pub mod perft;
pub mod search;
pub mod text;
pub mod timer;
pub mod uci;
pub mod magic;

verus! {
} // verus!
