//! The moves generated when only captures are asked for.
use vstd::prelude::*;
use crate::board::Board;
use super::MoveGenerator;
use super::move_data::{Flag, Move};
use super::playable::playable;

verus! {

/// Only captures: the moves generated when only captures are asked for are exactly the moves
/// generated in full that take an enemy piece on their target square or capture en passant.
pub proof fn lemma_captures_are_the_capturing_moves(b: Board, g: MoveGenerator, m: Move)
    requires
        playable(b),
        g.describes(b),
    ensures
        g.generates(true, m) == (g.generates(false, m) && (g.enemy_piece_bit_board.has(m.to.0 as int)
            || m.flag == Flag::EnPassant)),
{
    let to = m.to.0 as int;
    assert(g.empty_squares.has(to) ==> !g.enemy_piece_bit_board.has(to));
    assert(g.occupied_squares.has(to) == (g.friendly_piece_bit_board.has(to) || g.enemy_piece_bit_board.has(to)));
}

} // verus!
