//! Positions the generator and the move maker work on, and why generated moves can be made and
//! unmade.
use vstd::prelude::*;
use vstd::std_specs::bits::{u64_trailing_zeros, axiom_u64_trailing_zeros};
use crate::board::{Board, pieces_disjoint, first_piece, lemma_first_piece_unique, lemma_first_piece_none};
use crate::board::bit_board::{bit, lemma_bit_laws, lemma_clear_lowest};
use crate::board::game_state::{has_bit8, WHITE_KING_SIDE_OFFSET, WHITE_QUEEN_SIDE_OFFSET, BLACK_KING_SIDE_OFFSET, BLACK_QUEEN_SIDE_OFFSET};
use crate::board::piece::{Piece, piece_of};
use crate::uci::move_encoding::{decoded_flag, notated_promotion};
use crate::board::square::on_board;
use super::{MoveGenerator, side_bits, side_has, en_passant_ok};
use super::maker::{round_trip_ok, make_move_allowed, side_offset, moving_piece, rook_from, rook_to, en_passant_capture};
use super::move_data::{Flag, Move};
use super::pawn_move_generator::forward;
use super::precomputed::{file_of, rank_of};
use super::slider_lookup::{slider_attacks, slides_to, edge_distance, lemma_slide_beyond, lemma_slider_attacks_on_board};

verus! {

/// A position that moves can be generated on, made and unmade: no square holds two pieces, the
/// castling rights are in range and any right of the side to move has its king on the e file of
/// its first rank, the side to move has a king, and an en passant square lies on the middle ranks,
/// empty, with an enemy pawn just past it.
pub open spec fn playable(b: Board) -> bool {
    let w = b.white_to_move;
    let rights = b.game_state.castling_rights.0;
    let king = u64_trailing_zeros(side_bits(b, w, 5)) as int;
    &&& pieces_disjoint(b.bit_boards@)
    &&& b.game_state.castling_rights.valid()
    &&& side_bits(b, w, 5) != 0
    &&& (has_bit8(rights, if w { WHITE_KING_SIDE_OFFSET } else { BLACK_KING_SIDE_OFFSET }) || has_bit8(
        rights,
        if w { WHITE_QUEEN_SIDE_OFFSET } else { BLACK_QUEEN_SIDE_OFFSET },
    )) ==> king == (if w { 4int } else { 60int })
    &&& en_passant_ok(b.game_state.en_passant_square)
    &&& b.game_state.en_passant_square matches Some(e) ==> !side_has(b, w, e.0 as int) && bit(
        side_bits(b, !w, 0),
        e.0 - forward(w),
    )
}

/// The friendly piece on a square of a friendly bit board is that bit board's piece.
proof fn lemma_friendly_piece(b: Board, k: int, sq: int)
    requires
        pieces_disjoint(b.bit_boards@),
        0 <= k < 6,
        on_board(sq),
        bit(side_bits(b, b.white_to_move, k), sq),
    ensures
        b.spec_friendly_piece_at(sq) == Some(piece_of(side_offset(b.white_to_move) + k)),
        moving_piece(b, Move { from: crate::board::square::Square(sq as i8), to: crate::board::square::Square(0), flag: Flag::Normal })
            == side_offset(b.white_to_move) + k,
{
    let off = side_offset(b.white_to_move);
    let bbs = b.bit_boards@;
    assert(bbs[off + k].has(sq));
    assert forall|j: int| off <= j < off + 6 && j != off + k implies !#[trigger] bbs[j].has(sq) by {}
    lemma_first_piece_unique(bbs, sq, off, off + 6, off + k);
    assert(piece_of(off + k).spec_index() == off + k);
}

/// No friendly piece stands on a square outside every friendly bit board.
proof fn lemma_no_friendly_piece(b: Board, sq: int)
    requires
        !side_has(b, b.white_to_move, sq),
        on_board(sq),
    ensures
        b.spec_friendly_piece_at(sq) is None,
{
    let off = side_offset(b.white_to_move);
    lemma_first_piece_none(b.bit_boards@, sq, off, off + 6);
    assert forall|j: int| off <= j < off + 6 implies !#[trigger] b.bit_boards@[j].has(sq) by {
        assert(bit(side_bits(b, b.white_to_move, j - off), sq) == b.bit_boards@[j].has(sq));
    }
}

/// A slider never attacks its own square.
proof fn lemma_slider_moves_away(from: int, blockers: u64, offset: int, t: int)
    requires
        on_board(from),
        offset == 0 || offset == 4,
        slider_attacks(from, blockers, offset, t),
    ensures
        t != from,
{
    let mut d = offset;
    if slides_to(from, offset, edge_distance(from, offset), blockers, t) {
        d = offset;
    } else if slides_to(from, offset + 1, edge_distance(from, offset + 1), blockers, t) {
        d = offset + 1;
    } else if slides_to(from, offset + 2, edge_distance(from, offset + 2), blockers, t) {
        d = offset + 2;
    } else {
        d = offset + 3;
    }
    lemma_slide_beyond(from, d, edge_distance(from, d), blockers, t);
}

/// Every move the generator gives on a playable position can be made and then unmade exactly.
pub proof fn lemma_generated_moves_round_trip(b: Board, mg: MoveGenerator, captures_only: bool, m: Move)
    requires
        playable(b),
        mg.describes(b),
        mg.generates(captures_only, m),
    ensures
        round_trip_ok(b, m),
{
    let w = b.white_to_move;
    let off = side_offset(w);
    let f = m.from.0 as int;
    let t = m.to.0 as int;
    let king = mg.friendly_king_square.0 as int;
    axiom_u64_trailing_zeros(side_bits(b, w, 5));
    assert(on_board(king) && bit(side_bits(b, w, 5), king));
    if mg.king_move(captures_only, m) {
        lemma_friendly_piece(b, 5, king);
        if m.flag == Flag::Castle {
            let base: int = if w { 0 } else { 56 };
            assert(king == base + 4);
            if mg.king_side && t == king + 2 {
                assert(!mg.occupied_squares.has(base + 6));
                lemma_no_friendly_piece(b, t);
            } else {
                assert(!mg.occupied_squares.has(base + 2));
                lemma_no_friendly_piece(b, t);
            }
            assert(m.to.spec_file() == t % 8);
        } else {
            lemma_no_friendly_piece(b, t);
        }
    } else if mg.pawn_move(captures_only, m) {
        lemma_friendly_piece(b, 0, f);
        if mg.pawn_capture(m) {
            assert(mg.enemy_piece_bit_board.has(t));
            if side_has(b, w, t) {
                let bbs = b.bit_boards@;
                assert(exists|p: int, q: int| 0 <= p < 12 && 0 <= q < 12 && p != q && bbs[p].has(t) && bbs[q].has(t)) by {
                    let p = if bit(side_bits(b, w, 0), t) { off } else if bit(side_bits(b, w, 1), t) { off + 1 } else if bit(side_bits(b, w, 2), t) { off + 2 } else if bit(side_bits(b, w, 3), t) { off + 3 } else if bit(side_bits(b, w, 4), t) { off + 4 } else { off + 5 };
                    let eo = 6 - off;
                    let q = if bit(side_bits(b, !w, 0), t) { eo } else if bit(side_bits(b, !w, 1), t) { eo + 1 } else if bit(side_bits(b, !w, 2), t) { eo + 2 } else if bit(side_bits(b, !w, 3), t) { eo + 3 } else if bit(side_bits(b, !w, 4), t) { eo + 4 } else { eo + 5 };
                    assert(bbs[p].has(t) && bbs[q].has(t));
                }
            }
            lemma_no_friendly_piece(b, t);
        } else if mg.en_passant(m) {
            lemma_no_friendly_piece(b, t);
            assert(en_passant_capture(b.game_state.en_passant_square->0, w).0 == t - forward(w));
        } else {
            assert(mg.empty_squares.has(t));
            lemma_no_friendly_piece(b, t);
        }
    } else if mg.knight_move(captures_only, m) {
        lemma_friendly_piece(b, 1, f);
        lemma_no_friendly_piece(b, t);
    } else {
        let offset: int = if mg.slider_move(captures_only, 4, m) { 4 } else { 0 };
        assert(mg.slider_move(captures_only, offset, m));
        lemma_bit_laws();
        if offset == 4 {
            assert(mg.friendly_diagonal.has(f));
            assert(bit(side_bits(b, w, 2) | side_bits(b, w, 4), f));
        } else {
            assert(mg.friendly_orthogonal.has(f));
            assert(bit(side_bits(b, w, 3) | side_bits(b, w, 4), f));
        }
        let k = if offset == 4 {
            if bit(side_bits(b, w, 2), f) { 2int } else { 4int }
        } else {
            if bit(side_bits(b, w, 3), f) { 3int } else { 4int }
        };
        lemma_friendly_piece(b, k, f);
        lemma_slider_attacks_on_board(f, mg.occupied_squares.0, offset, t);
        lemma_slider_moves_away(f, mg.occupied_squares.0, offset, t);
        lemma_no_friendly_piece(b, t);
    }
}

/// Every move the generator gives, written as its two squares and its promotion as UCI notation
/// has it, reads back as the same move: the flag that reading works out from the position is the
/// move's own (castling, a double pawn push and an en passant capture included), provided the en
/// passant square, if any, holds no piece.
pub proof fn lemma_generated_move_decodes(b: Board, mg: MoveGenerator, captures_only: bool, m: Move)
    requires
        playable(b),
        mg.describes(b),
        mg.generates(captures_only, m),
        b.game_state.en_passant_square matches Some(e) ==> !side_has(b, !b.white_to_move, e.0 as int),
    ensures
        decoded_flag(b, m.from, m.to, notated_promotion(m.flag)) == m.flag,
{
    let w = b.white_to_move;
    let off = side_offset(w);
    let f = m.from.0 as int;
    let t = m.to.0 as int;
    let king = mg.friendly_king_square.0 as int;
    axiom_u64_trailing_zeros(side_bits(b, w, 5));
    assert(on_board(king) && bit(side_bits(b, w, 5), king));
    assert(m.from.spec_file() == f % 8 && m.from.spec_rank() == f / 8);
    assert(m.to.spec_file() == t % 8 && m.to.spec_rank() == t / 8);
    if mg.king_move(captures_only, m) {
        lemma_friendly_piece(b, 5, king);
        assert(piece_of(off + 5) == Piece::WhiteKing || piece_of(off + 5) == Piece::BlackKing);
        if m.flag == Flag::Castle {
            let base: int = if w { 0 } else { 56 };
            assert(king == base + 4);
        }
    } else if mg.pawn_move(captures_only, m) {
        lemma_friendly_piece(b, 0, f);
        assert(piece_of(off) == Piece::WhitePawn || piece_of(off) == Piece::BlackPawn);
        if mg.pawn_capture(m) {
            assert(mg.enemy_piece_bit_board.has(t));
            assert(side_has(b, !w, t));
        } else if mg.en_passant(m) {
        } else if mg.pawn_push(m) {
            if b.game_state.en_passant_square == Some(m.to) {
                assert(bit(side_bits(b, !w, 0), t - forward(w)));
                assert(bit(side_bits(b, w, 0), f));
                assert(b.bit_boards@[off].has(f) && b.bit_boards@[6 - off].has(f));
            }
        } else {
            assert(mg.pawn_double_push(m));
        }
    } else if mg.knight_move(captures_only, m) {
        lemma_friendly_piece(b, 1, f);
    } else {
        let offset: int = if mg.slider_move(captures_only, 4, m) { 4 } else { 0 };
        assert(mg.slider_move(captures_only, offset, m));
        lemma_bit_laws();
        if offset == 4 {
            assert(mg.friendly_diagonal.has(f));
            assert(bit(side_bits(b, w, 2) | side_bits(b, w, 4), f));
        } else {
            assert(mg.friendly_orthogonal.has(f));
            assert(bit(side_bits(b, w, 3) | side_bits(b, w, 4), f));
        }
        let k = if offset == 4 {
            if bit(side_bits(b, w, 2), f) { 2int } else { 4int }
        } else {
            if bit(side_bits(b, w, 3), f) { 3int } else { 4int }
        };
        lemma_friendly_piece(b, k, f);
    }
}

/// Returns whether the position is playable (see [`playable`]).
pub fn is_playable(board: &Board) -> (r: bool)
    ensures
        r == playable(*board),
{
    let ghost bbs = board.bit_boards@;
    let mut p: usize = 0;
    while p < 12
        invariant
            p <= 12,
            bbs == board.bit_boards@,
            forall|a: int, c: int, i: int| 0 <= a < p && a < c < 12 && #[trigger] bbs[a].has(i) ==> !#[trigger] bbs[c].has(i),
        decreases 12 - p,
    {
        let mut q: usize = p + 1;
        while q < 12
            invariant
                p < 12,
                p < q <= 12,
                bbs == board.bit_boards@,
                forall|a: int, c: int, i: int| 0 <= a < p && a < c < 12 && #[trigger] bbs[a].has(i) ==> !#[trigger] bbs[c].has(i),
                forall|c: int, i: int| p < c < q && #[trigger] bbs[p as int].has(i) ==> !#[trigger] bbs[c].has(i),
            decreases 12 - q,
        {
            let shared = board.bit_boards[p].and(board.bit_boards[q]);
            proof {
                lemma_bit_laws();
            }
            if shared.is_not_empty() {
                proof {
                    crate::move_generator::lemma_nonzero_has(shared.0);
                    let i = choose|i: int| on_board(i) && #[trigger] bit(shared.0, i);
                    assert(bbs[p as int].has(i) && bbs[q as int].has(i));
                    assert(!pieces_disjoint(bbs));
                }
                return false;
            }
            proof {
                assert forall|i: int| #[trigger] bbs[p as int].has(i) implies !bbs[q as int].has(i) by {
                    assert(!bit(shared.0, i) || !on_board(i)) by {
                        assert((0u64 >> (i as u64)) & 1 == 0 || !on_board(i));
                    }
                }
            }
            q = q + 1;
        }
        p = p + 1;
    }
    proof {
        assert(pieces_disjoint(bbs)) by {
            assert forall|a: int, c: int, i: int| 0 <= a < 12 && 0 <= c < 12 && a != c && #[trigger] bbs[a].has(i) implies !#[trigger] bbs[c].has(i) by {
                if c < a {
                    if bbs[c].has(i) {
                        assert(!bbs[a].has(i));
                    }
                }
            }
        }
    }
    let rights = board.game_state.castling_rights;
    if !rights.is_valid() {
        return false;
    }
    let w = board.white_to_move;
    let f: usize = if w { 0 } else { 6 };
    let king = *board.get_bit_board(crate::board::piece::Piece::from_index(f + 5));
    if king.is_empty() {
        return false;
    }
    let has_right = if w {
        rights.get_white_king_side() || rights.get_white_queen_side()
    } else {
        rights.get_black_king_side() || rights.get_black_queen_side()
    };
    let home: i8 = if w { 4 } else { 60 };
    if has_right && king.first_square().0 != home {
        return false;
    }
    match board.game_state.en_passant_square {
        Some(e) => {
            if e.0 < 8 || e.0 >= 56 {
                return false;
            }
            let mut occupied_by_mover = false;
            let mut k: usize = 0;
            while k < 6
                invariant
                    k <= 6,
                    8 <= e.0 < 56,
                    f == side_offset(w),
                    w == board.white_to_move,
                    occupied_by_mover == exists|j: int| 0 <= j < k && #[trigger] bit(side_bits(*board, w, j), e.0 as int),
                decreases 6 - k,
            {
                let here = board.get_bit_board(crate::board::piece::Piece::from_index(f + k)).get(&e);
                proof {
                    assert(here == bit(side_bits(*board, w, k as int), e.0 as int));
                }
                occupied_by_mover = occupied_by_mover || here;
                k = k + 1;
            }
            if occupied_by_mover {
                proof {
                    let j = choose|j: int| 0 <= j < 6 && #[trigger] bit(side_bits(*board, w, j), e.0 as int);
                    assert(j == 0 || j == 1 || j == 2 || j == 3 || j == 4 || j == 5);
                }
                return false;
            }
            let behind = e.down(if w { 1 } else { -1 });
            let enemy_pawns = *board.get_bit_board(crate::board::piece::Piece::from_index(6 - f));
            let r = enemy_pawns.get(&behind);
            proof {
                assert(!side_has(*board, w, e.0 as int)) by {
                    assert(!bit(side_bits(*board, w, 0), e.0 as int));
                    assert(!bit(side_bits(*board, w, 1), e.0 as int));
                    assert(!bit(side_bits(*board, w, 2), e.0 as int));
                    assert(!bit(side_bits(*board, w, 3), e.0 as int));
                    assert(!bit(side_bits(*board, w, 4), e.0 as int));
                    assert(!bit(side_bits(*board, w, 5), e.0 as int));
                }
            }
            r
        },
        None => true,
    }
}

/// A move generated when only captures are wanted takes an enemy piece on its target, or is an en
/// passant capture; it is neither a double pawn push nor castling.
pub proof fn lemma_generated_captures(b: Board, mg: MoveGenerator, m: Move)
    requires
        playable(b),
        mg.describes(b),
        mg.generates(true, m),
    ensures
        m.flag != Flag::PawnTwoUp,
        m.flag != Flag::Castle,
        m.flag != Flag::EnPassant ==> b.spec_enemy_piece_at(m.to.0 as int) is Some,
{
    let t = m.to.0 as int;
    let w = b.white_to_move;
    if m.flag != Flag::EnPassant {
        assert(mg.enemy_piece_bit_board.has(t));
        assert(side_has(b, !w, t));
        let eoff = side_offset(!w);
        lemma_first_piece_none(b.bit_boards@, t, eoff, eoff + 6);
        assert(b.bit_boards@[eoff + 0].has(t) || b.bit_boards@[eoff + 1].has(t) || b.bit_boards@[eoff + 2].has(t)
            || b.bit_boards@[eoff + 3].has(t) || b.bit_boards@[eoff + 4].has(t) || b.bit_boards@[eoff + 5].has(t));
    }
}


/// On a playable position the generator's friendly pieces stand apart.
pub proof fn lemma_playable_pieces_apart(b: Board, g: MoveGenerator)
    requires
        playable(b),
        g.describes(b),
    ensures
        g.pieces_apart(),
{
    lemma_bit_laws();
    let w = b.white_to_move;
    let off: int = if w { 0 } else { 6 };
    let bbs = b.bit_boards@;
    let kb = side_bits(b, w, 5);
    lemma_clear_lowest(kb);
    let k = g.friendly_king_square.0 as int;
    assert(bbs[off + 5].has(k));
    assert forall|s: int, p: int| 0 <= p < 6 && #[trigger] bit(side_bits(b, w, p), s) && on_board(s) implies bbs[off + p].has(s) by {}
    assert forall|s: int| #[trigger] g.friendly_diagonal.has(s) == (bbs[off + 2].has(s) || bbs[off + 4].has(s)) by {
        if on_board(s) {
            let su = s as u64;
            assert(bit(side_bits(b, w, 2) | side_bits(b, w, 4), s) == (bit(side_bits(b, w, 2), s) || bit(side_bits(b, w, 4), s)));
        }
    }
    assert forall|s: int| #[trigger] g.friendly_orthogonal.has(s) == (bbs[off + 3].has(s) || bbs[off + 4].has(s)) by {
        if on_board(s) {
            assert(bit(side_bits(b, w, 3) | side_bits(b, w, 4), s) == (bit(side_bits(b, w, 3), s) || bit(side_bits(b, w, 4), s)));
        }
    }
    assert forall|s: int| #[trigger] g.friendly_pawns.has(s) == bbs[off].has(s) by {}
    assert forall|s: int| #[trigger] g.friendly_knights.has(s) == bbs[off + 1].has(s) by {}
    assert(!bbs[off].has(k) && !bbs[off + 1].has(k) && !bbs[off + 2].has(k) && !bbs[off + 3].has(k) && !bbs[off + 4].has(k));
}

} // verus!
