//! Making and unmaking moves.
use vstd::prelude::*;
use crate::board::bit_board::{BitBoard, bit, lemma_bit_laws, lemma_bit_updates, lemma_updates_as_toggles, lemma_xor_laws};
use crate::board::game_state::{CastlingRights, GameState, lemma_rights_bits, has_bit8, WHITE_KING_SIDE_OFFSET, WHITE_QUEEN_SIDE_OFFSET, BLACK_KING_SIDE_OFFSET, BLACK_QUEEN_SIDE_OFFSET};
use crate::board::piece::{Piece, piece_of};
use crate::board::square::{Square, on_board};
use crate::board::{Board, first_piece, lemma_first_piece_range, lemma_first_piece_none, lemma_first_piece_unique};
use crate::board::zobrist::{piece_random, en_passant_random, lemma_xor_zero_left, lemma_xor_facts, pieces_key, position_key, lemma_pieces_key_toggle};
use crate::board::zobrist_randoms::{CASTLING_RANDOMS, SIDE_TO_MOVE_RANDOM};
use super::move_data::{Flag, Move, promotion_piece};

verus! {

/// The bit of a square.
pub open spec fn sq_bit(s: Square) -> u64 {
    1u64 << (s.0 as u64)
}

/// Number of the first piece of a side: 0 for white, 6 for black.
pub open spec fn side_offset(white: bool) -> int {
    if white {
        0
    } else {
        6
    }
}

/// The castling rights after a move from `from` to `to`. A king move (or castling) loses
/// both of its side's rights; any move from or to a corner loses that corner's right.
pub open spec fn rights_after(rights: u8, white: bool, king_moves: bool, from: int, to: int) -> u8 {
    if king_moves {
        if white {
            rights & !1u8 & !2u8
        } else {
            rights & !4u8 & !8u8
        }
    } else {
        let r1 = if from == 0 || to == 0 {
            rights & !2u8
        } else {
            rights
        };
        let r2 = if from == 7 || to == 7 {
            r1 & !1u8
        } else {
            r1
        };
        let r3 = if from == 56 || to == 56 {
            r2 & !8u8
        } else {
            r2
        };
        if from == 63 || to == 63 {
            r3 & !4u8
        } else {
            r3
        }
    }
}

/// Where the rook starts and ends when the king castles to `to`:
/// next to the king on the king side, two further on the queen side.
pub open spec fn rook_from(to: Square) -> Square {
    if to.spec_file() == 6 {
        Square((to.0 + 1) as i8)
    } else {
        Square((to.0 - 2) as i8)
    }
}

/// Where the castling rook ends.
pub open spec fn rook_to(to: Square) -> Square {
    if to.spec_file() == 6 {
        Square((to.0 - 1) as i8)
    } else {
        Square((to.0 + 1) as i8)
    }
}

/// The square of the pawn taken en passant: one rank behind the en passant square, seen from the mover.
pub open spec fn en_passant_capture(ep: Square, white: bool) -> Square {
    if white {
        Square((ep.0 - 8) as i8)
    } else {
        Square((ep.0 + 8) as i8)
    }
}

/// The square skipped by a pawn moving two squares up from `from`.
pub open spec fn skipped_square(from: Square, white: bool) -> Square {
    if white {
        Square((from.0 + 8) as i8)
    } else {
        Square((from.0 - 8) as i8)
    }
}

/// The number of the moving piece: the side to move's piece on `from`.
pub open spec fn moving_piece(b: Board, m: Move) -> int {
    b.spec_friendly_piece_at(m.from.0 as int)->0.spec_index()
}

/// The bit boards once the moving piece (or its promotion) stands on `to`, before any capture.
pub open spec fn moved_bit_boards(b: Board, m: Move) -> Seq<BitBoard> {
    let p = moving_piece(b, m);
    let bbs = b.bit_boards@;
    match promotion_piece(m.flag, b.white_to_move) {
        Some(q) => {
            let s1 = bbs.update(p, BitBoard(bbs[p].0 & !sq_bit(m.from)));
            s1.update(q.spec_index(), BitBoard(s1[q.spec_index()].0 | sq_bit(m.to)))
        },
        None => bbs.update(p, BitBoard(bbs[p].0 ^ (sq_bit(m.from) | sq_bit(m.to)))),
    }
}

/// The piece that a move captures.
pub open spec fn make_captured(b: Board, m: Move) -> Option<Piece> {
    let white = b.white_to_move;
    match m.flag {
        Flag::PawnTwoUp => None,
        Flag::Castle => b.game_state.captured,
        Flag::EnPassant => Some(piece_of(6 - side_offset(white))),
        _ => {
            let lo = 6 - side_offset(white);
            first_piece(moved_bit_boards(b, m), m.to.0 as int, lo, lo + 6)
        },
    }
}

/// The bit boards after a move.
pub open spec fn made_bit_boards(b: Board, m: Move) -> Seq<BitBoard> {
    let white = b.white_to_move;
    let s1 = moved_bit_boards(b, m);
    match m.flag {
        Flag::PawnTwoUp => s1,
        Flag::Castle => {
            let rook = 3 + side_offset(white);
            s1.update(rook, BitBoard(s1[rook].0 ^ (sq_bit(rook_from(m.to)) | sq_bit(rook_to(m.to)))))
        },
        Flag::EnPassant => {
            let pawn = 6 - side_offset(white);
            let cp = en_passant_capture(b.game_state.en_passant_square->0, white);
            s1.update(pawn, BitBoard(s1[pawn].0 & !sq_bit(cp)))
        },
        _ => match make_captured(b, m) {
            Some(c) => s1.update(c.spec_index(), BitBoard(s1[c.spec_index()].0 & !sq_bit(m.to))),
            None => s1,
        },
    }
}

/// The en passant square after a move.
pub open spec fn made_en_passant(b: Board, m: Move) -> Option<Square> {
    if m.flag == Flag::PawnTwoUp {
        Some(skipped_square(m.from, b.white_to_move))
    } else {
        None
    }
}

/// The castling rights after a move.
pub open spec fn made_rights(b: Board, m: Move) -> CastlingRights {
    let p = moving_piece(b, m);
    CastlingRights(
        rights_after(
            b.game_state.castling_rights.0,
            b.white_to_move,
            m.flag == Flag::Castle || p == 5 + side_offset(b.white_to_move),
            m.from.0 as int,
            m.to.0 as int,
        ),
    )
}

/// What `make_move` needs to run: squares on the board, a piece of the side to move on
/// `from`, and for castling and en passant the squares they touch on the board.
pub open spec fn make_move_allowed(b: Board, m: Move) -> bool {
    &&& m.from.valid()
    &&& m.to.valid()
    &&& b.spec_friendly_piece_at(m.from.0 as int) is Some
    &&& b.game_state.castling_rights.valid()
    &&& m.flag == Flag::Castle ==> rook_from(m.to).valid() && rook_to(m.to).valid()
    &&& m.flag == Flag::EnPassant ==> {
        &&& b.game_state.en_passant_square is Some
        &&& on_board((b.game_state.en_passant_square->0).0 - if b.white_to_move { 8int } else { -8int })
    }
}

/// Whether `after` is the board that making `m` on `before` leaves.
pub open spec fn is_made(before: Board, m: Move, after: Board) -> bool {
    &&& after.white_to_move == !before.white_to_move
    &&& after.full_move_counter == before.full_move_counter
    &&& after.bit_boards@ == made_bit_boards(before, m)
    &&& after.game_state.en_passant_square == made_en_passant(before, m)
    &&& after.game_state.castling_rights == made_rights(before, m)
    &&& after.game_state.half_move_clock == before.game_state.half_move_clock
    &&& after.game_state.captured == make_captured(before, m)
    &&& after.game_state.zobrist_key.0 == made_key(before, m)
}

/// Making a move leaves one board: two boards that both are `before` with `m` made are equal.
pub proof fn lemma_made_unique(before: Board, m: Move, a: Board, b: Board)
    requires
        is_made(before, m, a),
        is_made(before, m, b),
    ensures
        a == b,
{
    broadcast use vstd::array::group_array_axioms;
    assert(a.bit_boards =~= b.bit_boards);
    assert(a.game_state.zobrist_key == b.game_state.zobrist_key);
    assert(a.game_state == b.game_state);
}

/// How the key changes in the flag-dependent part of a move.
pub open spec fn flag_key_delta(b: Board, m: Move) -> u64 {
    let white = b.white_to_move;
    let off = side_offset(white);
    match m.flag {
        Flag::PawnTwoUp => en_passant_random(skipped_square(m.from, white)),
        Flag::Castle => piece_random(3 + off, rook_from(m.to).0 as int) ^ piece_random(
            3 + off,
            rook_to(m.to).0 as int,
        ),
        Flag::EnPassant => piece_random(
            6 - off,
            en_passant_capture(b.game_state.en_passant_square->0, white).0 as int,
        ),
        _ => match make_captured(b, m) {
            Some(c) => piece_random(c.spec_index(), m.to.0 as int),
            None => 0u64,
        },
    }
}

/// The key after a move, as `make_move` updates it.
pub open spec fn made_key(b: Board, m: Move) -> u64 {
    let p = moving_piece(b, m);
    let placed = match promotion_piece(m.flag, b.white_to_move) {
        Some(q) => q.spec_index(),
        None => p,
    };
    b.game_state.zobrist_key.0 ^ SIDE_TO_MOVE_RANDOM ^ piece_random(p, m.from.0 as int)
        ^ CASTLING_RANDOMS[b.game_state.castling_rights.0 as int]
        ^ CASTLING_RANDOMS[made_rights(b, m).0 as int] ^ piece_random(placed, m.to.0 as int)
        ^ (match b.game_state.en_passant_square {
        Some(ep) => en_passant_random(ep),
        None => 0u64,
    }) ^ flag_key_delta(b, m)
}

/// Clearing one of the four right bits clears that bit and keeps the others.
proof fn lemma_clear_right_bits()
    by (bit_vector)
    ensures
        forall|v: u8| #![trigger v & !1u8] (v & !1u8) & 1u8 == 0 && (v & !1u8) & 2u8 == v & 2u8 && (v & !1u8) & 4u8 == v & 4u8 && (v & !1u8) & 8u8 == v & 8u8,
        forall|v: u8| #![trigger v & !2u8] (v & !2u8) & 2u8 == 0 && (v & !2u8) & 1u8 == v & 1u8 && (v & !2u8) & 4u8 == v & 4u8 && (v & !2u8) & 8u8 == v & 8u8,
        forall|v: u8| #![trigger v & !4u8] (v & !4u8) & 4u8 == 0 && (v & !4u8) & 1u8 == v & 1u8 && (v & !4u8) & 2u8 == v & 2u8 && (v & !4u8) & 8u8 == v & 8u8,
        forall|v: u8| #![trigger v & !8u8] (v & !8u8) & 8u8 == 0 && (v & !8u8) & 1u8 == v & 1u8 && (v & !8u8) & 2u8 == v & 2u8 && (v & !8u8) & 4u8 == v & 4u8,
{
}

/// The castling right of the corner `corner` (a1, h1, a8 or h8) in `rights`.
pub open spec fn corner_right(rights: u8, corner: int) -> bool {
    if corner == 0 {
        has_bit8(rights, WHITE_QUEEN_SIDE_OFFSET)
    } else if corner == 7 {
        has_bit8(rights, WHITE_KING_SIDE_OFFSET)
    } else if corner == 56 {
        has_bit8(rights, BLACK_QUEEN_SIDE_OFFSET)
    } else {
        has_bit8(rights, BLACK_KING_SIDE_OFFSET)
    }
}

/// A corner's right belongs to white for a1 and h1, to black for a8 and h8.
pub open spec fn corner_is_white(corner: int) -> bool {
    corner == 0 || corner == 7
}

/// What a move does to the castling rights. A right is held only while its rook has never left
/// its corner and nothing has been taken there, and its king has never moved: so after a move
/// other than a king's from or to a corner (a1, h1, a8, h8) that corner's right is gone; after a
/// king move or a castle both rights of the side that moved are gone and the other side's stay
/// (a king move changes only its own side's rights); no right is ever gained; and every other
/// right stays as it was.
pub proof fn lemma_made_rights(b: Board, m: Move, corner: int)
    requires
        b.game_state.castling_rights.valid(),
        b.spec_friendly_piece_at(m.from.0 as int) is Some,
        corner == 0 || corner == 7 || corner == 56 || corner == 63,
    ensures
        ({
            let before = b.game_state.castling_rights.0;
            let after = made_rights(b, m).0;
            let king_moved = m.flag == Flag::Castle || b.spec_friendly_piece_at(m.from.0 as int) == Some(
                if b.white_to_move {
                    Piece::WhiteKing
                } else {
                    Piece::BlackKing
                },
            );
            let mover_corner = corner_is_white(corner) == b.white_to_move;
            &&& !king_moved && (m.from.0 == corner || m.to.0 == corner) ==> !corner_right(after, corner)
            &&& king_moved && mover_corner ==> !corner_right(after, corner)
            &&& corner_right(after, corner) ==> corner_right(before, corner)
            &&& king_moved && !mover_corner ==> corner_right(after, corner) == corner_right(before, corner)
            &&& !king_moved && m.from.0 != corner && m.to.0 != corner ==> corner_right(after, corner) == corner_right(
                before,
                corner,
            )
        }),
{
    lemma_rights_bits();
    lemma_clear_right_bits();
    let w = b.white_to_move;
    let king = if w { Piece::WhiteKing } else { Piece::BlackKing };
    let p = b.spec_friendly_piece_at(m.from.0 as int)->Some_0;
    assert((moving_piece(b, m) == 5 + side_offset(w)) == (p == king));
    let mask: u8 = if corner == 0 { 2 } else if corner == 7 { 1 } else if corner == 56 { 8 } else { 4 };
    assert forall|v: u8| #[trigger] corner_right(v, corner) == (v & mask != 0) by {}
    let before = b.game_state.castling_rights.0;
    let from = m.from.0 as int;
    let to = m.to.0 as int;
    let km = m.flag == Flag::Castle || moving_piece(b, m) == 5 + side_offset(w);
    let after = rights_after(before, w, km, from, to);
    assert(made_rights(b, m).0 == after);
    if !km {
        let r1 = if from == 0 || to == 0 { before & !2u8 } else { before };
        let r2 = if from == 7 || to == 7 { r1 & !1u8 } else { r1 };
        let r3 = if from == 56 || to == 56 { r2 & !8u8 } else { r2 };
        assert(after == if from == 63 || to == 63 { r3 & !4u8 } else { r3 });
        assert(r1 & mask == if corner == 0 && (from == 0 || to == 0) { 0u8 } else { before & mask });
        assert(r2 & mask == if corner == 7 && (from == 7 || to == 7) { 0u8 } else { r1 & mask });
        assert(r3 & mask == if corner == 56 && (from == 56 || to == 56) { 0u8 } else { r2 & mask });
        assert(after & mask == if corner == 63 && (from == 63 || to == 63) { 0u8 } else { r3 & mask });
    } else if w {
        assert(after == (before & !1u8) & !2u8);
    } else {
        assert(after == (before & !4u8) & !8u8);
    }
}

/// What making a move leaves of the bit boards: a square other than the two the move names keeps
/// what it held on every board but the mover's rooks when castling and the opponent's pawns when
/// capturing en passant; the opponent's boards change only on the target square (and the pawn
/// taken en passant); and a board of the mover other than the moving piece's, its promotion's and,
/// when castling, the rooks' is left as it was.
pub proof fn lemma_made_boards_frame(b: Board, m: Move)
    requires
        make_move_allowed(b, m),
    ensures
        ({
            let off = side_offset(b.white_to_move);
            let made = made_bit_boards(b, m);
            let bbs = b.bit_boards@;
            &&& made.len() == 12
            &&& forall|k: int, s: int|
                0 <= k < 12 && 0 <= s < 64 && s != m.from.0 && s != m.to.0 && !(m.flag == Flag::Castle && k == 3 + off) && !(
                m.flag == Flag::EnPassant && k == 6 - off) ==> #[trigger] made[k].has(s) == bbs[k].has(s)
            &&& forall|k: int, s: int|
                6 - off <= k < 12 - off && 0 <= s < 64 && s != m.to.0 && !(m.flag == Flag::EnPassant && k == 6 - off)
                    ==> #[trigger] made[k].has(s) == bbs[k].has(s)
            &&& forall|k: int|
                off <= k < off + 6 && k != moving_piece(b, m) && !(m.flag == Flag::Castle && k == 3 + off) && !(
                promotion_piece(m.flag, b.white_to_move) matches Some(q) && k == q.spec_index()) ==> #[trigger] made[k] == bbs[k]
        }),
{
    let w = b.white_to_move;
    let off = side_offset(w);
    let bbs = b.bit_boards@;
    let p = moving_piece(b, m);
    let from = m.from.0 as int;
    let to = m.to.0 as int;
    let fu = m.from.0 as u64;
    let tu = m.to.0 as u64;
    lemma_first_piece_range(bbs, from, off, off + 6);
    assert(off <= p < off + 6);
    let moved = moved_bit_boards(b, m);
    let made = made_bit_boards(b, m);
    lemma_bit_laws();
    assert forall|s: int| 0 <= s < 64 && s != from && s != to implies #[trigger] bit(bbs[p].0 ^ (sq_bit(m.from) | sq_bit(m.to)), s)
        == bit(bbs[p].0, s) by {
        assert(bit(sq_bit(m.from), s) == (s == from));
        assert(bit(sq_bit(m.to), s) == (s == to));
    }
    assert forall|k: int, s: int| 0 <= k < 12 && 0 <= s < 64 && s != from && s != to implies #[trigger] moved[k].has(s)
        == bbs[k].has(s) by {
        match promotion_piece(m.flag, w) {
            Some(q) => {
                let qi = q.spec_index();
                let s1 = bbs.update(p, BitBoard(bbs[p].0 & !sq_bit(m.from)));
                lemma_bit_updates(s1[qi].0, tu, fu);
                if k == qi {
                    assert(bit(s1[qi].0 | sq_bit(m.to), s) == bit(s1[qi].0, s));
                }
            },
            None => {},
        }
    }
    assert forall|k: int| 0 <= k < 12 && (k < off || k >= off + 6) implies #[trigger] moved[k] == bbs[k] by {
        match promotion_piece(m.flag, w) {
            Some(q) => {
                assert(off <= q.spec_index() < off + 6);
            },
            None => {},
        }
    }
    match m.flag {
        Flag::Castle => {},
        Flag::EnPassant => {},
        Flag::PawnTwoUp => {},
        _ => {
            match make_captured(b, m) {
                Some(c) => {
                    let ci = c.spec_index();
                    lemma_first_piece_range(moved, to, 6 - off, 12 - off);
                    lemma_bit_updates(moved[ci].0, tu, fu);
                },
                None => {},
            }
        },
    }
    if m.flag == Flag::Castle {
        let rook = 3 + off;
        assert(made == moved.update(rook, BitBoard(moved[rook].0 ^ (sq_bit(rook_from(m.to)) | sq_bit(rook_to(m.to))))));
    }
    if m.flag == Flag::EnPassant {
        let pawn = 6 - off;
        let cp = en_passant_capture(b.game_state.en_passant_square->0, w);
        assert(made == moved.update(pawn, BitBoard(moved[pawn].0 & !sq_bit(cp))));
    }
}

/// One of the four corners a1, h1, a8, h8.
pub open spec fn is_corner(s: int) -> bool {
    s == 0 || s == 7 || s == 56 || s == 63
}

/// The board of the rook that castles from a corner.
pub open spec fn corner_rook(corner: int) -> int {
    if corner_is_white(corner) {
        3
    } else {
        9
    }
}

/// The board of the king that castles with a corner's rook.
pub open spec fn corner_king(corner: int) -> int {
    if corner_is_white(corner) {
        5
    } else {
        11
    }
}

/// The home square of the king that castles with a corner's rook: e1 or e8.
pub open spec fn king_home(corner: int) -> int {
    if corner_is_white(corner) {
        4
    } else {
        60
    }
}

/// Every castling right held is backed by the board: its rook stands on its corner and its king
/// on its home square.
pub open spec fn rights_backed(b: Board) -> bool {
    forall|corner: int|
        is_corner(corner) && #[trigger] corner_right(b.game_state.castling_rights.0, corner) ==> b.bit_boards@[corner_rook(
            corner,
        )].has(corner) && b.bit_boards@[corner_king(corner)].has(king_home(corner))
}

/// Making a move keeps every castling right backed by its rook on its corner and its king on its
/// home square. Left out: a move that takes the opponent's king, and a king move or castle onto
/// one of the opponent's corners (a king move changes only its own side's rights).
pub proof fn lemma_make_keeps_rights_backed(b: Board, m: Move, a: Board)
    requires
        make_move_allowed(b, m),
        crate::board::pieces_disjoint(b.bit_boards@),
        rights_backed(b),
        !b.bit_boards@[if b.white_to_move { 11int } else { 5int }].has(m.to.0 as int),
        !((m.flag == Flag::Castle || b.spec_friendly_piece_at(m.from.0 as int) == Some(
            if b.white_to_move { Piece::WhiteKing } else { Piece::BlackKing },
        )) && is_corner(m.to.0 as int) && corner_is_white(m.to.0 as int) != b.white_to_move),
        is_made(b, m, a),
    ensures
        rights_backed(a),
{
    let w = b.white_to_move;
    let off = side_offset(w);
    let bbs = b.bit_boards@;
    let from = m.from.0 as int;
    let to = m.to.0 as int;
    lemma_made_boards_frame(b, m);
    let made = made_bit_boards(b, m);
    let king = if w { Piece::WhiteKing } else { Piece::BlackKing };
    let p = b.spec_friendly_piece_at(from)->Some_0;
    assert((moving_piece(b, m) == 5 + off) == (p == king));
    assert forall|corner: int| is_corner(corner) && #[trigger] corner_right(a.game_state.castling_rights.0, corner) implies
        a.bit_boards@[corner_rook(corner)].has(corner) && a.bit_boards@[corner_king(corner)].has(king_home(corner)) by {
        lemma_made_rights(b, m, corner);
        let rb = corner_rook(corner);
        let kb = corner_king(corner);
        let h = king_home(corner);
        assert(corner_right(b.game_state.castling_rights.0, corner));
        assert(bbs[rb].has(corner) && bbs[kb].has(h));
        let king_moved = m.flag == Flag::Castle || p == king;
        if corner_is_white(corner) == w {
            assert(!king_moved);
            assert(from != corner && to != corner);
            assert(made[rb].has(corner) == bbs[rb].has(corner));
            match promotion_piece(m.flag, w) {
                Some(q) => {
                    assert(q.spec_index() != kb);
                },
                None => {},
            }
            assert(made[kb] == bbs[kb]);
        } else {
            assert(to != corner);
            assert(made[rb].has(corner) == bbs[rb].has(corner));
            assert(to != h);
            assert(made[kb].has(h) == bbs[kb].has(h));
        }
    }
}

/// Castling moves two pieces: the king goes two squares from its home square towards a corner,
/// and the rook of that corner lands on the square the king crossed, leaving the corner empty.
pub proof fn lemma_castle_boards(b: Board, m: Move)
    requires
        make_move_allowed(b, m),
        m.flag == Flag::Castle,
        b.spec_friendly_piece_at(m.from.0 as int) == Some(if b.white_to_move { Piece::WhiteKing } else { Piece::BlackKing }),
        m.from.0 == (if b.white_to_move { 4int } else { 60int }),
        m.to.0 == m.from.0 + 2 || m.to.0 == m.from.0 - 2,
        b.bit_boards@[3 + side_offset(b.white_to_move)].has(if m.to.0 > m.from.0 { m.from.0 + 3 } else { m.from.0 - 4 }),
        !b.bit_boards@[3 + side_offset(b.white_to_move)].has((m.from.0 + m.to.0) / 2),
        forall|k: int| 0 <= k < 12 ==> !(#[trigger] b.bit_boards@[k]).has(m.to.0 as int),
    ensures
        ({
            let king = 5 + side_offset(b.white_to_move);
            let rook = 3 + side_offset(b.white_to_move);
            let corner = if m.to.0 > m.from.0 { m.from.0 + 3 } else { m.from.0 - 4 };
            let crossed = (m.from.0 + m.to.0) / 2;
            let made = made_bit_boards(b, m);
            &&& made[king].has(m.to.0 as int)
            &&& !made[king].has(m.from.0 as int)
            &&& made[rook].has(crossed)
            &&& !made[rook].has(corner)
        }),
{
    let w = b.white_to_move;
    let off = side_offset(w);
    let bbs = b.bit_boards@;
    let from = m.from.0 as int;
    let to = m.to.0 as int;
    let king = 5 + off;
    let rook = 3 + off;
    lemma_bit_laws();
    assert(moving_piece(b, m) == king);
    let moved = moved_bit_boards(b, m);
    assert(moved == bbs.update(king, BitBoard(bbs[king].0 ^ (sq_bit(m.from) | sq_bit(m.to)))));
    lemma_first_piece_range(bbs, from, off, off + 6);
    assert(bbs[king].has(from));
    assert(!bbs[king].has(to));
    assert(bit(sq_bit(m.from), from) && !bit(sq_bit(m.from), to));
    assert(bit(sq_bit(m.to), to) && !bit(sq_bit(m.to), from));
    let rf = rook_from(m.to);
    let rt = rook_to(m.to);
    assert(m.to.spec_file() == to % 8);
    if to > from {
        assert(to % 8 == 6);
        assert(rf.0 == from + 3 && rt.0 == from + 1);
    } else {
        assert(to % 8 == 2);
        assert(rf.0 == from - 4 && rt.0 == from - 1);
    }
    let made = made_bit_boards(b, m);
    assert(made == moved.update(rook, BitBoard(moved[rook].0 ^ (sq_bit(rf) | sq_bit(rt)))));
    assert(moved[rook] == bbs[rook]);
    assert(bit(sq_bit(rf), rf.0 as int) && !bit(sq_bit(rf), rt.0 as int));
    assert(bit(sq_bit(rt), rt.0 as int) && !bit(sq_bit(rt), rf.0 as int));
}

/// What a pawn's special moves leave: after a double push the en passant square is the square the
/// pawn passed over, and after any other move there is none; an en passant capture takes the
/// opponent's pawn that stands beside the capturing pawn's starting square, on the file it moves
/// to; and a promotion leaves the piece it names (queen, rook, bishop or knight of the mover) on
/// the target square and takes the pawn off its starting square.
pub proof fn lemma_pawn_specials(b: Board, m: Move)
    requires
        make_move_allowed(b, m),
        m.from.0 != m.to.0,
    ensures
        ({
            let w = b.white_to_move;
            let off = side_offset(w);
            let made = made_bit_boards(b, m);
            let from = m.from.0 as int;
            let to = m.to.0 as int;
            let beside = (from / 8) * 8 + to % 8;
            &&& m.flag == Flag::PawnTwoUp && to == from + (if w { 16int } else { -16int }) ==> made_en_passant(b, m) == Some(
                Square(((from + to) / 2) as i8),
            )
            &&& m.flag != Flag::PawnTwoUp ==> made_en_passant(b, m) is None
            &&& m.flag == Flag::EnPassant && b.game_state.en_passant_square == Some(m.to) && to / 8 == from / 8 + (if w {
                1int
            } else {
                -1int
            }) ==> !made[6 - off].has(beside)
            &&& m.flag == Flag::EnPassant && b.game_state.en_passant_square == Some(m.to) && to / 8 == from / 8 + (if w {
                1int
            } else {
                -1int
            }) ==> forall|k: int, sq: int| 0 <= k < 12 && 0 <= sq < 64 && sq != from && sq != to && sq != beside ==> #[trigger] made[k].has(sq) == b.bit_boards@[k].has(sq)
            &&& m.flag == Flag::QueenPromotion ==> made[off + 4].has(to)
            &&& m.flag == Flag::RookPromotion ==> made[off + 3].has(to)
            &&& m.flag == Flag::BishopPromotion ==> made[off + 2].has(to)
            &&& m.flag == Flag::KnightPromotion ==> made[off + 1].has(to)
            &&& m.flag.is_promotion() && moving_piece(b, m) == off ==> !made[off].has(from) && made[off].has(to)
                == b.bit_boards@[off].has(to)
        }),
{
    let w = b.white_to_move;
    let off = side_offset(w);
    let bbs = b.bit_boards@;
    let from = m.from.0 as int;
    let to = m.to.0 as int;
    let p = moving_piece(b, m);
    lemma_bit_laws();
    lemma_made_boards_frame(b, m);
    lemma_first_piece_range(bbs, from, off, off + 6);
    let moved = moved_bit_boards(b, m);
    let made = made_bit_boards(b, m);
    assert(bit(sq_bit(m.from), from) && !bit(sq_bit(m.from), to));
    assert(bit(sq_bit(m.to), to) && !bit(sq_bit(m.to), from));
    if m.flag == Flag::EnPassant && b.game_state.en_passant_square == Some(m.to) {
        let cp = en_passant_capture(m.to, w);
        let beside = (from / 8) * 8 + to % 8;
        if to / 8 == from / 8 + (if w { 1int } else { -1int }) {
            assert(cp.0 == beside);
            assert(bit(sq_bit(cp), beside));
            assert(made[6 - off] == BitBoard(moved[6 - off].0 & !sq_bit(cp)));
            assert forall|k: int, sq: int| 0 <= k < 12 && 0 <= sq < 64 && sq != from && sq != to && sq != beside implies #[trigger] made[k].has(sq) == b.bit_boards@[k].has(sq) by {
                if k == 6 - off {
                    assert(moved[k].has(sq) == bbs[k].has(sq));
                    assert(!bit(sq_bit(cp), sq));
                }
            }
        }
    }
    match promotion_piece(m.flag, w) {
        Some(q) => {
            let qi = q.spec_index();
            let s1 = bbs.update(p, BitBoard(bbs[p].0 & !sq_bit(m.from)));
            assert(moved == s1.update(qi, BitBoard(s1[qi].0 | sq_bit(m.to))));
            assert(made[qi].has(to)) by {
                match make_captured(b, m) {
                    Some(c) => {
                        lemma_first_piece_range(moved, to, 6 - off, 12 - off);
                    },
                    None => {},
                }
            }
            if p == off {
                assert(!moved[off].has(from));
                assert(moved[off].has(to) == bbs[off].has(to));
                assert(made[off] == moved[off]) by {
                    match make_captured(b, m) {
                        Some(c) => {
                            lemma_first_piece_range(moved, to, 6 - off, 12 - off);
                        },
                        None => {},
                    }
                }
            }
        },
        None => {},
    }
}

/// Losing rights keeps the value within four bits.
pub proof fn lemma_rights_after_valid(rights: u8, white: bool, king_moves: bool, from: int, to: int)
    requires
        rights < 16,
    ensures
        rights_after(rights, white, king_moves, from, to) < 16,
{
    lemma_rights_bits();
}

impl Board {
    /// Plays a move and returns the game state from before it, which `unmake_move` takes back.
    pub fn make_move(&mut self, move_data: &Move) -> (old_state: GameState)
        requires
            make_move_allowed(*old(self), *move_data),
        ensures
            old_state == old(self).game_state,
            final(self).white_to_move == !old(self).white_to_move,
            final(self).full_move_counter == old(self).full_move_counter,
            final(self).bit_boards@ == made_bit_boards(*old(self), *move_data),
            final(self).game_state.en_passant_square == made_en_passant(*old(self), *move_data),
            final(self).game_state.castling_rights == made_rights(*old(self), *move_data),
            final(self).game_state.half_move_clock == old(self).game_state.half_move_clock,
            final(self).game_state.captured == make_captured(*old(self), *move_data),
            final(self).game_state.castling_rights.valid(),
            final(self).game_state.zobrist_key.0 == made_key(*old(self), *move_data),
    {
        let old_state = self.game_state;
        let white_to_move = self.white_to_move;
        let ghost b0 = *self;
        self.game_state.zobrist_key.flip_side_to_move();
        let piece = match self.friendly_piece_at(move_data.from) {
            Some(piece) => piece,
            None => Piece::WhitePawn,
        };
        self.game_state.zobrist_key.xor_piece(piece.index(), move_data.from.usize());
        self.update_castling_rights(piece, move_data);
        self.move_piece(piece, move_data);
        let en_passant_square = self.game_state.en_passant_square;
        if let Some(en_passant_square) = en_passant_square {
            self.game_state.zobrist_key.xor_en_passant(&en_passant_square);
        }
        let ghost k5 = self.game_state.zobrist_key.0;
        self.game_state.en_passant_square = None;
        proof {
            assert(self.bit_boards@ == moved_bit_boards(b0, *move_data));
            assert(piece.spec_index() == moving_piece(b0, *move_data));
        }
        self.apply_flag(move_data, en_passant_square, Ghost(b0));
        self.white_to_move = !white_to_move;
        proof {
            assert(made_key(b0, *move_data) == k5 ^ flag_key_delta(b0, *move_data)) by {
                if en_passant_square is None {
                    lemma_xor_zero_left(k5);
                }
            }
        }
        old_state
    }

    /// Updates the castling rights (and their part of the key) for a move of `piece`.
    fn update_castling_rights(&mut self, piece: Piece, move_data: &Move)
        requires
            old(self).game_state.castling_rights.valid(),
        ensures
            final(self).game_state.castling_rights == CastlingRights(
                rights_after(
                    old(self).game_state.castling_rights.0,
                    old(self).white_to_move,
                    move_data.flag == Flag::Castle || piece.spec_index() == 5 + side_offset(
                        old(self).white_to_move,
                    ),
                    move_data.from.0 as int,
                    move_data.to.0 as int,
                ),
            ),
            final(self).game_state.castling_rights.valid(),
            final(self).game_state.zobrist_key.0 == old(self).game_state.zobrist_key.0
                ^ CASTLING_RANDOMS[old(self).game_state.castling_rights.0 as int]
                ^ CASTLING_RANDOMS[final(self).game_state.castling_rights.0 as int],
            final(self).bit_boards == old(self).bit_boards,
            final(self).white_to_move == old(self).white_to_move,
            final(self).full_move_counter == old(self).full_move_counter,
            final(self).game_state.en_passant_square == old(self).game_state.en_passant_square,
            final(self).game_state.half_move_clock == old(self).game_state.half_move_clock,
            final(self).game_state.captured == old(self).game_state.captured,
    {
        let white_to_move = self.white_to_move;
        let rights = self.game_state.castling_rights;
        self.game_state.zobrist_key.xor_castling_rights(&rights);
        let is_castle = move_data.flag == Flag::Castle;
        let king = if white_to_move {
            Piece::WhiteKing
        } else {
            Piece::BlackKing
        };
        if is_castle || piece == king {
            if white_to_move {
                self.game_state.castling_rights.unset_white_king_side();
                self.game_state.castling_rights.unset_white_queen_side();
            } else {
                self.game_state.castling_rights.unset_black_king_side();
                self.game_state.castling_rights.unset_black_queen_side();
            }
        } else {
            if move_data.from.index() == 0 || move_data.to.index() == 0 {
                self.game_state.castling_rights.unset_white_queen_side();
            }
            if move_data.from.index() == 7 || move_data.to.index() == 7 {
                self.game_state.castling_rights.unset_white_king_side();
            }
            if move_data.from.index() == 56 || move_data.to.index() == 56 {
                self.game_state.castling_rights.unset_black_queen_side();
            }
            if move_data.from.index() == 63 || move_data.to.index() == 63 {
                self.game_state.castling_rights.unset_black_king_side();
            }
        }
        proof {
            lemma_rights_bits();
            assert(piece == king <==> piece.spec_index() == 5 + side_offset(white_to_move));
            lemma_rights_after_valid(
                rights.0,
                white_to_move,
                is_castle || piece == king,
                move_data.from.0 as int,
                move_data.to.0 as int,
            );
        }
        let new_rights = self.game_state.castling_rights;
        self.game_state.zobrist_key.xor_castling_rights(&new_rights);
    }

    /// Moves `piece` from `from` to `to`, or replaces it by its promotion on `to`.
    fn move_piece(&mut self, piece: Piece, move_data: &Move)
        requires
            move_data.from.valid(),
            move_data.to.valid(),
            old(self).spec_friendly_piece_at(move_data.from.0 as int) == Some(piece),
        ensures
            final(self).bit_boards@ == moved_bit_boards(*old(self), *move_data),
            final(self).game_state.zobrist_key.0 == old(self).game_state.zobrist_key.0 ^ match promotion_piece(
                move_data.flag,
                old(self).white_to_move,
            ) {
                Some(q) => piece_random(q.spec_index(), move_data.to.0 as int),
                None => piece_random(piece.spec_index(), move_data.to.0 as int),
            },
            final(self).white_to_move == old(self).white_to_move,
            final(self).full_move_counter == old(self).full_move_counter,
            final(self).game_state.castling_rights == old(self).game_state.castling_rights,
            final(self).game_state.en_passant_square == old(self).game_state.en_passant_square,
            final(self).game_state.half_move_clock == old(self).game_state.half_move_clock,
            final(self).game_state.captured == old(self).game_state.captured,
    {
        let promotion_piece = move_data.flag.get_promotion_piece(self.white_to_move);
        if let Some(promotion_piece) = promotion_piece {
            self.get_bit_board_mut(piece).unset(&move_data.from);
            self.get_bit_board_mut(promotion_piece).set(&move_data.to);
            self.game_state.zobrist_key.xor_piece(promotion_piece.index(), move_data.to.usize());
        } else {
            self.get_bit_board_mut(piece).toggle_two(&move_data.from, &move_data.to);
            self.game_state.zobrist_key.xor_piece(piece.index(), move_data.to.usize());
        }
    }

    /// The part of a move that depends on its flag: the en passant square after a double pawn
    /// push, the rook of a castling, and captures.
    fn apply_flag(&mut self, move_data: &Move, en_passant_square: Option<Square>, Ghost(b0): Ghost<Board>)
        requires
            make_move_allowed(b0, *move_data),
            en_passant_square == b0.game_state.en_passant_square,
            old(self).bit_boards@ == moved_bit_boards(b0, *move_data),
            old(self).white_to_move == b0.white_to_move,
            old(self).game_state.captured == b0.game_state.captured,
            old(self).game_state.en_passant_square is None,
        ensures
            final(self).bit_boards@ == made_bit_boards(b0, *move_data),
            final(self).game_state.zobrist_key.0 == old(self).game_state.zobrist_key.0 ^ flag_key_delta(b0, *move_data),
            final(self).game_state.en_passant_square == made_en_passant(b0, *move_data),
            final(self).game_state.captured == make_captured(b0, *move_data),
            final(self).white_to_move == old(self).white_to_move,
            final(self).full_move_counter == old(self).full_move_counter,
            final(self).game_state.castling_rights == old(self).game_state.castling_rights,
            final(self).game_state.half_move_clock == old(self).game_state.half_move_clock,
    {
        let white_to_move = self.white_to_move;
        let flag = move_data.flag;
        if flag == Flag::PawnTwoUp {
            let en_passant_square = move_data.from.up(
                if white_to_move {
                    1
                } else {
                    -1
                },
            );
            self.game_state.en_passant_square = Some(en_passant_square);
            self.game_state.zobrist_key.xor_en_passant(&en_passant_square);
            self.game_state.captured = None;
        } else if flag == Flag::Castle {
            let is_king_side = move_data.to.file() == 6;
            let rook_to_offset: i8 = if is_king_side {
                -1
            } else {
                1
            };
            let rook_from_offset: i8 = if is_king_side {
                1
            } else {
                -2
            };
            let rook = if white_to_move {
                Piece::WhiteRook
            } else {
                Piece::BlackRook
            };
            let rook_from = move_data.to.offset(rook_from_offset);
            let rook_to = move_data.to.offset(rook_to_offset);
            self.get_bit_board_mut(rook).toggle_two(&rook_from, &rook_to);
            let ghost k = self.game_state.zobrist_key.0;
            self.game_state.zobrist_key.xor_piece(rook.index(), rook_from.usize());
            self.game_state.zobrist_key.xor_piece(rook.index(), rook_to.usize());
            proof {
                let a = piece_random(rook.spec_index(), rook_from.0 as int);
                let c = piece_random(rook.spec_index(), rook_to.0 as int);
                assert((k ^ a) ^ c == k ^ (a ^ c)) by (bit_vector);
            }
        } else if flag == Flag::EnPassant {
            let ep = match en_passant_square {
                Some(ep) => ep,
                None => move_data.to,
            };
            let capture_position = ep.down(
                if white_to_move {
                    1
                } else {
                    -1
                },
            );
            let captured = if white_to_move {
                Piece::BlackPawn
            } else {
                Piece::WhitePawn
            };
            self.game_state.captured = Some(captured);
            self.get_bit_board_mut(captured).unset(&capture_position);
            self.game_state.zobrist_key.xor_piece(captured.index(), capture_position.usize());
        } else {
            self.game_state.captured = self.enemy_piece_at(move_data.to);
            if let Some(captured) = self.game_state.captured {
                self.get_bit_board_mut(captured).unset(&move_data.to);
                self.game_state.zobrist_key.xor_piece(captured.index(), move_data.to.usize());
            } else {
                proof {
                    lemma_xor_zero_left(self.game_state.zobrist_key.0);
                }
            }
        }
        proof {
            assert(self.bit_boards@ =~= made_bit_boards(b0, *move_data));
        }
    }
}

/// The bit boards after taking back move `m`, made by the side `white`, which captured `capture`.
pub open spec fn unmade_bit_boards(
    bbs: Seq<BitBoard>,
    white: bool,
    capture: Option<Piece>,
    m: Move,
    old_state: GameState,
) -> Seq<BitBoard> {
    let off = side_offset(white);
    let pawn = off;
    match m.flag {
        Flag::Normal => {
            let p = first_piece(bbs, m.to.0 as int, off, off + 6)->0.spec_index();
            let s1 = bbs.update(p, BitBoard(bbs[p].0 ^ (sq_bit(m.from) | sq_bit(m.to))));
            match capture {
                Some(c) => s1.update(c.spec_index(), BitBoard(s1[c.spec_index()].0 | sq_bit(m.to))),
                None => s1,
            }
        },
        Flag::PawnTwoUp => bbs.update(pawn, BitBoard(bbs[pawn].0 ^ (sq_bit(m.from) | sq_bit(m.to)))),
        Flag::EnPassant => {
            let cp = en_passant_capture(old_state.en_passant_square->0, white);
            let c = capture->0.spec_index();
            let s1 = bbs.update(c, BitBoard(bbs[c].0 | sq_bit(cp)));
            s1.update(pawn, BitBoard(s1[pawn].0 ^ (sq_bit(m.from) | sq_bit(m.to))))
        },
        Flag::Castle => {
            let rook = 3 + off;
            let king = 5 + off;
            let s1 = bbs.update(rook, BitBoard(bbs[rook].0 ^ (sq_bit(rook_from(m.to)) | sq_bit(rook_to(m.to)))));
            s1.update(king, BitBoard(s1[king].0 ^ (sq_bit(m.from) | sq_bit(m.to))))
        },
        _ => {
            let q = promotion_piece(m.flag, white)->0.spec_index();
            let s1 = bbs.update(pawn, BitBoard(bbs[pawn].0 | sq_bit(m.from)));
            let s2 = s1.update(q, BitBoard(s1[q].0 & !sq_bit(m.to)));
            match capture {
                Some(c) => s2.update(c.spec_index(), BitBoard(s2[c.spec_index()].0 | sq_bit(m.to))),
                None => s2,
            }
        },
    }
}

/// What `unmake_move` needs to run on bit boards `bbs` whose last move `m` was made by
/// `white` and captured `captured`.
pub open spec fn unmake_move_allowed(
    bbs: Seq<BitBoard>,
    white: bool,
    captured: Option<Piece>,
    m: Move,
    old_state: GameState,
) -> bool {
    &&& m.from.valid()
    &&& m.to.valid()
    &&& m.flag == Flag::Normal ==> first_piece(bbs, m.to.0 as int, side_offset(white), side_offset(white) + 6) is Some
    &&& m.flag == Flag::Castle ==> rook_from(m.to).valid() && rook_to(m.to).valid()
    &&& m.flag == Flag::EnPassant ==> {
        &&& old_state.en_passant_square is Some
        &&& on_board((old_state.en_passant_square->0).0 - if white { 8int } else { -8int })
        &&& captured is Some
    }
}

/// A move that `make_move` and `unmake_move` take back exactly: `from` and `to` differ,
/// no piece of the mover stands on `to`, special moves are made by the right piece (a pawn for
/// double pushes, en passant and promotions, the king for castling), and an en passant
/// capture finds an enemy pawn to take.
pub open spec fn round_trip_ok(b: Board, m: Move) -> bool {
    let white = b.white_to_move;
    let off = side_offset(white);
    let p = moving_piece(b, m);
    &&& make_move_allowed(b, m)
    &&& m.from.0 != m.to.0
    &&& b.spec_friendly_piece_at(m.to.0 as int) is None
    &&& (m.flag == Flag::PawnTwoUp || m.flag == Flag::EnPassant || m.flag.is_promotion()) ==> p == off
    &&& m.flag == Flag::Castle ==> p == off + 5
    &&& m.flag == Flag::EnPassant ==> b.bit_boards@[6 - off].has(
        en_passant_capture(b.game_state.en_passant_square->0, white).0 as int,
    )
}

/// Unmaking a move after making it gives back the bit boards, the side to move and the game
/// state of the position before it.
pub proof fn lemma_unmake_undoes_make(b: Board, m: Move)
    requires
        round_trip_ok(b, m),
    ensures
        unmake_move_allowed(made_bit_boards(b, m), b.white_to_move, make_captured(b, m), m, b.game_state),
        unmade_bit_boards(made_bit_boards(b, m), b.white_to_move, make_captured(b, m), m, b.game_state)
            == b.bit_boards@,
{
    let white = b.white_to_move;
    let off = side_offset(white);
    let bbs = b.bit_boards@;
    let p = moving_piece(b, m);
    let f = m.from.0 as u64;
    let t = m.to.0 as u64;
    let fi = m.from.0 as int;
    let ti = m.to.0 as int;
    lemma_first_piece_range(bbs, fi, off, off + 6);
    lemma_first_piece_none(bbs, ti, off, off + 6);
    assert(off <= p < off + 6);
    assert(bbs[p].has(fi));
    lemma_bit_updates(bbs[p].0, f, t);
    let made = made_bit_boards(b, m);
    let captured = make_captured(b, m);
    let result = unmade_bit_boards(made, white, captured, m, b.game_state);
    match m.flag {
        Flag::Normal => {
            let s1 = moved_bit_boards(b, m);
            assert(s1 == bbs.update(p, BitBoard(bbs[p].0 ^ (sq_bit(m.from) | sq_bit(m.to)))));
            let lo = 6 - off;
            lemma_first_piece_range(s1, ti, lo, lo + 6);
            if let Some(c) = captured {
                let ci = c.spec_index();
                assert(lo <= ci < lo + 6);
                lemma_bit_updates(s1[ci].0, t, t);
                assert(made == s1.update(ci, BitBoard(s1[ci].0 & !sq_bit(m.to))));
            } else {
                assert(made == s1);
            }
            assert forall|j: int| off <= j < off + 6 && j != p implies !#[trigger] made[j].has(ti) by {
                assert(!bbs[j].has(ti));
            }
            assert(f != t);
            assert(!bbs[p].has(ti));
            assert(bit(bbs[p].0 ^ (sq_bit(m.from) | sq_bit(m.to)), ti));
            assert(made[p] == s1[p]);
            assert(made[p].has(ti));
            lemma_first_piece_unique(made, ti, off, off + 6, p);
            assert(piece_of(p).spec_index() == p);
            assert(result =~= bbs);
        },
        Flag::PawnTwoUp => {
            assert(result =~= bbs);
        },
        Flag::EnPassant => {
            let ep = b.game_state.en_passant_square->0;
            let cp = en_passant_capture(ep, white);
            let c = 6 - off;
            assert(sq_bit(cp) == 1u64 << (cp.0 as u64));
            lemma_bit_updates(bbs[c].0, cp.0 as u64, cp.0 as u64);
            assert(piece_of(c).spec_index() == c);
            assert(result =~= bbs);
        },
        Flag::Castle => {
            let rook = 3 + off;
            lemma_bit_updates(bbs[rook].0, rook_from(m.to).0 as u64, rook_to(m.to).0 as u64);
            assert(result =~= bbs);
        },
        _ => {
            let q = promotion_piece(m.flag, white)->0.spec_index();
            assert(off < q < off + 5);
            assert(!bbs[q].has(ti));
            let s1 = bbs.update(p, BitBoard(bbs[p].0 & !sq_bit(m.from)));
            let s1q = s1.update(q, BitBoard(s1[q].0 | sq_bit(m.to)));
            lemma_bit_updates(bbs[q].0, t, t);
            assert(moved_bit_boards(b, m) == s1q);
            let lo = 6 - off;
            lemma_first_piece_range(s1q, ti, lo, lo + 6);
            if let Some(c) = captured {
                let ci = c.spec_index();
                assert(lo <= ci < lo + 6);
                lemma_bit_updates(s1q[ci].0, t, t);
            }
            assert(result =~= bbs);
        },
    }
}

impl Board {
    /// Takes back move `move_data`, given the game state from before it.
    pub fn unmake_move(&mut self, move_data: &Move, old_state: &GameState)
        requires
            unmake_move_allowed(
                old(self).bit_boards@,
                !old(self).white_to_move,
                old(self).game_state.captured,
                *move_data,
                *old_state,
            ),
        ensures
            final(self).white_to_move == !old(self).white_to_move,
            final(self).game_state == *old_state,
            final(self).full_move_counter == old(self).full_move_counter,
            final(self).bit_boards@ == unmade_bit_boards(
                old(self).bit_boards@,
                !old(self).white_to_move,
                old(self).game_state.captured,
                *move_data,
                *old_state,
            ),
    {
        let ghost b0 = *self;
        let capture = self.game_state.captured;
        self.game_state = *old_state;
        let white_to_move = !self.white_to_move;
        self.white_to_move = white_to_move;
        let pawn = if white_to_move {
            Piece::WhitePawn
        } else {
            Piece::BlackPawn
        };
        match move_data.flag {
            Flag::Normal => {
                let moving = match self.friendly_piece_at(move_data.to) {
                    Some(piece) => piece,
                    None => pawn,
                };
                self.get_bit_board_mut(moving).toggle_two(&move_data.from, &move_data.to);
                if let Some(capture) = capture {
                    self.get_bit_board_mut(capture).set(&move_data.to);
                }
            },
            Flag::PawnTwoUp => {
                self.get_bit_board_mut(pawn).toggle_two(&move_data.from, &move_data.to);
            },
            Flag::EnPassant => {
                let ep = match self.game_state.en_passant_square {
                    Some(ep) => ep,
                    None => move_data.to,
                };
                let capture_position = ep.down(
                    if white_to_move {
                        1
                    } else {
                        -1
                    },
                );
                let captured = match capture {
                    Some(c) => c,
                    None => pawn,
                };
                self.get_bit_board_mut(captured).set(&capture_position);
                self.get_bit_board_mut(pawn).toggle_two(&move_data.from, &move_data.to);
            },
            Flag::Castle => {
                let is_king_side = move_data.to.file() == 6;
                let rook_to_offset: i8 = if is_king_side {
                    -1
                } else {
                    1
                };
                let rook_from_offset: i8 = if is_king_side {
                    1
                } else {
                    -2
                };
                let rook = if white_to_move {
                    Piece::WhiteRook
                } else {
                    Piece::BlackRook
                };
                let king = if white_to_move {
                    Piece::WhiteKing
                } else {
                    Piece::BlackKing
                };
                self.get_bit_board_mut(rook).toggle_two(
                    &move_data.to.offset(rook_from_offset),
                    &move_data.to.offset(rook_to_offset),
                );
                self.get_bit_board_mut(king).toggle_two(&move_data.from, &move_data.to);
            },
            _ => {
                self.get_bit_board_mut(pawn).set(&move_data.from);
                let promotion = match move_data.flag.get_promotion_piece(white_to_move) {
                    Some(q) => q,
                    None => pawn,
                };
                self.get_bit_board_mut(promotion).unset(&move_data.to);
                if let Some(capture) = capture {
                    self.get_bit_board_mut(capture).set(&move_data.to);
                }
            },
        }
        proof {
            assert(self.bit_boards@ =~= unmade_bit_boards(
                b0.bit_boards@,
                !b0.white_to_move,
                b0.game_state.captured,
                *move_data,
                *old_state,
            ));
        }
    }
}

/// The key part of the pieces after a move: the moving piece leaves `from`, it (or its
/// promotion) arrives on `to`, and the flag's extra pieces change.
pub open spec fn piece_key_delta(b: Board, m: Move) -> u64 {
    match m.flag {
        Flag::PawnTwoUp => 0u64,
        _ => flag_key_delta(b, m),
    }
}

/// Toggles bit `s` of bit board `p`.
pub open spec fn toggled(bbs: Seq<BitBoard>, p: int, s: int) -> Seq<BitBoard> {
    bbs.update(p, BitBoard(bbs[p].0 ^ (1u64 << (s as u64))))
}

/// Xor of four values, as the key chains below build it.
pub proof fn lemma_xor_chain(k0: u64, a: u64, b: u64, c: u64, k1: u64, k2: u64, k3: u64)
    requires
        k1 == k0 ^ a,
        k2 == k1 ^ b,
        k3 == k2 ^ c,
    ensures
        k3 == k0 ^ a ^ b ^ c,
{
    lemma_xor_laws();
}

/// The capture part of the key change: the captured piece, if any, leaves `to`.
proof fn lemma_capture_key(b: Board, m: Move, a2: Seq<BitBoard>)
    requires
        round_trip_ok(b, m),
        a2 == moved_bit_boards(b, m),
        a2.len() == 12,
        m.flag != Flag::PawnTwoUp && m.flag != Flag::Castle && m.flag != Flag::EnPassant,
    ensures
        pieces_key(made_bit_boards(b, m), 12) == pieces_key(a2, 12) ^ flag_key_delta(b, m),
{
    let off = side_offset(b.white_to_move);
    let ti = m.to.0 as int;
    let t = m.to.0 as u64;
    let lo = 6 - off;
    lemma_first_piece_range(a2, ti, lo, lo + 6);
    match make_captured(b, m) {
        Some(c) => {
            let ci = c.spec_index();
            assert(lo <= ci < lo + 6 && a2[ci].has(ti));
            lemma_updates_as_toggles(a2[ci].0, t, t);
            assert(made_bit_boards(b, m) =~= toggled(a2, ci, ti));
            lemma_pieces_key_toggle(a2, ci, ti);
        },
        None => {
            lemma_xor_zero_left(pieces_key(a2, 12));
        },
    }
}

/// The pieces' key after a move changes by the pieces that moved, appeared or left.
pub proof fn lemma_made_pieces_key(b: Board, m: Move)
    requires
        round_trip_ok(b, m),
    ensures
        pieces_key(made_bit_boards(b, m), 12) == pieces_key(b.bit_boards@, 12) ^ piece_random(
            moving_piece(b, m),
            m.from.0 as int,
        ) ^ piece_random(
            match promotion_piece(m.flag, b.white_to_move) {
                Some(q) => q.spec_index(),
                None => moving_piece(b, m),
            },
            m.to.0 as int,
        ) ^ piece_key_delta(b, m),
{
    let white = b.white_to_move;
    let off = side_offset(white);
    let bbs = b.bit_boards@;
    assert(bbs.len() == 12);
    let p = moving_piece(b, m);
    let fi = m.from.0 as int;
    let ti = m.to.0 as int;
    let f = m.from.0 as u64;
    let t = m.to.0 as u64;
    lemma_first_piece_range(bbs, fi, off, off + 6);
    lemma_first_piece_none(bbs, ti, off, off + 6);
    assert(off <= p < off + 6 && bbs[p].has(fi));
    let k0 = pieces_key(bbs, 12);
    let made = made_bit_boards(b, m);
    if m.flag.is_promotion() {
        let q = promotion_piece(m.flag, white)->0.spec_index();
        assert(off < q < off + 5);
        assert(!bbs[q].has(ti));
        lemma_updates_as_toggles(bbs[p].0, f, t);
        let a1 = toggled(bbs, p, fi);
        assert(a1 =~= bbs.update(p, BitBoard(bbs[p].0 & !sq_bit(m.from))));
        lemma_pieces_key_toggle(bbs, p, fi);
        lemma_updates_as_toggles(a1[q].0, t, t);
        let a2 = toggled(a1, q, ti);
        assert(a2 =~= moved_bit_boards(b, m));
        lemma_pieces_key_toggle(a1, q, ti);
        lemma_capture_key(b, m, a2);
        lemma_xor_chain(k0, piece_random(p, fi), piece_random(q, ti), piece_key_delta(b, m),
            pieces_key(a1, 12), pieces_key(a2, 12), pieces_key(made, 12));
    } else {
        lemma_updates_as_toggles(bbs[p].0, f, t);
        let a1 = toggled(bbs, p, fi);
        lemma_pieces_key_toggle(bbs, p, fi);
        let a2 = toggled(a1, p, ti);
        lemma_pieces_key_toggle(a1, p, ti);
        assert(a2 =~= moved_bit_boards(b, m));
        let k1 = pieces_key(a1, 12);
        let k2 = pieces_key(a2, 12);
        let rf = piece_random(p, fi);
        let rt = piece_random(p, ti);
        match m.flag {
            Flag::PawnTwoUp => {
                lemma_xor_zero_left(k2);
                lemma_xor_chain(k0, rf, rt, 0u64, k1, k2, k2);
            },
            Flag::Castle => {
                let rook = 3 + off;
                let rfi = rook_from(m.to).0 as int;
                let rti = rook_to(m.to).0 as int;
                lemma_updates_as_toggles(a2[rook].0, rfi as u64, rti as u64);
                let a3 = toggled(a2, rook, rfi);
                lemma_pieces_key_toggle(a2, rook, rfi);
                let a4 = toggled(a3, rook, rti);
                lemma_pieces_key_toggle(a3, rook, rti);
                assert(made =~= a4);
                let x = piece_random(rook, rfi);
                let y = piece_random(rook, rti);
                let k3 = pieces_key(a3, 12);
                let k4 = pieces_key(a4, 12);
                assert(k1 == k0 ^ rf && k2 == k1 ^ rt && k3 == k2 ^ x && k4 == k3 ^ y ==> k4 == k0 ^ rf ^ rt ^ (x ^ y)) by (bit_vector);
            },
            Flag::EnPassant => {
                let c = 6 - off;
                let cp = en_passant_capture(b.game_state.en_passant_square->0, white).0 as int;
                assert(a2[c] == bbs[c]);
                lemma_updates_as_toggles(a2[c].0, cp as u64, cp as u64);
                assert(made =~= toggled(a2, c, cp));
                lemma_pieces_key_toggle(a2, c, cp);
                lemma_xor_chain(k0, rf, rt, piece_key_delta(b, m), k1, k2, pieces_key(made, 12));
            },
            _ => {
                lemma_capture_key(b, m, a2);
                lemma_xor_chain(k0, rf, rt, piece_key_delta(b, m), k1, k2, pieces_key(made, 12));
            },
        }
    }
}

/// Making a move keeps the key equal to the key computed from scratch.
pub proof fn lemma_make_keeps_key(b: Board, m: Move)
    requires
        round_trip_ok(b, m),
        b.game_state.zobrist_key.0 == position_key(
            b.bit_boards@,
            b.white_to_move,
            b.game_state.en_passant_square,
            b.game_state.castling_rights,
        ),
    ensures
        made_key(b, m) == position_key(
            made_bit_boards(b, m),
            !b.white_to_move,
            made_en_passant(b, m),
            made_rights(b, m),
        ),
{
    lemma_made_pieces_key(b, m);
    let k = pieces_key(b.bit_boards@, 12);
    let k2 = pieces_key(made_bit_boards(b, m), 12);
    let side = SIDE_TO_MOVE_RANDOM;
    let s_old: u64 = if b.white_to_move { 0u64 } else { side };
    let s_new: u64 = if !b.white_to_move { 0u64 } else { side };
    let e_old: u64 = match b.game_state.en_passant_square {
        Some(ep) => en_passant_random(ep),
        None => 0u64,
    };
    let e_new: u64 = match made_en_passant(b, m) {
        Some(ep) => en_passant_random(ep),
        None => 0u64,
    };
    let c_old = CASTLING_RANDOMS[b.game_state.castling_rights.0 as int];
    let c_new = CASTLING_RANDOMS[made_rights(b, m).0 as int];
    let p = moving_piece(b, m);
    let rf = piece_random(p, m.from.0 as int);
    let rt = piece_random(
        match promotion_piece(m.flag, b.white_to_move) {
            Some(q) => q.spec_index(),
            None => p,
        },
        m.to.0 as int,
    );
    let d = piece_key_delta(b, m);
    let fd = flag_key_delta(b, m);
    let z = b.game_state.zobrist_key.0;
    assert(z == k ^ s_old ^ e_old ^ c_old);
    assert(k2 == k ^ rf ^ rt ^ d);
    assert(s_new == s_old ^ side) by {
        lemma_xor_facts();
    }
    assert(fd == d ^ e_new) by {
        lemma_xor_facts();
    }
    assert(made_key(b, m) == z ^ side ^ rf ^ c_old ^ c_new ^ rt ^ e_old ^ fd);
    assert(z == k ^ s_old ^ e_old ^ c_old && k2 == k ^ rf ^ rt ^ d && s_new == s_old ^ side && fd == d ^ e_new
        ==> z ^ side ^ rf ^ c_old ^ c_new ^ rt ^ e_old ^ fd == k2 ^ s_new ^ e_new ^ c_new) by (bit_vector);
}

impl Board {
    /// Passes the turn: the other side moves, and no en passant capture is possible.
    pub fn make_null_move(&mut self) -> (old_state: GameState)
        ensures
            old_state == old(self).game_state,
            final(self).white_to_move == !old(self).white_to_move,
            final(self).bit_boards@ == old(self).bit_boards@,
            final(self).full_move_counter == old(self).full_move_counter,
            final(self).game_state.en_passant_square is None,
            final(self).game_state.castling_rights == old(self).game_state.castling_rights,
            final(self).game_state.half_move_clock == old(self).game_state.half_move_clock,
            final(self).game_state.captured == old(self).game_state.captured,
            final(self).game_state.zobrist_key.0 == (match old(self).game_state.en_passant_square {
                Some(square) => old(self).game_state.zobrist_key.0 ^ SIDE_TO_MOVE_RANDOM ^ en_passant_random(square),
                None => old(self).game_state.zobrist_key.0 ^ SIDE_TO_MOVE_RANDOM,
            }),
    {
        let old_state = self.game_state;
        self.game_state.zobrist_key.flip_side_to_move();
        if let Some(square) = self.game_state.en_passant_square {
            self.game_state.zobrist_key.xor_en_passant(&square);
        }
        self.game_state.en_passant_square = None;
        self.white_to_move = !self.white_to_move;
        old_state
    }

    /// Takes back a passed turn.
    pub fn unmake_null_move(&mut self, old_state: &GameState)
        ensures
            final(self).white_to_move == !old(self).white_to_move,
            final(self).bit_boards@ == old(self).bit_boards@,
            final(self).full_move_counter == old(self).full_move_counter,
            final(self).game_state == *old_state,
    {
        self.game_state = *old_state;
        self.white_to_move = !self.white_to_move;
    }
}

impl Board {
    /// Whether `move_data` can be made: both squares on the board, a friendly piece to move,
    /// castling rights in range, a castling rook's squares on the board, and for en passant an
    /// en passant square with the captured pawn's square on the board.
    pub fn can_make_move(&self, move_data: &Move) -> (r: bool)
        ensures
            r == make_move_allowed(*self, *move_data),
    {
        if !move_data.from.within_bounds() || !move_data.to.within_bounds() {
            return false;
        }
        if self.friendly_piece_at(move_data.from).is_none() {
            return false;
        }
        if !self.game_state.castling_rights.is_valid() {
            return false;
        }
        let to = move_data.to.index() as i16;
        match move_data.flag {
            Flag::Castle => {
                let (rook_from_index, rook_to_index): (i16, i16) = if move_data.to.file() == 6 {
                    (to + 1, to - 1)
                } else {
                    (to - 2, to + 1)
                };
                0 <= rook_from_index && rook_from_index < 64 && 0 <= rook_to_index && rook_to_index < 64
            },
            Flag::EnPassant => match self.game_state.en_passant_square {
                Some(square) => {
                    let captured: i16 = if self.white_to_move {
                        square.index() as i16 - 8
                    } else {
                        square.index() as i16 + 8
                    };
                    0 <= captured && captured < 64
                },
                None => false,
            },
            _ => true,
        }
    }
}

} // verus!
