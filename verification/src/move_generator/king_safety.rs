//! A king step that the generator gives leaves the king on a square that no enemy piece attacks.
use vstd::prelude::*;
use crate::board::Board;
use crate::board::bit_board::{BitBoard, bit, lemma_bit_laws};
use crate::board::piece::piece_of;
use crate::board::square::on_board;
use crate::board::{first_piece, pieces_disjoint};
use super::{MoveGenerator, king_danger, side_bits, side_has, side_union, checker, lemma_in_check_agrees};
use crate::board::game_state::{has_bit8, WHITE_KING_SIDE_OFFSET, WHITE_QUEEN_SIDE_OFFSET, BLACK_KING_SIDE_OFFSET, BLACK_QUEEN_SIDE_OFFSET};
use super::move_data::{Flag, Move};
use super::maker::{is_made, sq_bit, side_offset, moving_piece, moved_bit_boards, made_bit_boards, make_captured};
use crate::board::square::direction;
use super::playable::playable;
use super::precomputed::king_step;
use super::{Leaper, leaper_attack};
use super::slider_lookup::{slides_to, slider_attacks, edge_distance, lemma_edge_step, lemma_slide_beyond};

verus! {

/// Square `t` is attacked by a piece of the side `by_white` on board `b`, the pieces on the board
/// blocking the sliders.
pub open spec fn attacked_by(b: Board, by_white: bool, t: int) -> bool {
    king_danger(
        by_white,
        side_bits(b, by_white, 0),
        side_bits(b, by_white, 1),
        side_bits(b, by_white, 2) | side_bits(b, by_white, 4),
        side_bits(b, by_white, 3) | side_bits(b, by_white, 4),
        side_bits(b, by_white, 5),
        side_union(b, true) | side_union(b, false),
        t,
    )
}

/// A slide does not depend on whether its last square is a blocker.
proof fn lemma_slide_ignores_target(sq: int, d: int, n: int, b1: u64, b2: u64, t: int)
    requires
        on_board(sq),
        0 <= d < 8,
        n <= edge_distance(sq, d),
        forall|i: int| 0 <= i < 64 && i != t ==> #[trigger] bit(b1, i) == bit(b2, i),
    ensures
        slides_to(sq, d, n, b1, t) == slides_to(sq, d, n, b2, t),
    decreases n,
{
    if n > 0 {
        lemma_edge_step(sq, d);
        let next = sq + direction(d);
        if t != next {
            assert(bit(b1, next) == bit(b2, next));
            lemma_slide_ignores_target(next, d, n - 1, b1, b2, t);
        }
    }
}

/// A slider's attack on `t` does not depend on whether `t` is a blocker.
proof fn lemma_slider_ignores_target(sq: int, b1: u64, b2: u64, offset: int, t: int)
    requires
        on_board(sq),
        offset == 0 || offset == 4,
        forall|i: int| 0 <= i < 64 && i != t ==> #[trigger] bit(b1, i) == bit(b2, i),
    ensures
        slider_attacks(sq, b1, offset, t) == slider_attacks(sq, b2, offset, t),
{
    lemma_slide_ignores_target(sq, offset, edge_distance(sq, offset), b1, b2, t);
    lemma_slide_ignores_target(sq, offset + 1, edge_distance(sq, offset + 1), b1, b2, t);
    lemma_slide_ignores_target(sq, offset + 2, edge_distance(sq, offset + 2), b1, b2, t);
    lemma_slide_ignores_target(sq, offset + 3, edge_distance(sq, offset + 3), b1, b2, t);
}


/// The first piece numbered from `lo` on that stands on `sq` is the one numbered `q` when it
/// stands there and none numbered before it does.
proof fn lemma_first_piece_is(bbs: Seq<BitBoard>, sq: int, lo: int, hi: int, q: int)
    requires
        lo <= q < hi,
        bbs[q].has(sq),
        forall|k: int| lo <= k < q ==> !(#[trigger] bbs[k]).has(sq),
    ensures
        first_piece(bbs, sq, lo, hi) == Some(piece_of(q)),
    decreases q - lo,
{
    if lo < q {
        lemma_first_piece_is(bbs, sq, lo + 1, hi, q);
    }
}

/// No piece numbered `lo..hi` stands where `first_piece` finds none.
proof fn lemma_first_piece_none(bbs: Seq<BitBoard>, sq: int, lo: int, hi: int)
    requires
        first_piece(bbs, sq, lo, hi) is None,
    ensures
        forall|p: int| lo <= p < hi ==> !(#[trigger] bbs[p]).has(sq),
    decreases hi - lo,
{
    if lo < hi {
        lemma_first_piece_none(bbs, sq, lo + 1, hi);
    }
}

/// The piece that `first_piece` finds is numbered within the range searched.
proof fn lemma_first_piece_in_range(bbs: Seq<BitBoard>, sq: int, lo: int, hi: int)
    requires
        0 <= lo,
        hi <= 12,
        first_piece(bbs, sq, lo, hi) is Some,
    ensures
        ({
            let q = first_piece(bbs, sq, lo, hi)->Some_0.spec_index();
            lo <= q < hi && bbs[q].has(sq)
        }),
    decreases hi - lo,
{
    if !bbs[lo].has(sq) {
        lemma_first_piece_in_range(bbs, sq, lo + 1, hi);
    }
}

/// The bit boards after a king step from `from` to `to`: the king alone moves, and an enemy piece
/// on `to`, if any, leaves the board.
proof fn lemma_king_step_boards(b: Board, m: Move, a: Board)
    requires
        pieces_disjoint(b.bit_boards@),
        m.flag == Flag::Normal,
        on_board(m.from.0 as int),
        on_board(m.to.0 as int),
        m.from != m.to,
        side_bits(b, b.white_to_move, 5) == sq_bit(m.from),
        !side_has(b, b.white_to_move, m.to.0 as int),
        is_made(b, m, a),
    ensures
        side_bits(a, b.white_to_move, 5) == sq_bit(m.to),
        forall|e: int, s: int| 6 - side_offset(b.white_to_move) <= e < 12 - side_offset(b.white_to_move) && 0 <= s < 64 ==> #[trigger] bit(a.bit_boards@[e].0, s) == (bit(b.bit_boards@[e].0, s) && s != m.to.0),
        forall|i: int| 0 <= i < 64 && i != m.to.0 ==> #[trigger] side_has(a, b.white_to_move, i) == (side_has(b, b.white_to_move, i) && i != m.from.0),
        forall|white: bool, i: int| white != b.white_to_move && 0 <= i < 64 && i != m.to.0 ==> #[trigger] side_has(a, white, i) == side_has(b, white, i),
{
    let w = b.white_to_move;
    let bbs = b.bit_boards@;
    let from = m.from.0 as int;
    let to = m.to.0 as int;
    let off = side_offset(w);
    let p = 5 + off;
    lemma_bit_laws();
    assert(bbs[p].0 == sq_bit(m.from));
    assert(bbs[p].has(from));
    assert forall|k: int| off <= k < p implies !(#[trigger] bbs[k]).has(from) by {}
    lemma_first_piece_is(bbs, from, off, off + 6, p);
    assert(piece_of(p).spec_index() == p);
    assert(moving_piece(b, m) == p);
    let moved = moved_bit_boards(b, m);
    assert(moved == bbs.update(p, BitBoard(bbs[p].0 ^ (sq_bit(m.from) | sq_bit(m.to)))));
    let fu = m.from.0 as u64;
    let tu = m.to.0 as u64;
    assert(fu < 64 && tu < 64 && fu != tu ==> (1u64 << fu) ^ ((1u64 << fu) | (1u64 << tu)) == 1u64 << tu) by (bit_vector);
    assert(moved[p].0 == sq_bit(m.to));
    let elo = 6 - off;
    let made = made_bit_boards(b, m);
    assert(a.bit_boards@ == made);
    match make_captured(b, m) {
        Some(c) => {
            lemma_first_piece_in_range(moved, to, elo, elo + 6);
            let ci = c.spec_index();
            assert(made == moved.update(ci, BitBoard(moved[ci].0 & !sq_bit(m.to))));
            assert(ci != p);
            assert forall|e: int, s: int| elo <= e < elo + 6 && 0 <= s < 64 implies #[trigger] bit(a.bit_boards@[e].0, s) == (bit(bbs[e].0, s) && s != to) by {
                if e == ci {
                    assert(a.bit_boards@[e].0 == bbs[ci].0 & !sq_bit(m.to));
                    assert(bit(!sq_bit(m.to), s) == !bit(sq_bit(m.to), s));
                    assert(bit(sq_bit(m.to), s) == (s == to));
                    assert(bit(bbs[ci].0 & !sq_bit(m.to), s) == (bit(bbs[ci].0, s) && bit(!sq_bit(m.to), s)));
                } else if s == to {
                    assert(moved[ci].has(to));
                    assert(bbs[ci].has(to));
                    assert(!bbs[e].has(to));
                }
            }
        },
        None => {
            assert(made == moved);
            lemma_first_piece_none(moved, to, elo, elo + 6);
            assert forall|e: int, s: int| elo <= e < elo + 6 && 0 <= s < 64 implies #[trigger] bit(a.bit_boards@[e].0, s) == (bit(bbs[e].0, s) && s != to) by {
                if s == to {
                    assert(!moved[e].has(to));
                }
            }
        },
    }
    assert forall|i: int| 0 <= i < 64 && i != to implies #[trigger] side_has(a, w, i) == (side_has(b, w, i) && i != from) by {
        if i == from {
            assert forall|k: int| off <= k < off + 6 && k != p implies !(#[trigger] bbs[k]).has(from) by {}
        }
        assert(bit(sq_bit(m.to), i) == (i == to));
        assert(bit(sq_bit(m.from), i) == (i == from));
    }
    assert forall|white: bool, i: int| white != w && 0 <= i < 64 && i != to implies #[trigger] side_has(a, white, i) == side_has(b, white, i) by {}
}


/// No slider attacks its own square.
proof fn lemma_no_self_attack(sq: int, occupied: u64, offset: int)
    requires
        on_board(sq),
        offset == 0 || offset == 4,
    ensures
        !slider_attacks(sq, occupied, offset, sq),
{
    if slides_to(sq, offset, edge_distance(sq, offset), occupied, sq) {
        lemma_slide_beyond(sq, offset, edge_distance(sq, offset), occupied, sq);
    }
    if slides_to(sq, offset + 1, edge_distance(sq, offset + 1), occupied, sq) {
        lemma_slide_beyond(sq, offset + 1, edge_distance(sq, offset + 1), occupied, sq);
    }
    if slides_to(sq, offset + 2, edge_distance(sq, offset + 2), occupied, sq) {
        lemma_slide_beyond(sq, offset + 2, edge_distance(sq, offset + 2), occupied, sq);
    }
    if slides_to(sq, offset + 3, edge_distance(sq, offset + 3), occupied, sq) {
        lemma_slide_beyond(sq, offset + 3, edge_distance(sq, offset + 3), occupied, sq);
    }
}

/// `m` is a king step: from the king's square to a neighbouring square on the board that holds no
/// friendly piece, and that holds an enemy piece when only captures are asked for.
pub open spec fn king_step_candidate(g: MoveGenerator, captures_only: bool, m: Move) -> bool {
    let to = m.to.0 as int;
    &&& m.flag == Flag::Normal
    &&& m.from == g.friendly_king_square
    &&& on_board(to)
    &&& king_step(m.from.0 as int, to)
    &&& !g.friendly_piece_bit_board.has(to)
    &&& captures_only ==> g.enemy_piece_bit_board.has(to)
}

/// King steps are generated exactly when they are legal: the generator gives a king step if and
/// only if, once it is made, no enemy piece attacks the square the king (alone on its board) then
/// stands on.
pub proof fn lemma_king_step_legality(b: Board, g: MoveGenerator, captures_only: bool, m: Move, a: Board)
    requires
        playable(b),
        g.describes(b),
        g.wf(),
        side_bits(b, b.white_to_move, 5) == sq_bit(g.friendly_king_square),
        king_step_candidate(g, captures_only, m),
        is_made(b, m, a),
    ensures
        side_bits(a, b.white_to_move, 5) == sq_bit(m.to),
        g.king_move(captures_only, m) == !attacked_by(a, !b.white_to_move, m.to.0 as int),
{
    let w = b.white_to_move;
    let bbs = b.bit_boards@;
    let to = m.to.0 as int;
    let from = m.from.0 as int;
    let off = side_offset(w);
    lemma_bit_laws();
    assert(bit(sq_bit(m.from), from));
    lemma_king_step_boards(b, m, a);
    let kb = side_bits(b, w, 5);
    let occ_b = g.occupied_squares.0 ^ kb;
    let occ_a = side_union(a, true) | side_union(a, false);
    assert forall|i: int| 0 <= i < 64 && i != to implies #[trigger] bit(occ_a, i) == bit(occ_b, i) by {
        assert(g.occupied_squares.has(i) == (side_has(b, true, i) || side_has(b, false, i)));
        assert(bit(kb, i) == (i == from));
        assert(side_has(a, w, i) == (side_has(b, w, i) && i != from));
        assert(side_has(a, !w, i) == side_has(b, !w, i));
        if i == from {
            assert(bbs[5 + off].has(from));
            assert forall|e: int| 6 - off <= e < 12 - off implies !(#[trigger] bbs[e]).has(from) by {}
            assert(!side_has(b, !w, from));
        }
    }
    let ew = !w;
    let before = king_danger(
        ew,
        side_bits(b, ew, 0),
        side_bits(b, ew, 1),
        side_bits(b, ew, 2) | side_bits(b, ew, 4),
        side_bits(b, ew, 3) | side_bits(b, ew, 4),
        side_bits(b, ew, 5),
        occ_b,
        to,
    );
    assert(g.king_danger_bit_board.has(to) == before);
    assert(g.king_move(captures_only, m) == !before);
    if attacked_by(a, ew, to) {
        lemma_attack_after_was_danger(b, a, m, occ_a, occ_b);
    }
    if before {
        lemma_danger_stays_attack(b, a, m, occ_a, occ_b);
    }
}

/// An attack on `to` after the step was a danger to `to` before it, the king taken off the board.
proof fn lemma_attack_after_was_danger(b: Board, a: Board, m: Move, occ_a: u64, occ_b: u64)
    requires
        forall|e: int, s: int| 6 - side_offset(b.white_to_move) <= e < 12 - side_offset(b.white_to_move) && 0 <= s < 64 ==> #[trigger] bit(a.bit_boards@[e].0, s) == (bit(b.bit_boards@[e].0, s) && s != m.to.0),
        forall|i: int| 0 <= i < 64 && i != m.to.0 ==> #[trigger] bit(occ_a, i) == bit(occ_b, i),
        occ_a == side_union(a, true) | side_union(a, false),
        on_board(m.to.0 as int),
        attacked_by(a, !b.white_to_move, m.to.0 as int),
    ensures
        king_danger(
            !b.white_to_move,
            side_bits(b, !b.white_to_move, 0),
            side_bits(b, !b.white_to_move, 1),
            side_bits(b, !b.white_to_move, 2) | side_bits(b, !b.white_to_move, 4),
            side_bits(b, !b.white_to_move, 3) | side_bits(b, !b.white_to_move, 4),
            side_bits(b, !b.white_to_move, 5),
            occ_b,
            m.to.0 as int,
        ),
{
    let ew = !b.white_to_move;
    let to = m.to.0 as int;
    lemma_bit_laws();
    if exists|s: int| on_board(s) && #[trigger] bit(side_bits(a, ew, 0), s) && leaper_attack(Leaper::Pawn, ew, s, to) {
        let s = choose|s: int| on_board(s) && #[trigger] bit(side_bits(a, ew, 0), s) && leaper_attack(Leaper::Pawn, ew, s, to);
        assert(bit(side_bits(b, ew, 0), s));
    } else if exists|s: int| on_board(s) && #[trigger] bit(side_bits(a, ew, 1), s) && leaper_attack(Leaper::Knight, ew, s, to) {
        let s = choose|s: int| on_board(s) && #[trigger] bit(side_bits(a, ew, 1), s) && leaper_attack(Leaper::Knight, ew, s, to);
        assert(bit(side_bits(b, ew, 1), s));
    } else if exists|s: int| on_board(s) && #[trigger] bit(side_bits(a, ew, 2) | side_bits(a, ew, 4), s) && slider_attacks(s, occ_a, 4, to) {
        let s = choose|s: int| on_board(s) && #[trigger] bit(side_bits(a, ew, 2) | side_bits(a, ew, 4), s) && slider_attacks(s, occ_a, 4, to);
        lemma_slider_ignores_target(s, occ_a, occ_b, 4, to);
        assert(bit(side_bits(a, ew, 2), s) || bit(side_bits(a, ew, 4), s));
        if bit(side_bits(a, ew, 2), s) {
            assert(bit(side_bits(b, ew, 2), s));
        } else {
            assert(bit(side_bits(b, ew, 4), s));
        }
        assert(bit(side_bits(b, ew, 2) | side_bits(b, ew, 4), s));
    } else if exists|s: int| on_board(s) && #[trigger] bit(side_bits(a, ew, 3) | side_bits(a, ew, 4), s) && slider_attacks(s, occ_a, 0, to) {
        let s = choose|s: int| on_board(s) && #[trigger] bit(side_bits(a, ew, 3) | side_bits(a, ew, 4), s) && slider_attacks(s, occ_a, 0, to);
        lemma_slider_ignores_target(s, occ_a, occ_b, 0, to);
        assert(bit(side_bits(a, ew, 3), s) || bit(side_bits(a, ew, 4), s));
        if bit(side_bits(a, ew, 3), s) {
            assert(bit(side_bits(b, ew, 3), s));
        } else {
            assert(bit(side_bits(b, ew, 4), s));
        }
        assert(bit(side_bits(b, ew, 3) | side_bits(b, ew, 4), s));
    } else {
        let s = choose|s: int| on_board(s) && #[trigger] bit(side_bits(a, ew, 5), s) && leaper_attack(Leaper::King, ew, s, to);
        assert(bit(side_bits(b, ew, 5), s));
    }
}

/// A danger to `to` before the step, the king taken off the board, is an attack on `to` after it.
proof fn lemma_danger_stays_attack(b: Board, a: Board, m: Move, occ_a: u64, occ_b: u64)
    requires
        forall|e: int, s: int| 6 - side_offset(b.white_to_move) <= e < 12 - side_offset(b.white_to_move) && 0 <= s < 64 ==> #[trigger] bit(a.bit_boards@[e].0, s) == (bit(b.bit_boards@[e].0, s) && s != m.to.0),
        forall|i: int| 0 <= i < 64 && i != m.to.0 ==> #[trigger] bit(occ_a, i) == bit(occ_b, i),
        occ_a == side_union(a, true) | side_union(a, false),
        on_board(m.to.0 as int),
        king_danger(
            !b.white_to_move,
            side_bits(b, !b.white_to_move, 0),
            side_bits(b, !b.white_to_move, 1),
            side_bits(b, !b.white_to_move, 2) | side_bits(b, !b.white_to_move, 4),
            side_bits(b, !b.white_to_move, 3) | side_bits(b, !b.white_to_move, 4),
            side_bits(b, !b.white_to_move, 5),
            occ_b,
            m.to.0 as int,
        ),
    ensures
        attacked_by(a, !b.white_to_move, m.to.0 as int),
{
    let ew = !b.white_to_move;
    let to = m.to.0 as int;
    lemma_bit_laws();
    if exists|s: int| on_board(s) && #[trigger] bit(side_bits(b, ew, 0), s) && leaper_attack(Leaper::Pawn, ew, s, to) {
        let s = choose|s: int| on_board(s) && #[trigger] bit(side_bits(b, ew, 0), s) && leaper_attack(Leaper::Pawn, ew, s, to);
        assert(bit(side_bits(a, ew, 0), s));
    } else if exists|s: int| on_board(s) && #[trigger] bit(side_bits(b, ew, 1), s) && leaper_attack(Leaper::Knight, ew, s, to) {
        let s = choose|s: int| on_board(s) && #[trigger] bit(side_bits(b, ew, 1), s) && leaper_attack(Leaper::Knight, ew, s, to);
        assert(bit(side_bits(a, ew, 1), s));
    } else if exists|s: int| on_board(s) && #[trigger] bit(side_bits(b, ew, 2) | side_bits(b, ew, 4), s) && slider_attacks(s, occ_b, 4, to) {
        let s = choose|s: int| on_board(s) && #[trigger] bit(side_bits(b, ew, 2) | side_bits(b, ew, 4), s) && slider_attacks(s, occ_b, 4, to);
        lemma_slider_ignores_target(s, occ_a, occ_b, 4, to);
        lemma_no_self_attack(to, occ_b, 4);
        assert(s != to);
        assert(bit(side_bits(b, ew, 2), s) || bit(side_bits(b, ew, 4), s));
        if bit(side_bits(b, ew, 2), s) {
            assert(bit(side_bits(a, ew, 2), s));
        } else {
            assert(bit(side_bits(a, ew, 4), s));
        }
        assert(bit(side_bits(a, ew, 2) | side_bits(a, ew, 4), s));
    } else if exists|s: int| on_board(s) && #[trigger] bit(side_bits(b, ew, 3) | side_bits(b, ew, 4), s) && slider_attacks(s, occ_b, 0, to) {
        let s = choose|s: int| on_board(s) && #[trigger] bit(side_bits(b, ew, 3) | side_bits(b, ew, 4), s) && slider_attacks(s, occ_b, 0, to);
        lemma_slider_ignores_target(s, occ_a, occ_b, 0, to);
        lemma_no_self_attack(to, occ_b, 0);
        assert(s != to);
        assert(bit(side_bits(b, ew, 3), s) || bit(side_bits(b, ew, 4), s));
        if bit(side_bits(b, ew, 3), s) {
            assert(bit(side_bits(a, ew, 3), s));
        } else {
            assert(bit(side_bits(a, ew, 4), s));
        }
        assert(bit(side_bits(a, ew, 3) | side_bits(a, ew, 4), s));
    } else {
        let s = choose|s: int| on_board(s) && #[trigger] bit(side_bits(b, ew, 5), s) && leaper_attack(Leaper::King, ew, s, to);
        assert(bit(side_bits(a, ew, 5), s));
    }
}


/// More blockers never lengthen a slide.
proof fn lemma_slide_fewer_blockers(sq: int, d: int, n: int, more: u64, fewer: u64, t: int)
    requires
        on_board(sq),
        0 <= d < 8,
        n <= edge_distance(sq, d),
        forall|i: int| 0 <= i < 64 && #[trigger] bit(fewer, i) ==> bit(more, i),
        slides_to(sq, d, n, more, t),
    ensures
        slides_to(sq, d, n, fewer, t),
    decreases n,
{
    lemma_edge_step(sq, d);
    let next = sq + direction(d);
    if t != next {
        lemma_slide_fewer_blockers(next, d, n - 1, more, fewer, t);
    }
}

/// A slider that attacks a square with some blockers still attacks it with fewer.
proof fn lemma_slider_fewer_blockers(sq: int, more: u64, fewer: u64, offset: int, t: int)
    requires
        on_board(sq),
        offset == 0 || offset == 4,
        forall|i: int| 0 <= i < 64 && #[trigger] bit(fewer, i) ==> bit(more, i),
        slider_attacks(sq, more, offset, t),
    ensures
        slider_attacks(sq, fewer, offset, t),
{
    if slides_to(sq, offset, edge_distance(sq, offset), more, t) {
        lemma_slide_fewer_blockers(sq, offset, edge_distance(sq, offset), more, fewer, t);
    } else if slides_to(sq, offset + 1, edge_distance(sq, offset + 1), more, t) {
        lemma_slide_fewer_blockers(sq, offset + 1, edge_distance(sq, offset + 1), more, fewer, t);
    } else if slides_to(sq, offset + 2, edge_distance(sq, offset + 2), more, t) {
        lemma_slide_fewer_blockers(sq, offset + 2, edge_distance(sq, offset + 2), more, fewer, t);
    } else {
        lemma_slide_fewer_blockers(sq, offset + 3, edge_distance(sq, offset + 3), more, fewer, t);
    }
}

/// A square that an enemy piece attacks on the board is a danger to the king, whose own square
/// no longer blocks.
proof fn lemma_attack_is_danger(b: Board, g: MoveGenerator, s: int)
    requires
        g.describes(b),
        attacked_by(b, !b.white_to_move, s),
    ensures
        g.king_danger_bit_board.has(s),
{
    let w = b.white_to_move;
    let ew = !w;
    let occ = side_union(b, true) | side_union(b, false);
    let fewer = g.occupied_squares.0 ^ side_bits(b, w, 5);
    lemma_bit_laws();
    assert forall|i: int| 0 <= i < 64 && #[trigger] bit(fewer, i) implies bit(occ, i) by {
        assert(g.occupied_squares.has(i) == (side_has(b, true, i) || side_has(b, false, i)));
        assert(bit(fewer, i) == (bit(g.occupied_squares.0, i) != bit(side_bits(b, w, 5), i)));
        if bit(side_bits(b, w, 5), i) {
            assert(side_has(b, w, i));
        }
    }
    if exists|t: int| on_board(t) && #[trigger] bit(side_bits(b, ew, 2) | side_bits(b, ew, 4), t) && slider_attacks(t, occ, 4, s) {
        let t = choose|t: int| on_board(t) && #[trigger] bit(side_bits(b, ew, 2) | side_bits(b, ew, 4), t) && slider_attacks(t, occ, 4, s);
        lemma_slider_fewer_blockers(t, occ, fewer, 4, s);
    } else if exists|t: int| on_board(t) && #[trigger] bit(side_bits(b, ew, 3) | side_bits(b, ew, 4), t) && slider_attacks(t, occ, 0, s) {
        let t = choose|t: int| on_board(t) && #[trigger] bit(side_bits(b, ew, 3) | side_bits(b, ew, 4), t) && slider_attacks(t, occ, 0, s);
        lemma_slider_fewer_blockers(t, occ, fewer, 0, s);
    }
}

/// Castling is generated only when it is allowed: the king stands on its home square and is not
/// in check, the side still holds the right of that wing, the squares between king and rook are
/// empty, and no enemy piece attacks the squares the king crosses and lands on.
pub proof fn lemma_castle_is_allowed(b: Board, g: MoveGenerator, m: Move)
    requires
        playable(b),
        g.describes(b),
        g.castle_move(m),
    ensures
        ({
            let w = b.white_to_move;
            let base: int = if w { 0 } else { 56 };
            let rights = b.game_state.castling_rights.0;
            let empty = |s: int| !side_has(b, true, s) && !side_has(b, false, s);
            &&& m.flag == Flag::Castle
            &&& m.from.0 == base + 4
            &&& !exists|t: int| #[trigger] checker(b, t)
            &&& m.to.0 == base + 6 || m.to.0 == base + 2
            &&& m.to.0 == base + 6 ==> has_bit8(rights, if w { WHITE_KING_SIDE_OFFSET } else { BLACK_KING_SIDE_OFFSET })
                && empty(base + 5) && empty(base + 6) && !attacked_by(b, !w, base + 5) && !attacked_by(b, !w, base + 6)
            &&& m.to.0 == base + 2 ==> has_bit8(rights, if w { WHITE_QUEEN_SIDE_OFFSET } else { BLACK_QUEEN_SIDE_OFFSET })
                && empty(base + 1) && empty(base + 2) && empty(base + 3) && !attacked_by(b, !w, base + 3) && !attacked_by(
                b,
                !w,
                base + 2,
            )
        }),
{
    let w = b.white_to_move;
    let base: int = if w { 0 } else { 56 };
    lemma_in_check_agrees(b, g);
    if attacked_by(b, !w, base + 5) {
        lemma_attack_is_danger(b, g, base + 5);
    }
    if attacked_by(b, !w, base + 6) {
        lemma_attack_is_danger(b, g, base + 6);
    }
    if attacked_by(b, !w, base + 3) {
        lemma_attack_is_danger(b, g, base + 3);
    }
    if attacked_by(b, !w, base + 2) {
        lemma_attack_is_danger(b, g, base + 2);
    }
    assert(g.occupied_squares.has(base + 1) == (side_has(b, true, base + 1) || side_has(b, false, base + 1)));
    assert(g.occupied_squares.has(base + 2) == (side_has(b, true, base + 2) || side_has(b, false, base + 2)));
    assert(g.occupied_squares.has(base + 3) == (side_has(b, true, base + 3) || side_has(b, false, base + 3)));
    assert(g.occupied_squares.has(base + 5) == (side_has(b, true, base + 5) || side_has(b, false, base + 5)));
    assert(g.occupied_squares.has(base + 6) == (side_has(b, true, base + 6) || side_has(b, false, base + 6)));
}

} // verus!
