//! Pawn moves: captures, en passant, pushes and double pushes, with promotions.
use vstd::prelude::*;
use crate::board::bit_board::{BitBoard, bit, lemma_bit_laws, lemma_shift_laws, lemma_mask_bits, NOT_A_FILE, NOT_H_FILE, RANK_1, RANK_2, RANK_7, RANK_8};
use crate::board::square::{Square, on_board};
use super::{MoveGenerator, rook_attacks, lemma_nonzero_has, appends_distinct, lemma_appends_none, lemma_appends_push, lemma_appends_join};
use super::move_data::{Flag, Move};
use super::precomputed::{pawn_capture_step, file_of, rank_of};
use super::slider_lookup::slider_attacks;

pub use super::precomputed::attack_bit_board;

verus! {

/// One rank forward for the side: up for white, down for black.
pub open spec fn forward(white: bool) -> int {
    if white {
        8
    } else {
        -8
    }
}

/// `n` index steps forward for the side.
pub open spec fn steps_forward(n: int, white: bool) -> int {
    if white {
        n
    } else {
        -n
    }
}

/// The last rank for the side's pawns, where they promote.
pub open spec fn on_promotion_rank(white: bool, t: int) -> bool {
    if white {
        56 <= t < 64
    } else {
        0 <= t < 8
    }
}

/// The flag of a pawn move to `t`: one of the four promotions on the last rank, else normal.
pub open spec fn pawn_flag_ok(white: bool, t: int, flag: Flag) -> bool {
    if on_promotion_rank(white, t) {
        flag.is_promotion()
    } else {
        flag == Flag::Normal
    }
}

impl MoveGenerator {
    /// `t` captures the piece giving check or blocks its ray; any square when not in check.
    pub open spec fn evasion_target(self, t: int) -> bool {
        self.check_mask.has(t) || self.push_mask.has(t)
    }

    /// `m` is a pawn capture: of an enemy piece giving check (any when not in check), by a pawn no
    /// orthogonal ray pins, staying on its diagonal pin ray if it has one.
    pub open spec fn pawn_capture(self, m: Move) -> bool {
        let from = m.from.0 as int;
        let to = m.to.0 as int;
        &&& self.friendly_pawns.has(from)
        &&& !self.orthogonal_pin_rays.has(from)
        &&& on_board(to)
        &&& pawn_capture_step(from, to, self.white_to_move)
        &&& self.enemy_piece_bit_board.has(to)
        &&& self.evasion_target(to)
        &&& self.diagonal_pin_rays.has(from) ==> self.diagonal_pin_rays.has(to)
        &&& pawn_flag_ok(self.white_to_move, to, m.flag)
    }

    /// `m` captures en passant: the pawn that just moved two squares gives check or there is no
    /// check, the capturing pawn keeps to its pins, and removing both pawns from the king's rank
    /// opens no enemy rook or queen onto the king.
    pub open spec fn en_passant(self, m: Move) -> bool {
        let from = m.from.0 as int;
        let to = m.to.0 as int;
        let captured = to - forward(self.white_to_move);
        let king = self.friendly_king_square.0 as int;
        let opened = self.occupied_squares.0 ^ (1u64 << (from as u64)) ^ (1u64 << (captured as u64));
        &&& self.en_passant_square == Some(m.to)
        &&& m.flag == Flag::EnPassant
        &&& self.evasion_target(captured)
        &&& self.friendly_pawns.has(from)
        &&& !self.orthogonal_pin_rays.has(from)
        &&& pawn_capture_step(to, from, !self.white_to_move)
        &&& self.diagonal_pin_rays.has(from) ==> self.diagonal_pin_rays.has(to)
        &&& rank_of(king) == rank_of(from) ==> !exists|s: int| on_board(s) && #[trigger] bit(self.enemy_orthogonal.0, s)
            && slider_attacks(king, opened, 0, s)
    }

    /// `m` pushes a pawn one square forward onto an empty square.
    pub open spec fn pawn_push(self, m: Move) -> bool {
        let from = m.from.0 as int;
        let to = m.to.0 as int;
        &&& self.friendly_pawns.has(from)
        &&& !self.diagonal_pin_rays.has(from)
        &&& to == from + forward(self.white_to_move)
        &&& self.empty_squares.has(to)
        &&& self.evasion_target(to)
        &&& !self.orthogonal_pin_rays.has(from) || self.orthogonal_pin_rays.has(to)
        &&& pawn_flag_ok(self.white_to_move, to, m.flag)
    }

    /// `m` pushes a pawn from its starting rank two squares forward over an empty square.
    pub open spec fn pawn_double_push(self, m: Move) -> bool {
        let from = m.from.0 as int;
        let to = m.to.0 as int;
        let w = self.white_to_move;
        &&& m.flag == Flag::PawnTwoUp
        &&& self.friendly_pawns.has(from)
        &&& !self.diagonal_pin_rays.has(from)
        &&& (if w {
            8 <= from < 16
        } else {
            48 <= from < 56
        })
        &&& to == from + 2 * forward(w)
        &&& self.empty_squares.has(from + forward(w))
        &&& self.empty_squares.has(to)
        &&& self.evasion_target(to)
        &&& !self.orthogonal_pin_rays.has(from) || self.orthogonal_pin_rays.has(to)
    }

    /// `m` is a pawn move; pushes only when not just captures are wanted.
    pub open spec fn pawn_move(self, captures_only: bool, m: Move) -> bool {
        ||| self.pawn_capture(m)
        ||| self.en_passant(m)
        ||| !captures_only && (self.pawn_push(m) || self.pawn_double_push(m))
    }
}

/// Moves every square of `x` `n` index steps forward for the side.
fn shift_forward(x: BitBoard, n: u8, white: bool) -> (r: BitBoard)
    requires
        n < 64,
    ensures
        forall|t: int| #[trigger] r.has(t) == (on_board(t) && x.has(t - steps_forward(n as int, white))),
{
    let r = if white {
        x.shl(n)
    } else {
        x.shr(n)
    };
    proof {
        lemma_shift_laws();
        assert forall|t: int| #[trigger] r.has(t) == (on_board(t) && x.has(t - steps_forward(n as int, white))) by {
            if on_board(t) {
                let tu = t as u64;
                let nu = n as u64;
                if white {
                    assert(((x.0 << nu) >> tu) & 1 == 1 <==> (tu >= nu && ((x.0 >> ((tu - nu) as u64)) & 1 == 1)));
                } else {
                    assert(((x.0 >> nu) >> tu) & 1 == 1 <==> (tu + nu < 64 && ((x.0 >> ((tu + nu) as u64)) & 1 == 1)));
                }
            }
        }
    }
    r
}

/// Adds, for every square `s` of `squares`, the moves from `s + from_offset` to `s + to_offset`:
/// the four promotions when `promote`, else one with `flag`. When `keep_pins`, a move from a square
/// of `pins` to a square off `pins` is left out.
fn add_pawn_moves(
    moves: &mut Vec<Move>,
    squares: BitBoard,
    from_offset: i8,
    to_offset: i8,
    promote: bool,
    flag: Flag,
    pins: BitBoard,
    keep_pins: bool,
)
    requires
        -16 <= from_offset <= 16,
        -16 <= to_offset <= 16,
        forall|s: int| #[trigger] squares.has(s) ==> on_board(s + from_offset) && on_board(s + to_offset),
    ensures
        forall|m: Move| #[trigger] final(moves)@.contains(m) == (old(moves)@.contains(m) || ({
            let s = m.from.0 - from_offset;
            &&& squares.has(s)
            &&& m.to.0 == s + to_offset
            &&& if promote {
                m.flag.is_promotion()
            } else {
                m.flag == flag
            }
            &&& keep_pins ==> (pins.has(m.from.0 as int) ==> pins.has(m.to.0 as int))
        })),
        appends_distinct(old(moves)@, final(moves)@),
        forall|i: int| old(moves)@.len() <= i < final(moves)@.len() ==> {
            let m = #[trigger] final(moves)@[i];
            &&& squares.has(m.from.0 - from_offset)
            &&& m.to.0 - m.from.0 == to_offset - from_offset
            &&& if promote {
                m.flag.is_promotion()
            } else {
                m.flag == flag
            }
        },
{
    let mut remaining = squares;
    let ghost start = moves@;
    proof {
        lemma_appends_none(start);
    }
    while remaining.is_not_empty()
        invariant
            appends_distinct(start, moves@),
            forall|i: int| start.len() <= i < moves@.len() ==> {
                let m = #[trigger] moves@[i];
                &&& squares.has(m.from.0 - from_offset)
                &&& !remaining.has(m.from.0 - from_offset)
                &&& m.to.0 - m.from.0 == to_offset - from_offset
                &&& if promote {
                    m.flag.is_promotion()
                } else {
                    m.flag == flag
                }
            },
            -16 <= from_offset <= 16,
            -16 <= to_offset <= 16,
            forall|s: int| #[trigger] squares.has(s) ==> on_board(s + from_offset) && on_board(s + to_offset),
            forall|i: int| #[trigger] remaining.has(i) ==> squares.has(i),
            forall|m: Move| #[trigger] moves@.contains(m) == (start.contains(m) || ({
                let s = m.from.0 - from_offset;
                &&& squares.has(s)
                &&& !remaining.has(s)
                &&& m.to.0 == s + to_offset
                &&& if promote {
                    m.flag.is_promotion()
                } else {
                    m.flag == flag
                }
                &&& keep_pins ==> (pins.has(m.from.0 as int) ==> pins.has(m.to.0 as int))
            })),
        decreases remaining.0,
    {
        let ghost before = remaining;
        let ghost moves0 = moves@;
        let square = remaining.pop_square();
        let from = square.offset(from_offset);
        let to = square.offset(to_offset);
        let skip = keep_pins && pins.get(&from) && !pins.get(&to);
        proof {
            assert(before.has(square.0 as int));
            assert forall|i: int| start.len() <= i < moves0.len() implies (#[trigger] moves0[i]).from != from by {
                assert(!before.has(moves0[i].from.0 - from_offset));
            }
        }
        if !skip {
            if promote {
                let ghost m1 = moves@;
                moves.push(Move { from, to, flag: Flag::QueenPromotion });
                proof {
                    lemma_appends_push(start, m1, Move { from, to, flag: Flag::QueenPromotion });
                }
                let ghost m2 = moves@;
                moves.push(Move { from, to, flag: Flag::RookPromotion });
                proof {
                    assert forall|i: int| start.len() <= i < m2.len() implies #[trigger] m2[i] != (Move { from, to, flag: Flag::RookPromotion }) by {
                        if i < m1.len() {
                            assert(m2[i] == m1[i]);
                        }
                    }
                    lemma_appends_push(start, m2, Move { from, to, flag: Flag::RookPromotion });
                }
                let ghost m3 = moves@;
                moves.push(Move { from, to, flag: Flag::BishopPromotion });
                proof {
                    assert forall|i: int| start.len() <= i < m3.len() implies #[trigger] m3[i] != (Move { from, to, flag: Flag::BishopPromotion }) by {
                        if i < m1.len() {
                            assert(m3[i] == m1[i]);
                        } else if i < m2.len() {
                            assert(m3[i] == m2[i]);
                        }
                    }
                    lemma_appends_push(start, m3, Move { from, to, flag: Flag::BishopPromotion });
                }
                let ghost m4 = moves@;
                moves.push(Move { from, to, flag: Flag::KnightPromotion });
                proof {
                    assert forall|i: int| start.len() <= i < m4.len() implies #[trigger] m4[i] != (Move { from, to, flag: Flag::KnightPromotion }) by {
                        if i < m1.len() {
                            assert(m4[i] == m1[i]);
                        } else if i < m2.len() {
                            assert(m4[i] == m2[i]);
                        } else if i < m3.len() {
                            assert(m4[i] == m3[i]);
                        }
                    }
                    lemma_appends_push(start, m4, Move { from, to, flag: Flag::KnightPromotion });
                }
            } else {
                proof {
                    lemma_appends_push(start, moves0, Move { from, to, flag });
                }
                moves.push(Move { from, to, flag });
            }
        }
        proof {
            assert forall|i: int| start.len() <= i < moves@.len() implies {
                let m = #[trigger] moves@[i];
                &&& squares.has(m.from.0 - from_offset)
                &&& !remaining.has(m.from.0 - from_offset)
                &&& m.to.0 - m.from.0 == to_offset - from_offset
                &&& if promote {
                    m.flag.is_promotion()
                } else {
                    m.flag == flag
                }
            } by {
                if i < moves0.len() {
                    assert(moves@[i] == moves0[i]);
                }
            }
            assert forall|m: Move| #[trigger] moves@.contains(m) == (start.contains(m) || ({
                let s = m.from.0 - from_offset;
                &&& squares.has(s)
                &&& !remaining.has(s)
                &&& m.to.0 == s + to_offset
                &&& if promote {
                    m.flag.is_promotion()
                } else {
                    m.flag == flag
                }
                &&& keep_pins ==> (pins.has(m.from.0 as int) ==> pins.has(m.to.0 as int))
            })) by {
                let added = !skip && m.from == from && m.to == to && (if promote {
                    m.flag.is_promotion()
                } else {
                    m.flag == flag
                });
                assert(moves@.contains(m) == (moves0.contains(m) || added)) by {
                    if moves@.contains(m) {
                        let i = choose|i: int| 0 <= i < moves@.len() && moves@[i] == m;
                        if i < moves0.len() {
                            assert(moves0[i] == m);
                        }
                    }
                    if moves0.contains(m) {
                        let i = choose|i: int| 0 <= i < moves0.len() && moves0[i] == m;
                        assert(moves@[i] == m);
                    }
                    if added {
                        let n = moves0.len() as int;
                        if promote {
                            if m.flag == Flag::QueenPromotion {
                                assert(moves@[n] == m);
                            } else if m.flag == Flag::RookPromotion {
                                assert(moves@[n + 1] == m);
                            } else if m.flag == Flag::BishopPromotion {
                                assert(moves@[n + 2] == m);
                            } else {
                                assert(moves@[n + 3] == m);
                            }
                        } else {
                            assert(moves@[n] == m);
                        }
                    }
                }
            }
        }
    }
    proof {
        lemma_bit_laws();
        assert forall|i: int| !#[trigger] remaining.has(i) by {
            if on_board(i) {
                assert((0u64 >> (i as u64)) & 1 == 0);
            }
        }
    }
}

/// A pawn capture goes nine or seven index steps forward, not across the board's edge.
proof fn lemma_capture_geometry(from: int, to: int, white: bool)
    requires
        on_board(from),
        on_board(to),
    ensures
        pawn_capture_step(from, to, white) == ((to == from + steps_forward(9, white) && file_of(from) != (if white {
            7int
        } else {
            0int
        })) || (to == from + steps_forward(7, white) && file_of(from) != (if white {
            0int
        } else {
            7int
        }))),
{
    assert(file_of(from) == from % 8 && rank_of(from) == from / 8);
    assert(file_of(to) == to % 8 && rank_of(to) == to / 8);
}

/// Four runs of distinct pawn captures, told apart by direction and by promotion, make one run.
proof fn lemma_pawn_captures_distinct(
    s0: Seq<Move>,
    s1: Seq<Move>,
    s2: Seq<Move>,
    s3: Seq<Move>,
    s4: Seq<Move>,
    right: int,
    left: int,
)
    requires
        right != left,
        appends_distinct(s0, s1),
        appends_distinct(s1, s2),
        appends_distinct(s2, s3),
        appends_distinct(s3, s4),
        forall|i: int| s0.len() <= i < s1.len() ==> (#[trigger] s1[i]).to.0 - s1[i].from.0 == -right && s1[i].flag.is_promotion(),
        forall|i: int| s1.len() <= i < s2.len() ==> (#[trigger] s2[i]).to.0 - s2[i].from.0 == -right && s2[i].flag == Flag::Normal,
        forall|i: int| s2.len() <= i < s3.len() ==> (#[trigger] s3[i]).to.0 - s3[i].from.0 == -left && s3[i].flag.is_promotion(),
        forall|i: int| s3.len() <= i < s4.len() ==> (#[trigger] s4[i]).to.0 - s4[i].from.0 == -left && s4[i].flag == Flag::Normal,
    ensures
        appends_distinct(s0, s4),
        forall|i: int| s0.len() <= i < s1.len() ==> s4[i] == s1[i],
        forall|i: int| s1.len() <= i < s2.len() ==> s4[i] == s2[i],
        forall|i: int| s2.len() <= i < s3.len() ==> s4[i] == s3[i],
{
    assert forall|i: int, j: int| s0.len() <= i < s1.len() <= j < s2.len() implies #[trigger] s1[i] != #[trigger] s2[j] by {}
    lemma_appends_join(s0, s1, s2);
    assert forall|i: int| s0.len() <= i < s2.len() implies (#[trigger] s2[i]).to.0 - s2[i].from.0 == -right by {
        if i < s1.len() {
            assert(s2.subrange(0, s1.len() as int)[i] == s2[i]);
        }
    }
    assert forall|i: int, j: int| s0.len() <= i < s2.len() <= j < s3.len() implies #[trigger] s2[i] != #[trigger] s3[j] by {}
    lemma_appends_join(s0, s2, s3);
    assert forall|i: int| s0.len() <= i < s3.len() implies (#[trigger] s3[i]).to.0 - s3[i].from.0 == -right
        || s3[i].flag.is_promotion() by {
        if i < s2.len() {
            assert(s3.subrange(0, s2.len() as int)[i] == s3[i]);
        }
    }
    assert forall|i: int, j: int| s0.len() <= i < s3.len() <= j < s4.len() implies #[trigger] s3[i] != #[trigger] s4[j] by {}
    lemma_appends_join(s0, s3, s4);
    assert forall|i: int| 0 <= i < s3.len() implies #[trigger] s4[i] == s3[i] by {
        assert(s4.subrange(0, s3.len() as int)[i] == s4[i]);
    }
    assert forall|i: int| 0 <= i < s2.len() implies #[trigger] s3[i] == s2[i] by {
        assert(s3.subrange(0, s2.len() as int)[i] == s3[i]);
    }
    assert forall|i: int| 0 <= i < s1.len() implies #[trigger] s2[i] == s1[i] by {
        assert(s2.subrange(0, s1.len() as int)[i] == s2[i]);
    }
}

/// Adds the pawn captures, promotions among them.
fn gen_pawn_captures(move_generator: &MoveGenerator, moves: &mut Vec<Move>)
    ensures
        forall|m: Move| #[trigger] final(moves)@.contains(m) == (old(moves)@.contains(m) || move_generator.pawn_capture(m)),
        appends_distinct(old(moves)@, final(moves)@),
        forall|i: int| old(moves)@.len() <= i < final(moves)@.len() ==> {
            let m = #[trigger] final(moves)@[i];
            &&& move_generator.friendly_pawns.has(m.from.0 as int)
            &&& m.flag == Flag::Normal || m.flag.is_promotion()
            &&& m.to.0 - m.from.0 == steps_forward(9, move_generator.white_to_move) || m.to.0 - m.from.0 == steps_forward(
                7,
                move_generator.white_to_move,
            )
        },
{
    let evasion = move_generator.check_mask.or(move_generator.push_mask);
    proof {
        lemma_bit_laws();
        assert forall|t: int| #[trigger] evasion.has(t) == move_generator.evasion_target(t) by {}
    }
    let w = move_generator.white_to_move;
    let promotion_rank = BitBoard::new(if w { RANK_8 } else { RANK_1 });
    let non_orthogonally_pinned_pawns = move_generator.friendly_pawns.and(move_generator.orthogonal_pin_rays.not());
    let not_on_the_right_edge = BitBoard::new(if w { NOT_H_FILE } else { NOT_A_FILE });
    let not_on_the_left_edge = BitBoard::new(if w { NOT_A_FILE } else { NOT_H_FILE });
    let capture_right_offset: i8 = if w { -9 } else { 9 };
    let capture_left_offset: i8 = if w { -7 } else { 7 };
    let can_capture = move_generator.enemy_piece_bit_board.and(evasion);
    let right_sources = non_orthogonally_pinned_pawns.and(not_on_the_right_edge);
    let right_targets = shift_forward(right_sources, 9, w);
    let capture_right = right_targets.and(can_capture);
    let left_sources = non_orthogonally_pinned_pawns.and(not_on_the_left_edge);
    let left_targets = shift_forward(left_sources, 7, w);
    let capture_left = left_targets.and(can_capture);
    let capture_right_promotions = capture_right.and(promotion_rank);
    let capture_right_no_promotions = capture_right.and(capture_right_promotions.not());
    let capture_left_promotions = capture_left.and(promotion_rank);
    let capture_left_no_promotions = capture_left.and(capture_left_promotions.not());
    let ghost start = moves@;
    let pins = move_generator.diagonal_pin_rays;
    proof {
        lemma_bit_laws();
        lemma_mask_bits();
        assert forall|t: int| #[trigger] promotion_rank.has(t) == (on_board(t) && on_promotion_rank(w, t)) by {
            if on_board(t) {
                let tu = t as u64;
                assert(bit(promotion_rank.0, t) == ((promotion_rank.0 >> tu) & 1 == 1));
            }
        }
        assert forall|t: int| #[trigger] right_sources.has(t) == (move_generator.friendly_pawns.has(t)
            && !move_generator.orthogonal_pin_rays.has(t) && file_of(t) != (if w { 7int } else { 0int })) by {
            if on_board(t) {
                let tu = t as u64;
                assert(bit(not_on_the_right_edge.0, t) == ((not_on_the_right_edge.0 >> tu) & 1 == 1));
            }
        }
        assert forall|t: int| #[trigger] left_sources.has(t) == (move_generator.friendly_pawns.has(t)
            && !move_generator.orthogonal_pin_rays.has(t) && file_of(t) != (if w { 0int } else { 7int })) by {
            if on_board(t) {
                let tu = t as u64;
                assert(bit(not_on_the_left_edge.0, t) == ((not_on_the_left_edge.0 >> tu) & 1 == 1));
            }
        }
        assert forall|s: int| #[trigger] capture_right_promotions.has(s) implies on_board(s + capture_right_offset) && on_board(s + 0) by {}
        assert forall|s: int| #[trigger] capture_right_no_promotions.has(s) implies on_board(s + capture_right_offset) && on_board(s + 0) by {
            assert(capture_right.has(s));
            assert(right_targets.has(s));
        }
        assert forall|s: int| #[trigger] capture_left_promotions.has(s) implies on_board(s + capture_left_offset) && on_board(s + 0) by {}
        assert forall|s: int| #[trigger] capture_left_no_promotions.has(s) implies on_board(s + capture_left_offset) && on_board(s + 0) by {
            assert(capture_left.has(s));
            assert(left_targets.has(s));
        }
    }
    add_pawn_moves(moves, capture_right_promotions, capture_right_offset, 0, true, Flag::Normal, pins, true);
    let ghost s1 = moves@;
    add_pawn_moves(moves, capture_right_no_promotions, capture_right_offset, 0, false, Flag::Normal, pins, true);
    let ghost s2 = moves@;
    add_pawn_moves(moves, capture_left_promotions, capture_left_offset, 0, true, Flag::Normal, pins, true);
    let ghost s3 = moves@;
    add_pawn_moves(moves, capture_left_no_promotions, capture_left_offset, 0, false, Flag::Normal, pins, true);
    proof {
        lemma_pawn_captures_distinct(start, s1, s2, s3, moves@, capture_right_offset as int, capture_left_offset as int);
        assert forall|i: int| start.len() <= i < moves@.len() implies {
            let m = #[trigger] moves@[i];
            &&& move_generator.friendly_pawns.has(m.from.0 as int)
            &&& m.flag == Flag::Normal || m.flag.is_promotion()
            &&& m.to.0 - m.from.0 == steps_forward(9, w) || m.to.0 - m.from.0 == steps_forward(7, w)
        } by {
            lemma_bit_laws();
            let m = moves@[i];
            let f = m.from.0 as int;
            let sr = f - capture_right_offset;
            let sl = f - capture_left_offset;
            assert(right_targets.has(sr) == (on_board(sr) && right_sources.has(sr - steps_forward(9, w))));
            assert(left_targets.has(sl) == (on_board(sl) && left_sources.has(sl - steps_forward(7, w))));
            assert(capture_right.has(sr) == (right_targets.has(sr) && can_capture.has(sr)));
            assert(capture_left.has(sl) == (left_targets.has(sl) && can_capture.has(sl)));
            assert(capture_right_promotions.has(sr) == (capture_right.has(sr) && promotion_rank.has(sr)));
            assert(capture_right_no_promotions.has(sr) == (capture_right.has(sr) && !promotion_rank.has(sr)));
            assert(capture_left_promotions.has(sl) == (capture_left.has(sl) && promotion_rank.has(sl)));
            assert(capture_left_no_promotions.has(sl) == (capture_left.has(sl) && !promotion_rank.has(sl)));
            if i < s1.len() {
                assert(moves@[i] == s1[i]);
                assert(capture_right_promotions.has(sr));
            } else if i < s2.len() {
                assert(moves@[i] == s2[i]);
                assert(capture_right_no_promotions.has(sr));
            } else if i < s3.len() {
                assert(moves@[i] == s3[i]);
                assert(capture_left_promotions.has(sl));
            } else {
                assert(capture_left_no_promotions.has(sl));
            }
        }
    }
    proof {
        lemma_bit_laws();
        assert forall|m: Move| #[trigger] moves@.contains(m) == (start.contains(m) || move_generator.pawn_capture(m)) by {
            let f = m.from.0 as int;
            let t = m.to.0 as int;
            let sr = f - capture_right_offset;
            let sl = f - capture_left_offset;
            if on_board(f) && on_board(t) {
                lemma_capture_geometry(f, t, w);
            }
            assert(right_targets.has(sr) == (on_board(sr) && right_sources.has(sr - steps_forward(9, w))));
            assert(left_targets.has(sl) == (on_board(sl) && left_sources.has(sl - steps_forward(7, w))));
            assert(capture_right.has(sr) == (right_targets.has(sr) && can_capture.has(sr)));
            assert(capture_left.has(sl) == (left_targets.has(sl) && can_capture.has(sl)));
            assert(can_capture.has(t) == (move_generator.enemy_piece_bit_board.has(t) && move_generator.evasion_target(t)));
            assert(capture_right_promotions.has(sr) == (capture_right.has(sr) && promotion_rank.has(sr)));
            assert(capture_right_no_promotions.has(sr) == (capture_right.has(sr) && !promotion_rank.has(sr)));
            assert(capture_left_promotions.has(sl) == (capture_left.has(sl) && promotion_rank.has(sl)));
            assert(capture_left_no_promotions.has(sl) == (capture_left.has(sl) && !promotion_rank.has(sl)));
        }
    }
}

/// Adds the en passant captures.
fn gen_en_passant(move_generator: &MoveGenerator, moves: &mut Vec<Move>)
    requires
        move_generator.wf(),
    ensures
        forall|m: Move| #[trigger] final(moves)@.contains(m) == (old(moves)@.contains(m) || move_generator.en_passant(m)),
        appends_distinct(old(moves)@, final(moves)@),
        forall|i: int| old(moves)@.len() <= i < final(moves)@.len() ==> move_generator.friendly_pawns.has(
            (#[trigger] final(moves)@[i]).from.0 as int,
        ) && final(moves)@[i].flag == Flag::EnPassant,
{
    let evasion = move_generator.check_mask.or(move_generator.push_mask);
    proof {
        lemma_bit_laws();
        assert forall|t: int| #[trigger] evasion.has(t) == move_generator.evasion_target(t) by {}
    }
    let ghost start = moves@;
    proof {
        lemma_appends_none(start);
    }
    let w = move_generator.white_to_move;
    if let Some(en_passant_square) = move_generator.en_passant_square {
        let capture_position = en_passant_square.down(if w { 1 } else { -1 });
        if evasion.get(&capture_position) {
            let attackers = attack_bit_board(en_passant_square, !w);
            let mut pawns_able_to_en_passant = move_generator.friendly_pawns.and(attackers).and(move_generator.orthogonal_pin_rays.not());
            let ghost initial = pawns_able_to_en_passant;
            let king = move_generator.friendly_king_square;
            proof {
                lemma_bit_laws();
                assert forall|p: int| #[trigger] initial.has(p) == (move_generator.friendly_pawns.has(p)
                    && pawn_capture_step(en_passant_square.0 as int, p, !w) && !move_generator.orthogonal_pin_rays.has(p)) by {
                    if on_board(p) {
                        assert(attackers.has(p) == pawn_capture_step(en_passant_square.0 as int, p, !w));
                    }
                }
            }
            while pawns_able_to_en_passant.is_not_empty()
                invariant
                    move_generator.wf(),
                    move_generator.en_passant_square == Some(en_passant_square),
                    w == move_generator.white_to_move,
                    king == move_generator.friendly_king_square,
                    capture_position.0 == en_passant_square.0 - forward(w),
                    move_generator.evasion_target(capture_position.0 as int),
                    forall|p: int| #[trigger] initial.has(p) == (move_generator.friendly_pawns.has(p)
                        && pawn_capture_step(en_passant_square.0 as int, p, !w) && !move_generator.orthogonal_pin_rays.has(p)),
                    forall|i: int| #[trigger] pawns_able_to_en_passant.has(i) ==> initial.has(i),
                    forall|m: Move| #[trigger] moves@.contains(m) == (start.contains(m) || (move_generator.en_passant(m)
                        && !pawns_able_to_en_passant.has(m.from.0 as int))),
                    appends_distinct(start, moves@),
                    forall|i: int| start.len() <= i < moves@.len() ==> initial.has((#[trigger] moves@[i]).from.0 as int)
                        && moves@[i].flag == Flag::EnPassant && !pawns_able_to_en_passant.has(moves@[i].from.0 as int),
                decreases pawns_able_to_en_passant.0,
            {
                let ghost before = pawns_able_to_en_passant;
                let ghost moves0 = moves@;
                let from = pawns_able_to_en_passant.pop_square();
                let pinned_off_ray = move_generator.diagonal_pin_rays.get(&from) && !move_generator.diagonal_pin_rays.get(&en_passant_square);
                let mut reveals_check = false;
                if king.rank() == from.rank() {
                    let opened = move_generator.occupied_squares.xor(from.bit_board()).xor(capture_position.bit_board());
                    let unblocked = rook_attacks(king, opened);
                    reveals_check = unblocked.overlaps(&move_generator.enemy_orthogonal);
                    proof {
                        lemma_bit_laws();
                        let k = king.0 as int;
                        let f = from.0 as int;
                        let c = en_passant_square.0 as int - forward(w);
                        assert(from.0 as u64 == f as u64);
                        assert(capture_position.0 as u64 == c as u64);
                        assert(opened.0 == move_generator.occupied_squares.0 ^ (1u64 << (f as u64)) ^ (1u64 << (c as u64)));
                        let both = unblocked.0 & move_generator.enemy_orthogonal.0;
                        let to = en_passant_square.0 as int;
                        let opened_spec = move_generator.occupied_squares.0 ^ (1u64 << (f as u64)) ^ (1u64 << ((to - forward(w)) as u64));
                        assert(opened.0 == opened_spec);
                        if reveals_check {
                            lemma_nonzero_has(both);
                            let u = choose|u: int| on_board(u) && #[trigger] bit(both, u);
                            assert(unblocked.has(u));
                            assert(on_board(u) && bit(move_generator.enemy_orthogonal.0, u) && slider_attacks(k, opened_spec, 0, u));
                        } else {
                            assert forall|u: int| on_board(u) && #[trigger] bit(move_generator.enemy_orthogonal.0, u)
                                implies !slider_attacks(k, opened.0, 0, u) by {
                                if slider_attacks(k, opened.0, 0, u) {
                                    assert(unblocked.has(u));
                                    assert(bit(both, u));
                                    assert((0u64 >> (u as u64)) & 1 == 0);
                                }
                            }
                        }
                    }
                }
                let mv = Move { from, to: en_passant_square, flag: Flag::EnPassant };
                proof {
                    assert forall|i: int| start.len() <= i < moves0.len() implies #[trigger] moves0[i] != mv by {
                        assert(!before.has(moves0[i].from.0 as int));
                        assert(before.has(from.0 as int));
                    }
                    lemma_appends_push(start, moves0, mv);
                }
                if !pinned_off_ray && !reveals_check {
                    moves.push(mv);
                }
                proof {
                    assert forall|i: int| start.len() <= i < moves@.len() implies initial.has((#[trigger] moves@[i]).from.0 as int)
                        && moves@[i].flag == Flag::EnPassant && !pawns_able_to_en_passant.has(moves@[i].from.0 as int) by {
                        assert(before.has(from.0 as int));
                        if i < moves0.len() {
                            assert(moves@[i] == moves0[i]);
                        }
                    }
                }
                proof {
                    assert(before.has(from.0 as int));
                    assert(initial.has(from.0 as int));
                    let f = from.0 as int;
                    let to = en_passant_square.0 as int;
                    let k = king.0 as int;
                    assert(move_generator.evasion_target(to - forward(w)));
                    assert(move_generator.friendly_pawns.has(f));
                    assert(!move_generator.orthogonal_pin_rays.has(f));
                    assert(pawn_capture_step(to, f, !w));
                    assert((move_generator.diagonal_pin_rays.has(f) ==> move_generator.diagonal_pin_rays.has(to)) == !pinned_off_ray);
                    let opened = move_generator.occupied_squares.0 ^ (1u64 << (f as u64)) ^ (1u64 << ((to - forward(w)) as u64));
                    assert((rank_of(k) == rank_of(f) ==> !exists|s: int| on_board(s) && #[trigger] bit(move_generator.enemy_orthogonal.0, s)
                        && slider_attacks(k, opened, 0, s)) == !reveals_check);
                    assert(move_generator.en_passant(mv) == (!pinned_off_ray && !reveals_check));
                    assert forall|m: Move| #[trigger] moves@.contains(m) == (start.contains(m) || (move_generator.en_passant(m)
                        && !pawns_able_to_en_passant.has(m.from.0 as int))) by {
                        assert(moves@.contains(m) == (moves0.contains(m) || (!pinned_off_ray && !reveals_check && m == mv))) by {
                            if moves@.contains(m) {
                                let i = choose|i: int| 0 <= i < moves@.len() && moves@[i] == m;
                                if i < moves0.len() {
                                    assert(moves0[i] == m);
                                }
                            }
                            if moves0.contains(m) {
                                let i = choose|i: int| 0 <= i < moves0.len() && moves0[i] == m;
                                assert(moves@[i] == m);
                            }
                            if !pinned_off_ray && !reveals_check && m == mv {
                                assert(moves@[moves0.len() as int] == m);
                            }
                        }
                        if move_generator.en_passant(m) && m.from != from {
                            assert(m.to == en_passant_square);
                        }
                    }
                }
            }
            proof {
                lemma_bit_laws();
                assert forall|m: Move| #[trigger] moves@.contains(m) == (start.contains(m) || move_generator.en_passant(m)) by {
                    let f = m.from.0 as int;
                    if on_board(f) {
                        assert((0u64 >> (f as u64)) & 1 == 0);
                    }
                }
            }
        } else {
            proof {
                assert forall|m: Move| #[trigger] moves@.contains(m) == (start.contains(m) || move_generator.en_passant(m)) by {}
            }
        }
    }
}

/// Adds the single and double pawn pushes, promotions among them.
fn gen_pawn_pushes(move_generator: &MoveGenerator, moves: &mut Vec<Move>)
    ensures
        forall|m: Move| #[trigger] final(moves)@.contains(m) == (old(moves)@.contains(m) || move_generator.pawn_push(m)
            || move_generator.pawn_double_push(m)),
        appends_distinct(old(moves)@, final(moves)@),
        forall|i: int| old(moves)@.len() <= i < final(moves)@.len() ==> {
            let m = #[trigger] final(moves)@[i];
            &&& move_generator.friendly_pawns.has(m.from.0 as int)
            &&& (m.to.0 - m.from.0 == forward(move_generator.white_to_move) && (m.flag == Flag::Normal
                || m.flag.is_promotion())) || m.flag == Flag::PawnTwoUp
        },
{
    let evasion = move_generator.check_mask.or(move_generator.push_mask);
    proof {
        lemma_bit_laws();
        assert forall|t: int| #[trigger] evasion.has(t) == move_generator.evasion_target(t) by {}
    }
    let ghost start = moves@;
    let w = move_generator.white_to_move;
    let one_up_offset: i8 = if w { 8 } else { -8 };
    let orthogonal = move_generator.orthogonal_pin_rays;
    let unpinned_diagonally = move_generator.friendly_pawns.and(move_generator.diagonal_pin_rays.not());
    let empty_ahead = shift_forward(move_generator.empty_squares, 8, !w);
    let can_single_push_base = unpinned_diagonally.and(empty_ahead);
    let start_rank = BitBoard::new(if w { RANK_2 } else { RANK_7 });
    let free_target = move_generator.empty_squares.and(evasion);
    let free_target_ahead = shift_forward(free_target, 16, !w);
    let can_double_push_base = can_single_push_base.and(start_rank).and(free_target_ahead);
    let check_ahead = shift_forward(evasion, 8, !w);
    let can_single_push_any = can_single_push_base.and(check_ahead);
    let pin_ahead = shift_forward(orthogonal, 8, !w);
    let can_single_push = can_single_push_any.and(pin_ahead).or(can_single_push_any.and(orthogonal.not()));
    let promotion_start = BitBoard::new(if w { RANK_7 } else { RANK_2 });
    let push_promotions = can_single_push.and(promotion_start);
    let single_push_no_promotions = can_single_push.and(promotion_start.not());
    let double_up_offset: i8 = one_up_offset * 2;
    let pin_ahead_two = shift_forward(orthogonal, 16, !w);
    let can_double_push = can_double_push_base.and(pin_ahead_two).or(can_double_push_base.and(orthogonal.not()));
    let ghost fw = forward(w);
    proof {
        lemma_bit_laws();
        lemma_mask_bits();
        assert forall|p: int| #[trigger] can_single_push.has(p) == (move_generator.friendly_pawns.has(p)
            && !move_generator.diagonal_pin_rays.has(p) && on_board(p + fw) && move_generator.empty_squares.has(p + fw)
            && move_generator.evasion_target(p + fw) && (!orthogonal.has(p) || orthogonal.has(p + fw))) by {
            assert(empty_ahead.has(p) == (on_board(p) && move_generator.empty_squares.has(p + fw)));
            assert(check_ahead.has(p) == (on_board(p) && move_generator.evasion_target(p + fw)));
            assert(pin_ahead.has(p) == (on_board(p) && orthogonal.has(p + fw)));
        }
        assert forall|p: int| #[trigger] promotion_start.has(p) == (on_board(p) && on_promotion_rank(w, p + fw)) by {
            if on_board(p) {
                let pu = p as u64;
                assert(bit(promotion_start.0, p) == ((promotion_start.0 >> pu) & 1 == 1));
            }
        }
        assert forall|p: int| #[trigger] start_rank.has(p) == (on_board(p) && (if w { 8 <= p < 16 } else { 48 <= p < 56 })) by {
            if on_board(p) {
                let pu = p as u64;
                assert(bit(start_rank.0, p) == ((start_rank.0 >> pu) & 1 == 1));
            }
        }
        assert forall|p: int| #[trigger] can_double_push.has(p) == (move_generator.friendly_pawns.has(p)
            && !move_generator.diagonal_pin_rays.has(p) && (if w { 8 <= p < 16 } else { 48 <= p < 56 })
            && move_generator.empty_squares.has(p + fw) && move_generator.empty_squares.has(p + 2 * fw)
            && move_generator.evasion_target(p + 2 * fw) && (!orthogonal.has(p) || orthogonal.has(p + 2 * fw))) by {
            assert(empty_ahead.has(p) == (on_board(p) && move_generator.empty_squares.has(p + fw)));
            assert(free_target_ahead.has(p) == (on_board(p) && free_target.has(p + 2 * fw)));
            assert(pin_ahead_two.has(p) == (on_board(p) && orthogonal.has(p + 2 * fw)));
            assert(free_target.has(p + 2 * fw) == (move_generator.empty_squares.has(p + 2 * fw) && move_generator.evasion_target(p + 2 * fw)));
        }
        assert forall|p: int| #[trigger] single_push_no_promotions.has(p) implies on_board(p + 0) && on_board(p + one_up_offset) by {
            assert(can_single_push.has(p));
        }
        assert forall|p: int| #[trigger] push_promotions.has(p) implies on_board(p + 0) && on_board(p + one_up_offset) by {
            assert(can_single_push.has(p));
        }
        assert forall|p: int| #[trigger] can_double_push.has(p) implies on_board(p + 0) && on_board(p + double_up_offset) by {}
    }
    add_pawn_moves(moves, single_push_no_promotions, 0, one_up_offset, false, Flag::Normal, orthogonal, false);
    let ghost s1 = moves@;
    add_pawn_moves(moves, push_promotions, 0, one_up_offset, true, Flag::Normal, orthogonal, false);
    let ghost s2 = moves@;
    add_pawn_moves(moves, can_double_push, 0, double_up_offset, false, Flag::PawnTwoUp, orthogonal, false);
    proof {
        assert forall|i: int, j: int| start.len() <= i < s1.len() <= j < s2.len() implies #[trigger] s1[i] != #[trigger] s2[j] by {}
        lemma_appends_join(start, s1, s2);
        assert forall|i: int, j: int| start.len() <= i < s2.len() <= j < moves@.len() implies #[trigger] s2[i]
            != #[trigger] moves@[j] by {
            if i < s1.len() {
                assert(s2.subrange(0, s1.len() as int)[i] == s2[i]);
            }
        }
        lemma_appends_join(start, s2, moves@);
        assert forall|i: int| start.len() <= i < moves@.len() implies {
            let m = #[trigger] moves@[i];
            &&& move_generator.friendly_pawns.has(m.from.0 as int)
            &&& (m.to.0 - m.from.0 == forward(w) && (m.flag == Flag::Normal || m.flag.is_promotion()))
                || m.flag == Flag::PawnTwoUp
        } by {
            lemma_bit_laws();
            let f = moves@[i].from.0 as int;
            assert(single_push_no_promotions.has(f) == (can_single_push.has(f) && !promotion_start.has(f)));
            assert(push_promotions.has(f) == (can_single_push.has(f) && promotion_start.has(f)));
            if i < s2.len() {
                assert(moves@.subrange(0, s2.len() as int)[i] == moves@[i]);
                if i < s1.len() {
                    assert(s2.subrange(0, s1.len() as int)[i] == s2[i]);
                }
            }
        }
    }
    proof {
        lemma_bit_laws();
        assert forall|m: Move| #[trigger] moves@.contains(m) == (start.contains(m) || move_generator.pawn_push(m)
            || move_generator.pawn_double_push(m)) by {
            let f = m.from.0 as int;
            let t = m.to.0 as int;
            assert(single_push_no_promotions.has(f) == (can_single_push.has(f) && !promotion_start.has(f)));
            assert(push_promotions.has(f) == (can_single_push.has(f) && promotion_start.has(f)));
            assert(can_single_push.has(f) || !can_single_push.has(f));
            assert(can_double_push.has(f) || !can_double_push.has(f));
            assert(promotion_start.has(f) || !promotion_start.has(f));
            if move_generator.pawn_push(m) {
                assert(move_generator.empty_squares.has(t));
                assert(on_board(t));
            }
        }
    }
}

/// Adds the pawn moves; only captures, en passant included, when `captures_only`.
pub fn generate(move_generator: &MoveGenerator, moves: &mut Vec<Move>, captures_only: bool)
    requires
        move_generator.wf(),
    ensures
        forall|m: Move| #[trigger] final(moves)@.contains(m) == (old(moves)@.contains(m) || move_generator.pawn_move(captures_only, m)),
        appends_distinct(old(moves)@, final(moves)@),
        forall|i: int| old(moves)@.len() <= i < final(moves)@.len() ==> move_generator.friendly_pawns.has(
            (#[trigger] final(moves)@[i]).from.0 as int,
        ),
{
    let ghost s0 = moves@;
    gen_pawn_captures(move_generator, moves);
    let ghost s1 = moves@;
    gen_en_passant(move_generator, moves);
    let ghost s2 = moves@;
    proof {
        assert forall|i: int, j: int| s0.len() <= i < s1.len() <= j < s2.len() implies #[trigger] s1[i] != #[trigger] s2[j] by {}
        lemma_appends_join(s0, s1, s2);
        assert forall|i: int| s0.len() <= i < s2.len() implies move_generator.friendly_pawns.has((#[trigger] s2[i]).from.0 as int)
            && s2[i].flag != Flag::PawnTwoUp && (s2[i].flag == Flag::EnPassant || s2[i].to.0 - s2[i].from.0 != forward(
            move_generator.white_to_move,
        )) by {
            if i < s1.len() {
                assert(s2.subrange(0, s1.len() as int)[i] == s2[i]);
            }
        }
    }
    if !captures_only {
        gen_pawn_pushes(move_generator, moves);
        proof {
            assert forall|i: int, j: int| s0.len() <= i < s2.len() <= j < moves@.len() implies #[trigger] s2[i]
                != #[trigger] moves@[j] by {}
            lemma_appends_join(s0, s2, moves@);
            assert forall|i: int| s0.len() <= i < moves@.len() implies move_generator.friendly_pawns.has(
                (#[trigger] moves@[i]).from.0 as int,
            ) by {
                if i < s2.len() {
                    assert(moves@.subrange(0, s2.len() as int)[i] == moves@[i]);
                }
            }
        }
    }
}

} // verus!
