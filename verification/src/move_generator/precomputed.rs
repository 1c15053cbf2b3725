//! Squares attacked by knights, kings and pawns, and the rays between squares.
use vstd::prelude::*;
use crate::board::bit_board::{BitBoard, bit, lemma_bit_laws};
use crate::board::square::{Square, on_board};
use super::slider_lookup::{slides_to, edge_distance, edge_distance_at, slide, lemma_slide_beyond, lemma_beyond_unique, lemma_slide_reaches_target, lemma_slide_on_board};

verus! {

/// The absolute value.
pub open spec fn abs(x: int) -> int {
    if x < 0 {
        -x
    } else {
        x
    }
}

/// The file of a square index.
pub open spec fn file_of(i: int) -> int {
    i % 8
}

/// The rank of a square index.
pub open spec fn rank_of(i: int) -> int {
    i / 8
}

/// A knight on `from` attacks `to`: two squares one way and one square the other.
pub open spec fn knight_jump(from: int, to: int) -> bool {
    let df = abs(file_of(to) - file_of(from));
    let dr = abs(rank_of(to) - rank_of(from));
    (df == 1 && dr == 2) || (df == 2 && dr == 1)
}

/// A king on `from` attacks `to`: a neighbouring square.
pub open spec fn king_step(from: int, to: int) -> bool {
    let df = abs(file_of(to) - file_of(from));
    let dr = abs(rank_of(to) - rank_of(from));
    df <= 1 && dr <= 1 && from != to
}

/// A pawn of the given side on `from` attacks `to`: one rank forward, one file aside.
pub open spec fn pawn_capture_step(from: int, to: int, white: bool) -> bool {
    abs(file_of(to) - file_of(from)) == 1 && rank_of(to) == rank_of(from) + if white {
        1int
    } else {
        -1int
    }
}

/// The knight relation on 64 bit indices.
spec fn knight_jump_u(s: u64, t: u64) -> bool {
    let df = (t % 8) as int - (s % 8) as int;
    let dr = (t / 8) as int - (s / 8) as int;
    ((df == 1 || df == -1) && (dr == 2 || dr == -2)) || ((df == 2 || df == -2) && (dr == 1 || dr == -1))
}

/// The king relation on 64 bit indices.
spec fn king_step_u(s: u64, t: u64) -> bool {
    let df = (t % 8) as int - (s % 8) as int;
    let dr = (t / 8) as int - (s / 8) as int;
    -1 <= df <= 1 && -1 <= dr <= 1 && s != t
}

/// The pawn capture relation on 64 bit indices.
spec fn pawn_capture_u(s: u64, t: u64, white: bool) -> bool {
    let df = (t % 8) as int - (s % 8) as int;
    let dr = (t / 8) as int - (s / 8) as int;
    (df == 1 || df == -1) && (if white {
        dr == 1
    } else {
        dr == -1
    })
}

/// The knight attacks of a single set bit.
spec fn knight_bits(knight: u64) -> u64 {
    let left_1 = (knight >> 1u64) & 0x7F7F_7F7F_7F7F_7F7F;
    let left_2 = (knight >> 2u64) & 0x3F3F_3F3F_3F3F_3F3F;
    let right_1 = (knight << 1u64) & 0xFEFE_FEFE_FEFE_FEFE;
    let right_2 = (knight << 2u64) & 0xFCFC_FCFC_FCFC_FCFC;
    let lr1 = left_1 | right_1;
    let lr2 = left_2 | right_2;
    (lr1 << 16u64) | (lr1 >> 16u64) | (lr2 << 8u64) | (lr2 >> 8u64)
}

/// The king attacks of a single set bit.
spec fn king_bits(square_bit: u64) -> u64 {
    let left = (square_bit & 0x7F7F_7F7F_7F7F_7F7F) << 1u64;
    let right = (square_bit & 0xFEFE_FEFE_FEFE_FEFE) >> 1u64;
    let left_right = left | right;
    left_right | ((left_right | square_bit) >> 8u64) | ((left_right | square_bit) << 8u64)
}

/// The pawn attacks of a single set bit.
spec fn pawn_bits(square_bit: u64, white: bool) -> u64 {
    if white {
        ((square_bit & 0x00FE_FEFE_FEFE_FEFE) << 7u64) | ((square_bit & 0x007F_7F7F_7F7F_7F7F) << 9u64)
    } else {
        ((square_bit & 0xFEFE_FEFE_FEFE_FE00) >> 9u64) | ((square_bit & 0x7F7F_7F7F_7F7F_7F00) >> 7u64)
    }
}

/// The shift formulas give the knight, king and pawn relations.
proof fn lemma_leaper_bits()
    by (bit_vector)
    ensures
        forall|s: u64, t: u64| s < 64 && t < 64 ==> (((#[trigger] (knight_bits(1u64 << s) >> t)) & 1 == 1)
            == knight_jump_u(s, t)),
        forall|s: u64, t: u64| s < 64 && t < 64 ==> (((#[trigger] (king_bits(1u64 << s) >> t)) & 1 == 1)
            == king_step_u(s, t)),
        forall|s: u64, t: u64, w: bool| s < 64 && t < 64 ==> (((#[trigger] (pawn_bits(1u64 << s, w) >> t)) & 1
            == 1) == pawn_capture_u(s, t, w)),
{
}

/// Returns the squares a knight on `square` attacks.
pub fn knight_attack_bit_board(square: Square) -> (r: BitBoard)
    requires
        square.valid(),
    ensures
        forall|t: int| #[trigger] r.has(t) == (on_board(t) && knight_jump(square.0 as int, t)),
{
    let knight: u64 = 1u64 << (square.0 as u64);
    let left_1 = (knight >> 1u64) & 0x7F7F_7F7F_7F7F_7F7F;
    let left_2 = (knight >> 2u64) & 0x3F3F_3F3F_3F3F_3F3F;
    let right_1 = (knight << 1u64) & 0xFEFE_FEFE_FEFE_FEFE;
    let right_2 = (knight << 2u64) & 0xFCFC_FCFC_FCFC_FCFC;
    let left_and_right_1 = left_1 | right_1;
    let left_and_right_2 = left_2 | right_2;
    let r = BitBoard::new(
        (left_and_right_1 << 16u64) | (left_and_right_1 >> 16u64) | (left_and_right_2 << 8u64) | (
        left_and_right_2 >> 8u64),
    );
    proof {
        lemma_leaper_bits();
        let s = square.0 as u64;
        assert(r.0 == knight_bits(1u64 << s));
        assert forall|t: int| #[trigger] r.has(t) == (on_board(t) && knight_jump(square.0 as int, t)) by {
            if on_board(t) {
                assert(bit(r.0, t) == knight_jump_u(s, t as u64));
            }
        }
    }
    r
}

/// Returns the squares a king on `square` attacks.
pub fn king_attack_bit_board(square: Square) -> (r: BitBoard)
    requires
        square.valid(),
    ensures
        forall|t: int| #[trigger] r.has(t) == (on_board(t) && king_step(square.0 as int, t)),
{
    let square_bit: u64 = 1u64 << (square.0 as u64);
    let left = (square_bit & 0x7F7F_7F7F_7F7F_7F7F) << 1u64;
    let right = (square_bit & 0xFEFE_FEFE_FEFE_FEFE) >> 1u64;
    let left_right = left | right;
    let r = BitBoard::new(
        left_right | ((left_right | square_bit) >> 8u64) | ((left_right | square_bit) << 8u64),
    );
    proof {
        lemma_leaper_bits();
        let s = square.0 as u64;
        assert(r.0 == king_bits(1u64 << s));
        assert forall|t: int| #[trigger] r.has(t) == (on_board(t) && king_step(square.0 as int, t)) by {
            if on_board(t) {
                assert(bit(r.0, t) == king_step_u(s, t as u64));
            }
        }
    }
    r
}

/// Returns the squares a pawn of the given side on `from` attacks.
pub fn attack_bit_board(from: Square, white: bool) -> (r: BitBoard)
    requires
        from.valid(),
    ensures
        forall|t: int| #[trigger] r.has(t) == (on_board(t) && pawn_capture_step(from.0 as int, t, white)),
{
    let square_bit: u64 = 1u64 << (from.0 as u64);
    let bits = if white {
        ((square_bit & 0x00FE_FEFE_FEFE_FEFE) << 7u64) | ((square_bit & 0x007F_7F7F_7F7F_7F7F) << 9u64)
    } else {
        ((square_bit & 0xFEFE_FEFE_FEFE_FE00) >> 9u64) | ((square_bit & 0x7F7F_7F7F_7F7F_7F00) >> 7u64)
    };
    let r = BitBoard::new(bits);
    proof {
        lemma_leaper_bits();
        let s = from.0 as u64;
        assert(r.0 == pawn_bits(1u64 << s, white));
        assert forall|t: int| #[trigger] r.has(t) == (on_board(t) && pawn_capture_step(from.0 as int, t, white)) by {
            if on_board(t) {
                assert(bit(r.0, t) == pawn_capture_u(s, t as u64, white));
            }
        }
    }
    r
}

/// `t` is on the ray from `from` to `to`, `to` included and `from` not: `to` itself, and, where `to`
/// is on a straight line from `from`, the squares up to it along that line.
pub open spec fn between_ray(from: int, to: int, t: int) -> bool {
    t == to || exists|d: int|
        0 <= d < 8 && #[trigger] slides_to(from, d, edge_distance(from, d), 0, to) && slides_to(
            from,
            d,
            edge_distance(from, d),
            1u64 << (to as u64),
            t,
        )
}

/// Get the ray between two squares including the `to` square but not the `from` square.
pub fn get_between_rays(from: Square, to: Square) -> (r: BitBoard)
    requires
        from.valid(),
        to.valid(),
    ensures
        forall|t: int| #[trigger] r.has(t) == (on_board(t) && between_ray(from.0 as int, to.0 as int, t)),
{
    let target: u64 = 1u64 << (to.0 as u64);
    let mut d: usize = 0;
    proof {
        lemma_bit_laws();
    }
    while d < 8
        invariant
            d <= 8,
            from.valid(),
            to.valid(),
            target == 1u64 << (to.0 as u64),
            forall|e: int| 0 <= e < d ==> !#[trigger] slides_to(from.0 as int, e, edge_distance(from.0 as int, e), 0, to.0 as int),
        decreases 8 - d,
    {
        let steps = edge_distance_at(from, d);
        let ray = slide(from, 0, d, steps);
        if (ray >> (to.0 as u64)) & 1 == 1 {
            let bits = slide(from, target, d, steps);
            let r = BitBoard::new(bits);
            proof {
                let f = from.0 as int;
                let g = to.0 as int;
                assert(bit(ray, g));
                assert(slides_to(f, d as int, edge_distance(f, d as int), 0, g));
                lemma_slide_reaches_target(f, d as int, edge_distance(f, d as int), g);
                assert forall|t: int| #[trigger] r.has(t) == (on_board(t) && between_ray(f, g, t)) by {
                    if on_board(t) && between_ray(f, g, t) && t != g {
                        let e = choose|e: int| 0 <= e < 8 && #[trigger] slides_to(f, e, edge_distance(f, e), 0, g)
                            && slides_to(f, e, edge_distance(f, e), 1u64 << (g as u64), t);
                        lemma_slide_beyond(f, e, edge_distance(f, e), 0, g);
                        lemma_slide_beyond(f, d as int, edge_distance(f, d as int), 0, g);
                        lemma_beyond_unique(f, d as int, e, g);
                    }
                }
            }
            return r;
        }
        proof {
            assert(!bit(ray, to.0 as int));
        }
        d = d + 1;
    }
    let r = BitBoard::new(target);
    proof {
        assert forall|t: int| #[trigger] r.has(t) == (on_board(t) && between_ray(from.0 as int, to.0 as int, t)) by {
            if on_board(t) {
                let iu = t as u64;
                assert(((1u64 << (to.0 as u64)) >> iu) & 1 == 1 <==> iu == to.0 as u64);
            }
        }
    }
    r
}

} // verus!
