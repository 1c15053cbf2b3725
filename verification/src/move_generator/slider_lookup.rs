//! Moves of the sliding pieces: rooks along ranks and files, bishops along diagonals.
use vstd::prelude::*;
use crate::board::bit_board::{BitBoard, bit, lemma_bit_laws};
use crate::board::square::{Square, on_board, direction, direction_at};
use super::precomputed::{file_of, rank_of};

verus! {

/// The smaller of two integers.
pub open spec fn min(a: int, b: int) -> int {
    if a > b {
        b
    } else {
        a
    }
}

/// How many steps from square `sq` to the edge of the board in direction `d` (see [`direction`]).
pub open spec fn edge_distance(sq: int, d: int) -> int {
    let f = file_of(sq);
    let r = rank_of(sq);
    if d == 0 {
        7 - f
    } else if d == 1 {
        7 - r
    } else if d == 2 {
        f
    } else if d == 3 {
        r
    } else if d == 4 {
        min(7 - r, f)
    } else if d == 5 {
        min(7 - r, 7 - f)
    } else if d == 6 {
        min(r, f)
    } else {
        min(r, 7 - f)
    }
}

/// Sliding from `sq` in direction `d` for at most `n` steps, and stopping on the first square in
/// `blockers`, reaches square `t`.
pub open spec fn slides_to(sq: int, d: int, n: int, blockers: u64, t: int) -> bool
    decreases n,
{
    if n <= 0 {
        false
    } else {
        let next = sq + direction(d);
        t == next || (!bit(blockers, next) && slides_to(next, d, n - 1, blockers, t))
    }
}

/// A piece on `sq` sliding in the four directions from `offset` on (0: rook, 4: bishop) attacks `t`.
pub open spec fn slider_attacks(sq: int, blockers: u64, offset: int, t: int) -> bool {
    ||| slides_to(sq, offset, edge_distance(sq, offset), blockers, t)
    ||| slides_to(sq, offset + 1, edge_distance(sq, offset + 1), blockers, t)
    ||| slides_to(sq, offset + 2, edge_distance(sq, offset + 2), blockers, t)
    ||| slides_to(sq, offset + 3, edge_distance(sq, offset + 3), blockers, t)
}

/// Sliding from `sq` in one of the first `k` directions from `offset` on reaches `t`, each slide
/// `shorten` steps shorter than its ray.
pub open spec fn slides_upto(sq: int, offset: int, k: int, shorten: int, blockers: u64, t: int) -> bool
    decreases k,
{
    if k <= 0 {
        false
    } else {
        slides_upto(sq, offset, k - 1, shorten, blockers, t) || slides_to(
            sq,
            offset + k - 1,
            edge_distance(sq, offset + k - 1) - shorten,
            blockers,
            t,
        )
    }
}

/// `t` is a square whose occupancy can change the slider attacks from `sq`: on one of the four
/// rays on an empty board, but not the last square of the ray.
pub open spec fn relevant_blocker(sq: int, offset: int, t: int) -> bool {
    ||| slides_to(sq, offset, edge_distance(sq, offset) - 1, 0, t)
    ||| slides_to(sq, offset + 1, edge_distance(sq, offset + 1) - 1, 0, t)
    ||| slides_to(sq, offset + 2, edge_distance(sq, offset + 2) - 1, 0, t)
    ||| slides_to(sq, offset + 3, edge_distance(sq, offset + 3) - 1, 0, t)
}

/// The change of file of one step in direction `d`.
pub open spec fn file_step(d: int) -> int {
    if d == 0 || d == 5 || d == 7 {
        1
    } else if d == 2 || d == 4 || d == 6 {
        -1
    } else {
        0
    }
}

/// The change of rank of one step in direction `d`.
pub open spec fn rank_step(d: int) -> int {
    if d == 1 || d == 4 || d == 5 {
        1
    } else if d == 3 || d == 6 || d == 7 {
        -1
    } else {
        0
    }
}

/// `t` lies beyond `sq` in direction `d`: some positive number of steps in that direction.
pub open spec fn beyond(sq: int, d: int, t: int) -> bool {
    ray_pattern(d, file_of(t) - file_of(sq), rank_of(t) - rank_of(sq))
}

/// A step towards the edge stays on the board and brings the edge one step closer.
pub proof fn lemma_edge_step(sq: int, d: int)
    requires
        on_board(sq),
        0 <= d < 8,
        edge_distance(sq, d) > 0,
    ensures
        on_board(sq + direction(d)),
        edge_distance(sq + direction(d), d) == edge_distance(sq, d) - 1,
        file_of(sq + direction(d)) == file_of(sq) + file_step(d),
        rank_of(sq + direction(d)) == rank_of(sq) + rank_step(d),
{
    let n = sq + direction(d);
    assert(file_of(sq) == sq % 8 && rank_of(sq) == sq / 8);
    if d == 0 {
        assert(n % 8 == sq % 8 + 1 && n / 8 == sq / 8);
    } else if d == 1 {
        assert(n % 8 == sq % 8 && n / 8 == sq / 8 + 1);
    } else if d == 2 {
        assert(n % 8 == sq % 8 - 1 && n / 8 == sq / 8);
    } else if d == 3 {
        assert(n % 8 == sq % 8 && n / 8 == sq / 8 - 1);
    } else if d == 4 {
        assert(n % 8 == sq % 8 - 1 && n / 8 == sq / 8 + 1);
    } else if d == 5 {
        assert(n % 8 == sq % 8 + 1 && n / 8 == sq / 8 + 1);
    } else if d == 6 {
        assert(n % 8 == sq % 8 - 1 && n / 8 == sq / 8 - 1);
    } else {
        assert(n % 8 == sq % 8 + 1 && n / 8 == sq / 8 - 1);
    }
}

/// Every square a slide reaches is on the board.
pub proof fn lemma_slide_on_board(sq: int, d: int, n: int, blockers: u64, t: int)
    requires
        on_board(sq),
        0 <= d < 8,
        n <= edge_distance(sq, d),
        slides_to(sq, d, n, blockers, t),
    ensures
        on_board(t),
    decreases n,
{
    lemma_edge_step(sq, d);
    let next = sq + direction(d);
    if t != next {
        lemma_slide_on_board(next, d, n - 1, blockers, t);
    }
}

/// Only blockers on the ray before its last square change a slide: masking the blockers with the
/// relevant squares leaves the reached squares as they were.
pub proof fn lemma_slide_relevant(sq: int, d: int, n: int, blockers: u64, relevant: u64, t: int)
    requires
        on_board(sq),
        0 <= d < 8,
        n <= edge_distance(sq, d),
        forall|u: int| #[trigger] slides_to(sq, d, n - 1, 0, u) ==> bit(relevant, u),
    ensures
        slides_to(sq, d, n, blockers & relevant, t) == slides_to(sq, d, n, blockers, t),
    decreases n,
{
    if n > 0 {
        lemma_edge_step(sq, d);
        lemma_bit_laws();
        let next = sq + direction(d);
        if n == 1 {
            assert(!slides_to(next, d, 0, blockers & relevant, t));
            assert(!slides_to(next, d, 0, blockers, t));
            assert(slides_to(sq, d, n, blockers & relevant, t) == (t == next));
            assert(slides_to(sq, d, n, blockers, t) == (t == next));
        }
        if n > 1 {
            assert(slides_to(sq, d, n - 1, 0, next));
            assert(bit(relevant, next));
            assert(bit(blockers & relevant, next) == bit(blockers, next));
            assert forall|u: int| #[trigger] slides_to(next, d, (n - 1) - 1, 0, u) implies bit(relevant, u) by {
                assert((0u64 >> (next as u64)) & 1 == 0);
                assert(slides_to(sq, d, n - 1, 0, u));
            }
            lemma_slide_relevant(next, d, n - 1, blockers, relevant, t);
        }
    }
}

/// Every square a slide reaches lies beyond its start in the direction of the slide.
pub proof fn lemma_slide_beyond(sq: int, d: int, n: int, blockers: u64, t: int)
    requires
        on_board(sq),
        0 <= d < 8,
        n <= edge_distance(sq, d),
        slides_to(sq, d, n, blockers, t),
    ensures
        beyond(sq, d, t),
    decreases n,
{
    lemma_edge_step(sq, d);
    let next = sq + direction(d);
    if t != next {
        lemma_slide_beyond(next, d, n - 1, blockers, t);
    }
}

/// No square lies beyond a start in two directions.
pub proof fn lemma_beyond_unique(sq: int, d: int, e: int, t: int)
    requires
        0 <= d < 8,
        0 <= e < 8,
        beyond(sq, d, t),
        beyond(sq, e, t),
    ensures
        d == e,
{
}

/// The file and rank changes `df`, `dr` of a positive number of steps in direction `d`.
pub open spec fn ray_pattern(d: int, df: int, dr: int) -> bool {
    if d == 0 {
        dr == 0 && df > 0
    } else if d == 1 {
        df == 0 && dr > 0
    } else if d == 2 {
        dr == 0 && df < 0
    } else if d == 3 {
        df == 0 && dr < 0
    } else if d == 4 {
        df < 0 && dr == -df
    } else if d == 5 {
        df > 0 && dr == df
    } else if d == 6 {
        df < 0 && dr == df
    } else {
        df > 0 && dr == -df
    }
}

/// A slide on a board whose only blocker is `to` reaches every square an empty-board slide
/// reaches up to and including `to`, when `to` is on the ray.
pub proof fn lemma_slide_reaches_target(sq: int, d: int, n: int, to: int)
    requires
        on_board(sq),
        0 <= d < 8,
        n <= edge_distance(sq, d),
        slides_to(sq, d, n, 0, to),
    ensures
        slides_to(sq, d, n, 1u64 << (to as u64), to),
    decreases n,
{
    lemma_edge_step(sq, d);
    lemma_bit_laws();
    let next = sq + direction(d);
    if to != next {
        lemma_slide_on_board(sq, d, n, 0, to);
        assert((0u64 >> (next as u64)) & 1 == 0);
        assert(slides_to(next, d, n - 1, 0, to));
        lemma_slide_reaches_target(next, d, n - 1, to);
        assert(!bit(1u64 << (to as u64), next));
    }
}

/// The number of steps from a square to the edge in direction `d`.
pub(crate) fn edge_distance_at(square: Square, d: usize) -> (n: i8)
    requires
        square.valid(),
        d < 8,
    ensures
        n == edge_distance(square.0 as int, d as int),
        0 <= n <= 7,
{
    let f = square.0 % 8;
    let r = square.0 / 8;
    let up = 7 - r;
    let right = 7 - f;
    match d {
        0 => right,
        1 => up,
        2 => f,
        3 => r,
        4 => if up > f { f } else { up },
        5 => if up > right { right } else { up },
        6 => if r > f { f } else { r },
        _ => if r > right { right } else { r },
    }
}

/// The squares of `r` and those still reached from `cur` in `n` steps are those reached from
/// `from` in `steps` steps.
spec fn slide_progress(from: int, d: int, steps: int, blockers: u64, r: u64, cur: int, n: int) -> bool {
    forall|t: int| 0 <= t < 64 ==> slides_to(from, d, steps, blockers, t) == (#[trigger] bit(r, t) || slides_to(cur, d, n, blockers, t))
}

/// One step of a slide keeps its progress.
proof fn lemma_slide_advance(from: int, d: int, steps: int, blockers: u64, r: u64, cur: int, n: int)
    requires
        on_board(cur),
        0 <= d < 8,
        0 < n <= edge_distance(cur, d),
        slide_progress(from, d, steps, blockers, r, cur, n),
    ensures
        ({
            let next = cur + direction(d);
            let r2 = r | (1u64 << (next as u64));
            &&& bit(blockers, next) ==> slide_progress(from, d, steps, blockers, r2, next, 0)
            &&& !bit(blockers, next) ==> slide_progress(from, d, steps, blockers, r2, next, n - 1)
        }),
{
    lemma_edge_step(cur, d);
    lemma_bit_laws();
    let next = cur + direction(d);
    let r2 = r | (1u64 << (next as u64));
    assert forall|t: int| 0 <= t < 64 implies #[trigger] bit(r2, t) == (bit(r, t) || t == next) by {
        assert(((1u64 << (next as u64)) >> (t as u64)) & 1 == 1 <==> t == next);
    }
    if bit(blockers, next) {
        assert forall|t: int| 0 <= t < 64 implies slides_to(from, d, steps, blockers, t) == (#[trigger] bit(r2, t)
            || slides_to(next, d, 0, blockers, t)) by {
            assert(slides_to(from, d, steps, blockers, t) == (bit(r, t) || slides_to(cur, d, n, blockers, t)));
            assert(bit(r2, t) == (bit(r, t) || t == next));
        }
    } else {
        assert forall|t: int| 0 <= t < 64 implies slides_to(from, d, steps, blockers, t) == (#[trigger] bit(r2, t)
            || slides_to(next, d, n - 1, blockers, t)) by {
            assert(slides_to(from, d, steps, blockers, t) == (bit(r, t) || slides_to(cur, d, n, blockers, t)));
            assert(bit(r2, t) == (bit(r, t) || t == next));
        }
    }
}

/// The squares reached by sliding from `from` in direction `d` for at most `steps` steps.
pub(crate) fn slide(from: Square, blockers: u64, d: usize, steps: i8) -> (r: u64)
    requires
        from.valid(),
        d < 8,
        0 <= steps <= edge_distance(from.0 as int, d as int),
    ensures
        forall|t: int| 0 <= t < 64 ==> #[trigger] bit(r, t) == slides_to(from.0 as int, d as int, steps as int, blockers, t),
{
    let dir = direction_at(d);
    let mut n = steps;
    let mut cur = from.0;
    let mut r: u64 = 0;
    proof {
        lemma_bit_laws();
        assert forall|t: int| 0 <= t < 64 implies slides_to(from.0 as int, d as int, steps as int, blockers, t) == (
            #[trigger] bit(r, t) || slides_to(cur as int, d as int, n as int, blockers, t)) by {
            assert((0u64 >> (t as u64)) & 1 == 0);
        }
    }
    while n > 0
        invariant
            0 <= cur < 64,
            0 <= n <= edge_distance(cur as int, d as int),
            d < 8,
            dir == direction(d as int),
            slide_progress(from.0 as int, d as int, steps as int, blockers, r, cur as int, n as int),
        decreases n,
    {
        proof {
            lemma_edge_step(cur as int, d as int);
            lemma_slide_advance(from.0 as int, d as int, steps as int, blockers, r, cur as int, n as int);
        }
        let next = cur + dir;
        r = r | (1u64 << (next as u64));
        let is_blocker = (blockers >> (next as u64)) & 1 == 1;
        proof {
            assert(is_blocker == bit(blockers, next as int));
        }
        cur = next;
        if is_blocker {
            n = 0;
        } else {
            n = n - 1;
        }
    }
    proof {
        assert forall|t: int| 0 <= t < 64 implies #[trigger] bit(r, t) == slides_to(from.0 as int, d as int, steps as int, blockers, t) by {
            assert(!slides_to(cur as int, d as int, 0, blockers, t));
        }
    }
    r
}

/// Finds relevant rook (`direction_offset` = 0) or bishop (`direction_offset` = 4) blockers.
pub fn rook_or_bishop_blockers(from: Square, direction_offset: usize) -> (r: BitBoard)
    requires
        from.valid(),
        direction_offset == 0 || direction_offset == 4,
    ensures
        forall|t: int| #[trigger] r.has(t) == relevant_blocker(from.0 as int, direction_offset as int, t),
{
    let mut bits: u64 = 0;
    let mut k: usize = 0;
    proof {
        lemma_bit_laws();
    }
    while k < 4
        invariant
            k <= 4,
            from.valid(),
            direction_offset == 0 || direction_offset == 4,
            forall|t: int| 0 <= t < 64 ==> #[trigger] bit(bits, t) == slides_upto(
                from.0 as int,
                direction_offset as int,
                k as int,
                1,
                0,
                t,
            ),
        decreases 4 - k,
    {
        let d = direction_offset + k;
        let steps = edge_distance_at(from, d);
        let ray = if steps > 0 {
            slide(from, 0, d, steps - 1)
        } else {
            0
        };
        let old_bits = bits;
        bits = bits | ray;
        proof {
            lemma_bit_laws();
            assert forall|t: int| 0 <= t < 64 implies #[trigger] bit(bits, t) == slides_upto(
                from.0 as int,
                direction_offset as int,
                k + 1,
                1,
                0,
                t,
            ) by {
                assert(bit(bits, t) == (bit(old_bits, t) || bit(ray, t)));
                if steps == 0 {
                    assert((0u64 >> (t as u64)) & 1 == 0);
                    assert(!slides_to(from.0 as int, d as int, edge_distance(from.0 as int, d as int) - 1, 0, t));
                }
            }
        }
        k = k + 1;
    }
    let r = BitBoard::new(bits);
    proof {
        assert forall|t: int| #[trigger] r.has(t) == relevant_blocker(from.0 as int, direction_offset as int, t) by {
            let o = direction_offset as int;
            let f = from.0 as int;
            reveal_with_fuel(slides_upto, 5);
            if relevant_blocker(f, o, t) {
                let j = if slides_to(f, o, edge_distance(f, o) - 1, 0, t) {
                    0
                } else if slides_to(f, o + 1, edge_distance(f, o + 1) - 1, 0, t) {
                    1
                } else if slides_to(f, o + 2, edge_distance(f, o + 2) - 1, 0, t) {
                    2int
                } else {
                    3int
                };
                lemma_slide_on_board(f, o + j, edge_distance(f, o + j) - 1, 0, t);
            }
        }
    }
    r
}

/// Computes rook (`direction_offset` = 0) or bishop (`direction_offset` = 4) moves.
pub fn gen_rook_or_bishop(from: Square, blockers: &BitBoard, direction_offset: usize) -> (r: BitBoard)
    requires
        from.valid(),
        direction_offset == 0 || direction_offset == 4,
    ensures
        forall|t: int| #[trigger] r.has(t) == slider_attacks(from.0 as int, blockers.0, direction_offset as int, t),
{
    let mut bits: u64 = 0;
    let mut k: usize = 0;
    proof {
        lemma_bit_laws();
    }
    while k < 4
        invariant
            k <= 4,
            from.valid(),
            direction_offset == 0 || direction_offset == 4,
            forall|t: int| 0 <= t < 64 ==> #[trigger] bit(bits, t) == slides_upto(
                from.0 as int,
                direction_offset as int,
                k as int,
                0,
                blockers.0,
                t,
            ),
        decreases 4 - k,
    {
        let d = direction_offset + k;
        let steps = edge_distance_at(from, d);
        let ray = slide(from, blockers.0, d, steps);
        let old_bits = bits;
        bits = bits | ray;
        proof {
            lemma_bit_laws();
            assert forall|t: int| 0 <= t < 64 implies #[trigger] bit(bits, t) == slides_upto(
                from.0 as int,
                direction_offset as int,
                k + 1,
                0,
                blockers.0,
                t,
            ) by {
                assert(bit(bits, t) == (bit(old_bits, t) || bit(ray, t)));
            }
        }
        k = k + 1;
    }
    let r = BitBoard::new(bits);
    proof {
        assert forall|t: int| #[trigger] r.has(t) == slider_attacks(from.0 as int, blockers.0, direction_offset as int, t) by {
            let o = direction_offset as int;
            let f = from.0 as int;
            reveal_with_fuel(slides_upto, 5);
            if slider_attacks(f, blockers.0, o, t) {
                let j = if slides_to(f, o, edge_distance(f, o), blockers.0, t) {
                    0
                } else if slides_to(f, o + 1, edge_distance(f, o + 1), blockers.0, t) {
                    1
                } else if slides_to(f, o + 2, edge_distance(f, o + 2), blockers.0, t) {
                    2int
                } else {
                    3int
                };
                lemma_slide_on_board(f, o + j, edge_distance(f, o + j), blockers.0, t);
            }

        }
    }
    r
}

/// Only the relevant blockers change the attacks of a slider: masking the blockers with (a superset
/// of) the relevant squares leaves the attacked squares as they were.
pub proof fn lemma_relevant_blockers_suffice(sq: int, offset: int, blockers: u64, relevant: u64, t: int)
    requires
        on_board(sq),
        offset == 0 || offset == 4,
        forall|u: int| #[trigger] relevant_blocker(sq, offset, u) ==> bit(relevant, u),
    ensures
        slider_attacks(sq, blockers & relevant, offset, t) == slider_attacks(sq, blockers, offset, t),
{
    assert forall|j: int| 0 <= j < 4 implies #[trigger] slides_to(sq, offset + j, edge_distance(sq, offset + j), blockers & relevant, t)
        == slides_to(sq, offset + j, edge_distance(sq, offset + j), blockers, t) by {
        let d = offset + j;
        assert forall|u: int| #[trigger] slides_to(sq, d, edge_distance(sq, d) - 1, 0, u) implies bit(relevant, u) by {
            assert(relevant_blocker(sq, offset, u));
        }
        lemma_slide_relevant(sq, d, edge_distance(sq, d), blockers, relevant, t);
    }
    assert(slides_to(sq, offset + 0, edge_distance(sq, offset + 0), blockers & relevant, t)
        == slides_to(sq, offset + 0, edge_distance(sq, offset + 0), blockers, t));
    assert(slides_to(sq, offset + 1, edge_distance(sq, offset + 1), blockers & relevant, t)
        == slides_to(sq, offset + 1, edge_distance(sq, offset + 1), blockers, t));
    assert(slides_to(sq, offset + 2, edge_distance(sq, offset + 2), blockers & relevant, t)
        == slides_to(sq, offset + 2, edge_distance(sq, offset + 2), blockers, t));
    assert(slides_to(sq, offset + 3, edge_distance(sq, offset + 3), blockers & relevant, t)
        == slides_to(sq, offset + 3, edge_distance(sq, offset + 3), blockers, t));
}

/// The squares whose occupancy matters to a rook on `square`.
pub fn relevant_rook_blockers(square: Square) -> (r: BitBoard)
    requires
        square.valid(),
    ensures
        forall|t: int| #[trigger] r.has(t) == relevant_blocker(square.0 as int, 0, t),
{
    rook_or_bishop_blockers(square, 0)
}

/// The squares whose occupancy matters to a bishop on `square`.
pub fn relevant_bishop_blockers(square: Square) -> (r: BitBoard)
    requires
        square.valid(),
    ensures
        forall|t: int| #[trigger] r.has(t) == relevant_blocker(square.0 as int, 4, t),
{
    rook_or_bishop_blockers(square, 4)
}

/// Returns possible rook moves at a square given blockers which are relevant.
pub fn get_rook_moves(square: Square, relevant_blockers: BitBoard) -> (r: BitBoard)
    requires
        square.valid(),
    ensures
        forall|t: int| #[trigger] r.has(t) == slider_attacks(square.0 as int, relevant_blockers.0, 0, t),
{
    gen_rook_or_bishop(square, &relevant_blockers, 0)
}

/// Returns possible bishop moves at a square given blockers which are relevant.
pub fn get_bishop_moves(square: Square, relevant_blockers: BitBoard) -> (r: BitBoard)
    requires
        square.valid(),
    ensures
        forall|t: int| #[trigger] r.has(t) == slider_attacks(square.0 as int, relevant_blockers.0, 4, t),
{
    gen_rook_or_bishop(square, &relevant_blockers, 4)
}

/// `n` is a subset of `d`.
pub open spec fn is_subset(n: u64, d: u64) -> bool {
    n & d == n
}

/// Subtraction modulo 2^64.
spec fn wsub(n: u64, d: u64) -> u64 {
    if n >= d {
        (n - d) as u64
    } else {
        (n - d + 0x1_0000_0000_0000_0000int) as u64
    }
}

/// The carry-rippler step: the least subset of `d` above `n`, or zero after `d` itself.
proof fn lemma_carry_rippler(n: u64, m: u64, d: u64)
    by (bit_vector)
    ensures
        n & d == n && n != d ==> (wsub(n, d) & d) > n,
        (wsub(n, d) & d) & d == wsub(n, d) & d,
        wsub(n, d) & d <= d,
        n == d ==> wsub(n, d) & d == 0,
        n & d == n && m & d == m && n < m ==> wsub(n, d) & d <= m,
        m & d == m ==> m <= d,
        0u64 & d == 0u64,
{
}

/// Lists every subset of `squares`, each once, in increasing order.
pub fn iterate_combinations(squares: BitBoard) -> (r: Vec<BitBoard>)
    ensures
        r@.len() > 0,
        forall|i: int| 0 <= i < r@.len() ==> is_subset(#[trigger] r@[i].0, squares.0),
        forall|i: int, j: int| 0 <= i < j < r@.len() ==> #[trigger] r@[i].0 < #[trigger] r@[j].0,
        forall|m: u64| #[trigger] is_subset(m, squares.0) ==> exists|i: int| 0 <= i < r@.len() && #[trigger] r@[i].0 == m,
{
    let d = squares.0;
    let mut v: Vec<BitBoard> = Vec::new();
    let mut cur: u64 = 0;
    proof {
        lemma_carry_rippler(0, 0, d);
    }
    loop
        invariant
            d == squares.0,
            is_subset(cur, d),
            forall|i: int| 0 <= i < v@.len() ==> is_subset(#[trigger] v@[i].0, d),
            forall|i: int, j: int| 0 <= i < j < v@.len() ==> #[trigger] v@[i].0 < #[trigger] v@[j].0,
            forall|i: int| 0 <= i < v@.len() ==> #[trigger] v@[i].0 < cur,
            forall|m: u64| #[trigger] is_subset(m, d) && m < cur ==> exists|i: int| 0 <= i < v@.len() && #[trigger] v@[i].0 == m,
        decreases d - cur,
    {
        let ghost v0 = v@;
        v.push(BitBoard::new(cur));
        proof {
            let k = v@.len() - 1;
            assert(v@[k].0 == cur);
            assert(forall|i: int| 0 <= i < v0.len() ==> v@[i] == v0[i]);
        }
        if cur == d {
            proof {
                assert forall|m: u64| #[trigger] is_subset(m, d) implies exists|i: int| 0 <= i < v@.len() && #[trigger] v@[i].0 == m by {
                    lemma_carry_rippler(cur, m, d);
                    if m == cur {
                        assert(v@[v@.len() - 1].0 == m);
                    } else {
                        assert(m < cur);
                        let i = choose|i: int| 0 <= i < v0.len() && #[trigger] v0[i].0 == m;
                        assert(v@[i].0 == m);
                    }
                }
            }
            return v;
        }
        let next = cur.wrapping_sub(d) & d;
        proof {
            lemma_carry_rippler(cur, cur, d);
            assert(cur.wrapping_sub(d) == wsub(cur, d));
            assert forall|m: u64| #[trigger] is_subset(m, d) && m < next implies exists|i: int| 0 <= i < v@.len() && #[trigger] v@[i].0 == m by {
                lemma_carry_rippler(cur, m, d);
                if m == cur {
                    assert(v@[v@.len() - 1].0 == m);
                } else if m < cur {
                    let i = choose|i: int| 0 <= i < v0.len() && #[trigger] v0[i].0 == m;
                    assert(v@[i].0 == m);
                }
            }
        }
        cur = next;
    }
}

/// Every square a slider attacks is on the board.
pub proof fn lemma_slider_attacks_on_board(from: int, blockers: u64, offset: int, t: int)
    requires
        on_board(from),
        offset == 0 || offset == 4,
        slider_attacks(from, blockers, offset, t),
    ensures
        on_board(t),
{
    if slides_to(from, offset, edge_distance(from, offset), blockers, t) {
        lemma_slide_on_board(from, offset, edge_distance(from, offset), blockers, t);
    } else if slides_to(from, offset + 1, edge_distance(from, offset + 1), blockers, t) {
        lemma_slide_on_board(from, offset + 1, edge_distance(from, offset + 1), blockers, t);
    } else if slides_to(from, offset + 2, edge_distance(from, offset + 2), blockers, t) {
        lemma_slide_on_board(from, offset + 2, edge_distance(from, offset + 2), blockers, t);
    } else {
        lemma_slide_on_board(from, offset + 3, edge_distance(from, offset + 3), blockers, t);
    }
}


/// No square is reached both along a diagonal and along a rank or file from the same square.
pub proof fn lemma_diagonal_orthogonal_apart(sq: int, blockers: u64, t: int)
    requires
        on_board(sq),
        slider_attacks(sq, blockers, 4, t),
    ensures
        !slider_attacks(sq, blockers, 0, t),
{
    let d = if slides_to(sq, 4, edge_distance(sq, 4), blockers, t) {
        4int
    } else if slides_to(sq, 5, edge_distance(sq, 5), blockers, t) {
        5int
    } else if slides_to(sq, 6, edge_distance(sq, 6), blockers, t) {
        6int
    } else {
        7int
    };
    lemma_slide_beyond(sq, d, edge_distance(sq, d), blockers, t);
    if slider_attacks(sq, blockers, 0, t) {
        let e = if slides_to(sq, 0, edge_distance(sq, 0), blockers, t) {
            0int
        } else if slides_to(sq, 1, edge_distance(sq, 1), blockers, t) {
            1int
        } else if slides_to(sq, 2, edge_distance(sq, 2), blockers, t) {
            2int
        } else {
            3int
        };
        lemma_slide_beyond(sq, e, edge_distance(sq, e), blockers, t);
        lemma_beyond_unique(sq, d, e, t);
    }
}

} // verus!
