//! Evaluation: piece-square tables blended between middle game and end game by the game phase.
use vstd::prelude::*;
use crate::board::Board;
use crate::board::bit_board::{BitBoard, bit, popcount, lemma_bit_laws, lemma_clear_lowest};
use crate::board::piece::Piece;
use crate::board::square::Square;
use super::eval_data::{EvalNumber, PieceSquareTable, MIDDLE_GAME_PIECE_SQUARE_TABLES, END_GAME_PIECE_SQUARE_TABLES, PHASES};

verus! {

/// A square mirrored top to bottom: the same file on rank 7 - rank.
pub open spec fn mirror(s: int) -> int {
    (7 - s / 8) * 8 + s % 8
}

/// The sum of `table[kind * 64 + s]` over the squares `s < n` of `bits`, each square mirrored
/// first when `flip`.
pub open spec fn table_sum(table: Seq<i16>, kind: int, bits: u64, flip: bool, n: nat) -> int
    decreases n,
{
    if n == 0 {
        0
    } else {
        let s = n - 1;
        table_sum(table, kind, bits, flip, (n - 1) as nat) + if bit(bits, s) {
            table[kind * 64 + if flip {
                mirror(s)
            } else {
                s
            }] as int
        } else {
            0
        }
    }
}

/// The table score of the first `n` piece kinds of a side; white's squares are mirrored.
pub open spec fn side_score(table: Seq<i16>, b: Board, white: bool, n: nat) -> int
    decreases n,
{
    if n == 0 {
        0
    } else {
        side_score(table, b, white, (n - 1) as nat) + table_sum(
            table,
            n - 1,
            b.bit_boards@[(if white { 0int } else { 6int }) + n - 1].0,
            white,
            64,
        )
    }
}

/// White's table score minus black's.
pub open spec fn raw_score(table: Seq<i16>, b: Board) -> int {
    side_score(table, b, true, 6) - side_score(table, b, false, 6)
}

/// The game phase of the first `n` piece kinds: each kind's weight times the number of its pieces.
pub open spec fn phase_of(phases: Seq<i32>, b: Board, n: nat) -> int
    decreases n,
{
    if n == 0 {
        0
    } else {
        phase_of(phases, b, (n - 1) as nat) + phases[n - 1] * popcount(
            b.bit_boards@[n - 1].0 | b.bit_boards@[n + 5int].0,
        )
    }
}

/// The phase of the starting position: sixteen pawns, four knights, bishops and rooks, two queens.
pub open spec fn starting_phase(phases: Seq<i32>) -> int {
    phases[0] * 16 + phases[1] * 4 + phases[2] * 4 + phases[3] * 4 + phases[4] * 2
}

/// Division rounding toward zero.
pub open spec fn trunc_div(a: int, b: int) -> int {
    if a >= 0 {
        a / b
    } else {
        -((-a) / b)
    }
}

/// The blend of the middle game and end game scores by phase, the phase capped at the total.
pub open spec fn blend(phase: int, total: int, middle_game: int, end_game: int) -> int {
    let m = if phase < total {
        phase
    } else {
        total
    };
    trunc_div(middle_game * m + end_game * (total - m), total)
}

/// The evaluation for the side to move.
pub open spec fn evaluation(middle_game: Seq<i16>, end_game: Seq<i16>, phases: Seq<i32>, b: Board) -> int {
    let score = blend(phase_of(phases, b, 5), starting_phase(phases), raw_score(middle_game, b), raw_score(end_game, b));
    if b.white_to_move {
        score
    } else {
        -score
    }
}

/// `x` fits in an `i32`.
pub open spec fn fits_i32(x: int) -> bool {
    i32::MIN <= x <= i32::MAX
}

/// The number of pieces of kind `k` of both sides.
pub open spec fn kind_count(b: Board, k: int) -> int {
    popcount(b.bit_boards@[k].0 | b.bit_boards@[k + 6].0) as int
}

/// Five phase weights whose total, as it is summed up, fits in an `i32`, and is positive.
pub open spec fn phases_ok(phases: Seq<i32>) -> bool {
    &&& phases.len() == 5
    &&& fits_i32(phases[0] * 16)
    &&& fits_i32(phases[1] * 4)
    &&& fits_i32(phases[2] * 4)
    &&& fits_i32(phases[3] * 4)
    &&& fits_i32(phases[4] * 2)
    &&& fits_i32(phases[0] * 16 + phases[1] * 4)
    &&& fits_i32(phases[0] * 16 + phases[1] * 4 + phases[2] * 4)
    &&& fits_i32(phases[0] * 16 + phases[1] * 4 + phases[2] * 4 + phases[3] * 4)
    &&& fits_i32(starting_phase(phases))
    &&& starting_phase(phases) > 0
}

/// The phase of the position, as it is summed up kind by kind, fits in an `i32`.
pub open spec fn phase_fits(phases: Seq<i32>, b: Board) -> bool {
    &&& forall|k: int| 0 <= k < 5 ==> fits_i32(#[trigger] phases[k] * kind_count(b, k))
    &&& forall|n: nat| n <= 5 ==> fits_i32(#[trigger] phase_of(phases, b, n))
}

/// Weights of at most a million either way: every phase sum fits.
pub proof fn lemma_small_phases_fit(phases: Seq<i32>, b: Board)
    requires
        phases.len() == 5,
        forall|i: int| 0 <= i < 5 ==> -1_000_000 <= #[trigger] phases[i] <= 1_000_000,
    ensures
        phase_fits(phases, b),
{
    assert forall|k: int| 0 <= k < 5 implies fits_i32(#[trigger] phases[k] * kind_count(b, k)) by {
        lemma_bits_below_bound(b.bit_boards@[k].0 | b.bit_boards@[k + 6].0, 64);
        lemma_kind_product(phases[k] as int, kind_count(b, k));
    }
    assert forall|n: nat| n <= 5 implies fits_i32(#[trigger] phase_of(phases, b, n)) by {
        lemma_phase_bound(phases, b, n);
    }
}

/// A weight of at most a million either way times at most 64 pieces.
proof fn lemma_kind_product(w: int, c: int)
    requires
        -1_000_000 <= w <= 1_000_000,
        0 <= c <= 64,
    ensures
        -64_000_000 <= w * c <= 64_000_000,
{
    assert(-64_000_000 <= w * c <= 64_000_000) by (nonlinear_arith)
        requires
            -1_000_000 <= w <= 1_000_000,
            0 <= c <= 64,
    {
    }
}

/// The phase of the first `n` kinds with small weights.
proof fn lemma_phase_bound(phases: Seq<i32>, b: Board, n: nat)
    requires
        n <= 5,
        phases.len() == 5,
        forall|i: int| 0 <= i < 5 ==> -1_000_000 <= #[trigger] phases[i] <= 1_000_000,
    ensures
        -64_000_000 * n <= phase_of(phases, b, n) <= 64_000_000 * n,
    decreases n,
{
    if n > 0 {
        lemma_phase_bound(phases, b, (n - 1) as nat);
        lemma_bits_below_bound(b.bit_boards@[n - 1].0 | b.bit_boards@[n + 5int].0, 64);
        lemma_kind_product(phases[n - 1] as int, popcount(b.bit_boards@[n - 1].0 | b.bit_boards@[n + 5int].0) as int);
    }
}

/// No phase weight is negative.
pub open spec fn phases_nonnegative(phases: Seq<i32>) -> bool {
    forall|i: int| 0 <= i < 5 ==> 0 <= #[trigger] phases[i]
}

/// The blend of a score by a phase fits in an `i32`, its negation too, and so does the end game
/// share of the total phase: always so for a phase that is not negative.
pub open spec fn blend_fits(phase: int, total: int, middle_game: int, end_game: int) -> bool {
    phase >= 0 || (total - phase <= i32::MAX && i32::MIN < blend(phase, total, middle_game, end_game) <= i32::MAX)
}

/// A table sum is bounded by the largest table value times the number of squares.
proof fn lemma_table_sum_bound(table: Seq<i16>, kind: int, bits: u64, flip: bool, n: nat)
    ensures
        -32768 * n <= table_sum(table, kind, bits, flip, n) <= 32767 * n,
    decreases n,
{
    if n > 0 {
        lemma_table_sum_bound(table, kind, bits, flip, (n - 1) as nat);
    }
}

/// A side score is bounded by the extreme table values times 64 squares per kind.
proof fn lemma_side_score_bound(table: Seq<i16>, b: Board, white: bool, n: nat)
    ensures
        -2097152 * n <= side_score(table, b, white, n) <= 2097088 * n,
    decreases n,
{
    if n > 0 {
        lemma_side_score_bound(table, b, white, (n - 1) as nat);
        let bits = b.bit_boards@[(if white { 0int } else { 6int }) + n - 1].0;
        lemma_table_sum_bound(table, n - 1, bits, white, 64);
        assert(side_score(table, b, white, n) == side_score(table, b, white, (n - 1) as nat) + table_sum(table, n - 1, bits, white, 64));
    }
}

/// Squares below `b` that `bits` does not hold add nothing from `a` on.
proof fn lemma_table_sum_skip(table: Seq<i16>, kind: int, bits: u64, flip: bool, a: nat, b: nat)
    requires
        a <= b,
        forall|i: int| a <= i < b ==> !#[trigger] bit(bits, i),
    ensures
        table_sum(table, kind, bits, flip, b) == table_sum(table, kind, bits, flip, a),
    decreases b - a,
{
    if a < b {
        lemma_table_sum_skip(table, kind, bits, flip, a, (b - 1) as nat);
        assert(!bit(bits, b - 1));
    }
}

/// Evaluation functions.
pub struct Eval;

/// Bits below `n` number at most `n`.
proof fn lemma_bits_below_bound(x: u64, n: nat)
    ensures
        crate::board::bit_board::bits_below(x, n) <= n,
    decreases n,
{
    if n > 0 {
        lemma_bits_below_bound(x, (n - 1) as nat);
    }
}

/// A blend lies between the two scores it blends.
proof fn lemma_blend_bounds(phase: int, total: int, middle_game: int, end_game: int)
    requires
        total > 0,
        phase >= 0,
    ensures
        ({
            let lo = if middle_game < end_game { middle_game } else { end_game };
            let hi = if middle_game < end_game { end_game } else { middle_game };
            lo <= blend(phase, total, middle_game, end_game) <= hi
        }),
{
    let m = if phase < total { phase } else { total };
    let e = total - m;
    let num = middle_game * m + end_game * e;
    let lo = if middle_game < end_game { middle_game } else { end_game };
    let hi = if middle_game < end_game { end_game } else { middle_game };
    assert(lo * total <= num <= hi * total) by (nonlinear_arith)
        requires
            0 <= m <= total,
            e == total - m,
            num == middle_game * m + end_game * e,
            lo <= middle_game <= hi,
            lo <= end_game <= hi,
    {
        assert(lo * m <= middle_game * m <= hi * m);
        assert(lo * e <= end_game * e <= hi * e);
    }
    if num >= 0 {
        assert(lo <= num / total <= hi) by (nonlinear_arith)
            requires
                lo * total <= num <= hi * total,
                total > 0,
                num >= 0,
        {
        }
    } else {
        assert(-hi <= (-num) / total <= -lo) by (nonlinear_arith)
            requires
                lo * total <= num <= hi * total,
                total > 0,
                num < 0,
        {
        }
    }
}

/// With no negative weight the phase is not negative.
proof fn lemma_phase_nonnegative(phases: Seq<i32>, b: Board, n: nat)
    requires
        n <= 5,
        phases.len() == 5,
        phases_nonnegative(phases),
    ensures
        phase_of(phases, b, n) >= 0,
    decreases n,
{
    if n > 0 {
        lemma_phase_nonnegative(phases, b, (n - 1) as nat);
        assert(phases[n - 1] * popcount(b.bit_boards@[n - 1].0 | b.bit_boards@[n + 5int].0) >= 0) by (nonlinear_arith)
            requires
                phases[n - 1] >= 0,
                popcount(b.bit_boards@[n - 1].0 | b.bit_boards@[n + 5int].0) >= 0,
        {
        }
    }
}

/// The table scores and the phase read only the bit boards.
proof fn lemma_scores_read_pieces(table: Seq<i16>, phases: Seq<i32>, b1: Board, b2: Board, n: nat)
    requires
        b1.bit_boards@ == b2.bit_boards@,
    ensures
        side_score(table, b1, true, n) == side_score(table, b2, true, n),
        side_score(table, b1, false, n) == side_score(table, b2, false, n),
        phase_of(phases, b1, n) == phase_of(phases, b2, n),
    decreases n,
{
    if n > 0 {
        lemma_scores_read_pieces(table, phases, b1, b2, (n - 1) as nat);
    }
}

/// The evaluation is from the side to move's point of view: the same pieces with the other side
/// to move evaluate to the negated score.
pub proof fn lemma_evaluation_side_to_move(middle_game: Seq<i16>, end_game: Seq<i16>, phases: Seq<i32>, b1: Board, b2: Board)
    requires
        b1.bit_boards@ == b2.bit_boards@,
        b1.white_to_move != b2.white_to_move,
    ensures
        evaluation(middle_game, end_game, phases, b2) == -evaluation(middle_game, end_game, phases, b1),
{
    lemma_scores_read_pieces(middle_game, phases, b1, b2, 6);
    lemma_scores_read_pieces(end_game, phases, b1, b2, 6);
    lemma_scores_read_pieces(middle_game, phases, b1, b2, 5);
}

/// `m` is `b` with the colours swapped and the board turned top to bottom: each piece of one side
/// of `m` stands on the mirrored square of the same kind of piece of the other side of `b`.
pub open spec fn colours_mirrored(b: Board, m: Board) -> bool {
    forall|k: int, s: int|
        0 <= k < 12 && 0 <= s < 64 ==> #[trigger] bit(m.bit_boards@[k].0, s) == bit(b.bit_boards@[(k + 6) % 12].0, mirror(s))
}

/// One rank of a sum with mirrored squares is the mirrored rank of the sum without.
proof fn lemma_rank_sum_mirrored(table: Seq<i16>, kind: int, x: u64, y: u64, r: int, f: int)
    requires
        0 <= r < 8,
        0 <= f <= 8,
        forall|s: int| 0 <= s < 64 ==> #[trigger] bit(x, s) == bit(y, mirror(s)),
    ensures
        table_sum(table, kind, x, true, (r * 8 + f) as nat) - table_sum(table, kind, x, true, (r * 8) as nat)
            == table_sum(table, kind, y, false, ((7 - r) * 8 + f) as nat) - table_sum(table, kind, y, false, ((7 - r) * 8) as nat),
    decreases f,
{
    if f > 0 {
        lemma_rank_sum_mirrored(table, kind, x, y, r, f - 1);
        let s = r * 8 + f - 1;
        let t = (7 - r) * 8 + f - 1;
        assert(s / 8 == r && s % 8 == f - 1);
        assert(mirror(s) == t);
        assert(bit(x, s) == bit(y, t));
        assert(table_sum(table, kind, x, true, (s + 1) as nat) == table_sum(table, kind, x, true, s as nat) + if bit(x, s) {
            table[kind * 64 + t] as int
        } else {
            0
        });
        assert(table_sum(table, kind, y, false, (t + 1) as nat) == table_sum(table, kind, y, false, t as nat) + if bit(y, t) {
            table[kind * 64 + t] as int
        } else {
            0
        });
    }
}

/// A sum over mirrored squares of `x` is the plain sum over `y` when `y` holds the mirrored
/// squares of `x`.
proof fn lemma_table_sum_mirrored(table: Seq<i16>, kind: int, x: u64, y: u64)
    requires
        forall|s: int| 0 <= s < 64 ==> #[trigger] bit(x, s) == bit(y, mirror(s)),
    ensures
        table_sum(table, kind, x, true, 64) == table_sum(table, kind, y, false, 64),
{
    lemma_rank_sum_mirrored(table, kind, x, y, 0, 8);
    lemma_rank_sum_mirrored(table, kind, x, y, 1, 8);
    lemma_rank_sum_mirrored(table, kind, x, y, 2, 8);
    lemma_rank_sum_mirrored(table, kind, x, y, 3, 8);
    lemma_rank_sum_mirrored(table, kind, x, y, 4, 8);
    lemma_rank_sum_mirrored(table, kind, x, y, 5, 8);
    lemma_rank_sum_mirrored(table, kind, x, y, 6, 8);
    lemma_rank_sum_mirrored(table, kind, x, y, 7, 8);
    assert(table_sum(table, kind, x, true, 0) == 0);
    assert(table_sum(table, kind, y, false, 0) == 0);
}

/// The side scores of a board and of its colour mirror trade places.
proof fn lemma_side_scores_mirrored(table: Seq<i16>, b: Board, m: Board, n: nat)
    requires
        n <= 6,
        colours_mirrored(b, m),
    ensures
        side_score(table, m, true, n) == side_score(table, b, false, n),
        side_score(table, m, false, n) == side_score(table, b, true, n),
    decreases n,
{
    if n > 0 {
        lemma_side_scores_mirrored(table, b, m, (n - 1) as nat);
        let k = n - 1;
        assert forall|s: int| 0 <= s < 64 implies #[trigger] bit(m.bit_boards@[k].0, s) == bit(b.bit_boards@[k + 6].0, mirror(s)) by {
            assert((k + 6) % 12 == k + 6);
        }
        lemma_table_sum_mirrored(table, k, m.bit_boards@[k].0, b.bit_boards@[k + 6].0);
        assert forall|s: int| 0 <= s < 64 implies #[trigger] bit(b.bit_boards@[k].0, s) == bit(m.bit_boards@[k + 6].0, mirror(s)) by {
            let t = mirror(s);
            assert(0 <= t < 64 && mirror(t) == s);
            assert((k + 6 + 6) % 12 == k);
            assert(bit(m.bit_boards@[k + 6].0, t) == bit(b.bit_boards@[k].0, mirror(t)));
        }
        lemma_table_sum_mirrored(table, k, b.bit_boards@[k].0, m.bit_boards@[k + 6].0);
    }
}

/// Swapping the colours and turning the board top to bottom negates the table score.
pub proof fn lemma_raw_score_colours_mirrored(table: Seq<i16>, b: Board, m: Board)
    requires
        colours_mirrored(b, m),
    ensures
        raw_score(table, m) == -raw_score(table, b),
{
    lemma_side_scores_mirrored(table, b, m, 6);
}

/// One rank of a bit count is the mirrored rank of the count of the mirrored bits.
proof fn lemma_rank_count_mirrored(x: u64, y: u64, r: int, f: int)
    requires
        0 <= r < 8,
        0 <= f <= 8,
        forall|s: int| 0 <= s < 64 ==> #[trigger] bit(x, s) == bit(y, mirror(s)),
    ensures
        crate::board::bit_board::bits_below(x, (r * 8 + f) as nat) - crate::board::bit_board::bits_below(x, (r * 8) as nat)
            == crate::board::bit_board::bits_below(y, ((7 - r) * 8 + f) as nat) - crate::board::bit_board::bits_below(y, ((7 - r) * 8) as nat),
    decreases f,
{
    if f > 0 {
        lemma_rank_count_mirrored(x, y, r, f - 1);
        let s = r * 8 + f - 1;
        let t = (7 - r) * 8 + f - 1;
        assert(s / 8 == r && s % 8 == f - 1);
        assert(mirror(s) == t);
        assert(bit(x, s) == bit(y, t));
    }
}

/// Mirrored bits count the same.
proof fn lemma_popcount_mirrored(x: u64, y: u64)
    requires
        forall|s: int| 0 <= s < 64 ==> #[trigger] bit(x, s) == bit(y, mirror(s)),
    ensures
        popcount(x) == popcount(y),
{
    lemma_rank_count_mirrored(x, y, 0, 8);
    lemma_rank_count_mirrored(x, y, 1, 8);
    lemma_rank_count_mirrored(x, y, 2, 8);
    lemma_rank_count_mirrored(x, y, 3, 8);
    lemma_rank_count_mirrored(x, y, 4, 8);
    lemma_rank_count_mirrored(x, y, 5, 8);
    lemma_rank_count_mirrored(x, y, 6, 8);
    lemma_rank_count_mirrored(x, y, 7, 8);
}

/// The phase of a board and of its colour mirror are the same.
proof fn lemma_phase_mirrored(phases: Seq<i32>, b: Board, m: Board, n: nat)
    requires
        n <= 5,
        colours_mirrored(b, m),
    ensures
        phase_of(phases, m, n) == phase_of(phases, b, n),
    decreases n,
{
    if n > 0 {
        lemma_phase_mirrored(phases, b, m, (n - 1) as nat);
        let k = n - 1;
        let x = m.bit_boards@[k].0 | m.bit_boards@[k + 6].0;
        let y = b.bit_boards@[k].0 | b.bit_boards@[k + 6].0;
        lemma_bit_laws();
        assert forall|s: int| 0 <= s < 64 implies #[trigger] bit(x, s) == bit(y, mirror(s)) by {
            let t = mirror(s);
            assert(0 <= t < 64);
            assert((k + 6) % 12 == k + 6);
            assert((k + 6 + 6) % 12 == k);
            assert(bit(m.bit_boards@[k].0, s) == bit(b.bit_boards@[k + 6].0, t));
            assert(bit(m.bit_boards@[k + 6].0, s) == bit(b.bit_boards@[k].0, t));
        }
        lemma_popcount_mirrored(x, y);
    }
}

/// Blending negated scores gives the negated blend.
proof fn lemma_blend_negated(phase: int, total: int, middle_game: int, end_game: int)
    requires
        total > 0,
    ensures
        blend(phase, total, -middle_game, -end_game) == -blend(phase, total, middle_game, end_game),
{
    let m = if phase < total { phase } else { total };
    assert((-middle_game) * m + (-end_game) * (total - m) == -(middle_game * m + end_game * (total - m))) by (nonlinear_arith);
}

/// Swapping the colours, turning the board top to bottom and giving the move to the other side
/// leaves the evaluation as it was.
pub proof fn lemma_evaluation_colours_mirrored(middle_game: Seq<i16>, end_game: Seq<i16>, phases: Seq<i32>, b: Board, m: Board)
    requires
        colours_mirrored(b, m),
        m.white_to_move != b.white_to_move,
        starting_phase(phases) > 0,
    ensures
        evaluation(middle_game, end_game, phases, m) == evaluation(middle_game, end_game, phases, b),
{
    lemma_raw_score_colours_mirrored(middle_game, b, m);
    lemma_raw_score_colours_mirrored(end_game, b, m);
    lemma_phase_mirrored(phases, b, m, 5);
    lemma_blend_negated(phase_of(phases, b, 5), starting_phase(phases), raw_score(middle_game, b), raw_score(end_game, b));
}

impl Eval {
    /// Sums the middle game and end game values of kind `kind` on the squares of `bit_board`, each
    /// square mirrored when `flip`.
    fn scores_of(
        middle_game_piece_square_tables: &PieceSquareTable,
        end_game_piece_square_tables: &PieceSquareTable,
        kind: usize,
        bit_board: BitBoard,
        flip: bool,
    ) -> (r: (i32, i32))
        requires
            kind < 6,
        ensures
            r.0 == table_sum(middle_game_piece_square_tables@, kind as int, bit_board.0, flip, 64),
            r.1 == table_sum(end_game_piece_square_tables@, kind as int, bit_board.0, flip, 64),
    {
        let ghost mg = middle_game_piece_square_tables@;
        let ghost eg = end_game_piece_square_tables@;
        let mut remaining = bit_board;
        let mut middle_game_total: i32 = 0;
        let mut end_game_total: i32 = 0;
        let ghost mut lo: nat = 0;
        while remaining.is_not_empty()
            invariant
                kind < 6,
                lo <= 64,
                mg == middle_game_piece_square_tables@,
                eg == end_game_piece_square_tables@,
                forall|i: int| 0 <= i < 64 ==> #[trigger] bit(remaining.0, i) == (bit(bit_board.0, i) && i >= lo),
                middle_game_total == table_sum(mg, kind as int, bit_board.0, flip, lo),
                end_game_total == table_sum(eg, kind as int, bit_board.0, flip, lo),
            decreases remaining.0,
        {
            proof {
                lemma_clear_lowest(remaining.0);
            }
            let ghost before = remaining.0;
            let square = remaining.pop_square();
            let index = if flip {
                square.flip().usize()
            } else {
                square.usize()
            };
            proof {
                let s = square.0 as int;
                assert(s >= lo) by {
                    if s < lo {
                        assert(bit(before, s));
                    }
                }
                assert forall|i: int| lo <= i < s implies !bit(bit_board.0, i) by {
                    assert(!bit(before, i));
                }
                lemma_table_sum_skip(mg, kind as int, bit_board.0, flip, lo, s as nat);
                lemma_table_sum_skip(eg, kind as int, bit_board.0, flip, lo, s as nat);
                assert(bit(bit_board.0, s)) by {
                    assert(bit(before, s));
                }
                lemma_table_sum_bound(mg, kind as int, bit_board.0, flip, s as nat);
                lemma_table_sum_bound(eg, kind as int, bit_board.0, flip, s as nat);
                assert(index == if flip { mirror(s) } else { s });
                lo = (s + 1) as nat;
                assert forall|i: int| 0 <= i < 64 implies #[trigger] bit(remaining.0, i) == (bit(bit_board.0, i) && i >= lo) by {
                    assert(bit(remaining.0, i) == (bit(before, i) && i != s));
                }
            }
            let (middle_game_value, end_game_value) = Self::get_piece_value(
                middle_game_piece_square_tables,
                end_game_piece_square_tables,
                kind,
                index,
            );
            middle_game_total = middle_game_total + middle_game_value as i32;
            end_game_total = end_game_total + end_game_value as i32;
        }
        proof {
            lemma_bit_laws();
            assert forall|i: int| lo <= i < 64 implies !bit(bit_board.0, i) by {
                assert(bit(remaining.0, i) == (bit(bit_board.0, i) && i >= lo));
                assert((0u64 >> (i as u64)) & 1 == 0);
            }
            lemma_table_sum_skip(mg, kind as int, bit_board.0, flip, lo, 64);
            lemma_table_sum_skip(eg, kind as int, bit_board.0, flip, lo, 64);
        }
        (middle_game_total, end_game_total)
    }

    /// The middle game and end game table scores, white's minus black's.
    pub fn raw_evaluate_with_parameters(
        middle_game_piece_square_tables: &PieceSquareTable,
        end_game_piece_square_tables: &PieceSquareTable,
        board: &Board,
    ) -> (r: (EvalNumber, EvalNumber))
        ensures
            r.0 == raw_score(middle_game_piece_square_tables@, *board),
            r.1 == raw_score(end_game_piece_square_tables@, *board),
    {
        let ghost mg = middle_game_piece_square_tables@;
        let ghost eg = end_game_piece_square_tables@;
        let ghost b = *board;
        let mut total_middle_game_score: i32 = 0;
        let mut total_end_game_score: i32 = 0;
        let mut kind: usize = 0;
        while kind < 6
            invariant
                kind <= 6,
                mg == middle_game_piece_square_tables@,
                eg == end_game_piece_square_tables@,
                b == *board,
                total_middle_game_score == side_score(mg, b, true, kind as nat),
                total_end_game_score == side_score(eg, b, true, kind as nat),
            decreases 6 - kind,
        {
            let bit_board = *board.get_bit_board(Piece::from_index(kind));
            let (middle_game_value, end_game_value) = Self::scores_of(
                middle_game_piece_square_tables,
                end_game_piece_square_tables,
                kind,
                bit_board,
                true,
            );
            proof {
                lemma_side_score_bound(mg, b, true, (kind + 1) as nat);
                lemma_side_score_bound(eg, b, true, (kind + 1) as nat);
            }
            total_middle_game_score = total_middle_game_score + middle_game_value;
            total_end_game_score = total_end_game_score + end_game_value;
            kind = kind + 1;
        }
        let mut kind: usize = 0;
        while kind < 6
            invariant
                kind <= 6,
                mg == middle_game_piece_square_tables@,
                eg == end_game_piece_square_tables@,
                b == *board,
                total_middle_game_score == side_score(mg, b, true, 6) - side_score(mg, b, false, kind as nat),
                total_end_game_score == side_score(eg, b, true, 6) - side_score(eg, b, false, kind as nat),
            decreases 6 - kind,
        {
            let bit_board = *board.get_bit_board(Piece::from_index(kind + 6));
            let (middle_game_value, end_game_value) = Self::scores_of(
                middle_game_piece_square_tables,
                end_game_piece_square_tables,
                kind,
                bit_board,
                false,
            );
            proof {
                lemma_side_score_bound(mg, b, true, 6);
                lemma_side_score_bound(eg, b, true, 6);
                lemma_side_score_bound(mg, b, false, (kind + 1) as nat);
                lemma_side_score_bound(eg, b, false, (kind + 1) as nat);
            }
            total_middle_game_score = total_middle_game_score - middle_game_value;
            total_end_game_score = total_end_game_score - end_game_value;
            kind = kind + 1;
        }
        (total_middle_game_score, total_end_game_score)
    }

    /// Gets the phase.
    pub fn get_phase(board: &Board, phases: &[EvalNumber; 5]) -> (r: EvalNumber)
        requires
            phase_fits(phases@, *board),
        ensures
            r == phase_of(phases@, *board, 5),
            phases_nonnegative(phases@) ==> 0 <= r,
    {
        let mut phase: EvalNumber = 0;
        let mut k: usize = 0;
        while k < 5
            invariant
                k <= 5,
                phase_fits(phases@, *board),
                phase == phase_of(phases@, *board, k as nat),
                phases_nonnegative(phases@) ==> 0 <= phase,
            decreases 5 - k,
        {
            let pieces = board.get_bit_board(Piece::from_index(k)).or(*board.get_bit_board(Piece::from_index(k + 6)));
            let count = pieces.count();
            proof {
                lemma_bits_below_bound(pieces.0, 64);
                assert(count == kind_count(*board, k as int));
                assert(fits_i32(phases@[k as int] * kind_count(*board, k as int)));
                assert(fits_i32(phase_of(phases@, *board, (k + 1) as nat)));
                assert(0 <= phases@[k as int] ==> 0 <= phases@[k as int] * count) by (nonlinear_arith)
                    requires
                        0 <= count,
                {
                }
            }
            phase = phase + phases[k] * (count as EvalNumber);
            k = k + 1;
        }
        phase
    }

    /// The middle game and end game values of a piece kind on a square (mirrored for white).
    pub fn get_piece_value(
        middle_game_piece_square_tables: &PieceSquareTable,
        end_game_piece_square_tables: &PieceSquareTable,
        piece_index: usize,
        square_index: usize,
    ) -> (r: (i16, i16))
        requires
            piece_index < 6,
            square_index < 64,
        ensures
            r == (middle_game_piece_square_tables@[piece_index * 64 + square_index], end_game_piece_square_tables@[
                piece_index * 64 + square_index]),
    {
        let middle_game_piece_score = middle_game_piece_square_tables[piece_index * 64 + square_index];
        let end_game_piece_score = end_game_piece_square_tables[piece_index * 64 + square_index];
        (middle_game_piece_score, end_game_piece_score)
    }

    /// Blends the middle game and end game scores by phase.
    pub fn calculate_score(
        phase: EvalNumber,
        total_phase: EvalNumber,
        middle_game_score: EvalNumber,
        end_game_score: EvalNumber,
    ) -> (r: EvalNumber)
        requires
            total_phase > 0,
            blend_fits(phase as int, total_phase as int, middle_game_score as int, end_game_score as int),
        ensures
            r == blend(phase as int, total_phase as int, middle_game_score as int, end_game_score as int),
    {
        let middle_game_phase = if phase < total_phase { phase } else { total_phase };
        let end_game_phase = total_phase - middle_game_phase;
        let m = middle_game_score as i64;
        let e = end_game_score as i64;
        proof {
            assert(-0x4000_0000_0000_0000 <= m * middle_game_phase <= 0x4000_0000_0000_0000) by (nonlinear_arith)
                requires
                    -0x8000_0000 <= m <= 0x7FFF_FFFF,
                    -0x8000_0000 <= middle_game_phase <= 0x7FFF_FFFF,
            {
            }
            assert(-0x3FFF_FFFF_8000_0000 <= e * end_game_phase <= 0x3FFF_FFFF_0000_0001) by (nonlinear_arith)
                requires
                    -0x8000_0000 <= e <= 0x7FFF_FFFF,
                    0 <= end_game_phase <= 0x7FFF_FFFF,
            {
            }
            if phase >= 0 {
                lemma_blend_bounds(phase as int, total_phase as int, middle_game_score as int, end_game_score as int);
            }
        }
        let weighted = m * (middle_game_phase as i64) + e * (end_game_phase as i64);
        let score = weighted / (total_phase as i64);
        proof {
            assert(score == trunc_div(weighted as int, total_phase as int));
        }
        score as EvalNumber
    }
    /// Returns an estimated score of the position for the side playing, using the provided
    /// evaluation parameters.
    pub fn evaluate_with_parameters(
        middle_game_piece_square_tables: &PieceSquareTable,
        end_game_piece_square_tables: &PieceSquareTable,
        phases: &[EvalNumber; 5],
        board: &Board,
    ) -> (r: EvalNumber)
        requires
            phases_ok(phases@),
            phase_fits(phases@, *board),
            blend_fits(
                phase_of(phases@, *board, 5),
                starting_phase(phases@),
                raw_score(middle_game_piece_square_tables@, *board),
                raw_score(end_game_piece_square_tables@, *board),
            ),
        ensures
            r == evaluation(middle_game_piece_square_tables@, end_game_piece_square_tables@, phases@, *board),
            phase_of(phases@, *board, 5) >= 0 ==> -30_000_000 <= r <= 30_000_000,
    {
        let total_phase = phases[0] * 16 + phases[1] * 4 + phases[2] * 4 + phases[3] * 4 + phases[4] * 2;
        let (total_middle_game_score, total_end_game_score) = Self::raw_evaluate_with_parameters(
            middle_game_piece_square_tables,
            end_game_piece_square_tables,
            board,
        );
        let phase = Self::get_phase(board, phases);
        proof {
            lemma_side_score_bound(middle_game_piece_square_tables@, *board, true, 6);
            lemma_side_score_bound(middle_game_piece_square_tables@, *board, false, 6);
            lemma_side_score_bound(end_game_piece_square_tables@, *board, true, 6);
            lemma_side_score_bound(end_game_piece_square_tables@, *board, false, 6);
            if phase >= 0 {
                lemma_blend_bounds(phase as int, total_phase as int, total_middle_game_score as int, total_end_game_score as int);
            }
            assert(total_phase == starting_phase(phases@));
        }
        let score = Self::calculate_score(phase, total_phase, total_middle_game_score, total_end_game_score);
        proof {
            assert(total_phase == starting_phase(phases@));
            assert(score == blend(phase_of(phases@, *board, 5), starting_phase(phases@), raw_score(middle_game_piece_square_tables@, *board),
                raw_score(end_game_piece_square_tables@, *board)));
        }
        if board.white_to_move {
            score
        } else {
            -score
        }
    }

    /// Returns an estimated score of the position for the side playing.
    pub fn evaluate(board: &Board) -> (r: EvalNumber)
        ensures
            r == evaluation(MIDDLE_GAME_PIECE_SQUARE_TABLES@, END_GAME_PIECE_SQUARE_TABLES@, PHASES@, *board),
            -30_000_000 <= r <= 30_000_000,
    {
        proof {
            assert(PHASES@ == seq![0i32, 81, 114, 174, 430]);
            lemma_phase_nonnegative(PHASES@, *board, 5);
            lemma_small_phases_fit(PHASES@, *board);
        }
        Self::evaluate_with_parameters(&MIDDLE_GAME_PIECE_SQUARE_TABLES, &END_GAME_PIECE_SQUARE_TABLES, &PHASES, board)
    }

    /// The middle game and end game table scores with the tuned tables, white's minus black's.
    pub fn raw_evaluate(board: &Board) -> (r: (EvalNumber, EvalNumber))
        ensures
            r.0 == raw_score(MIDDLE_GAME_PIECE_SQUARE_TABLES@, *board),
            r.1 == raw_score(END_GAME_PIECE_SQUARE_TABLES@, *board),
    {
        Self::raw_evaluate_with_parameters(&MIDDLE_GAME_PIECE_SQUARE_TABLES, &END_GAME_PIECE_SQUARE_TABLES, board)
    }
}

} // verus!
