//! The heuristics the search learns and prunes by: quiet move history, pawn correction history,
//! reductions and pruning margins.
use vstd::prelude::*;
use super::{Search, keeps_position, KILLER_MOVES, QUIET_HISTORY_SIZE, PAWN_CORRECTION_HISTORY_SIZE};
use super::alpha_beta::{MAX_SCORE, score_in_range};
use super::encoded_move::EncodedMove;
use super::eval::{Eval, trunc_div};
use super::eval_data::EvalNumber;
use super::search_params::Tunable;
use super::transposition::{NodeType, NodeValue};

verus! {

/// The history slot of a move for the side to move: black's slots first, then white's, each
/// numbered by the move's from and to squares.
pub open spec fn history_slot(white: bool, m: EncodedMove) -> int {
    (if white { QUIET_HISTORY_SIZE as int } else { 0 }) + (m.0 & 0xFFF) as int
}

/// The history bonus at a depth: the depth squared, at most `MAX_HISTORY`.
pub open spec fn depth_bonus(ply_remaining: int) -> int {
    if ply_remaining * ply_remaining < MAX_HISTORY {
        ply_remaining * ply_remaining
    } else {
        MAX_HISTORY as int
    }
}

/// The history with the entry at `slot` moved by `bonus`, pulled toward zero, the sum wrapping
/// around as `i16` does.
pub open spec fn pushed_entry(h: Seq<i16>, slot: int, bonus: int) -> Seq<i16> {
    h.update(slot, vstd::wrapping::i16_specs::wrapping_add(h[slot], gravity(h[slot] as int, bonus) as i16))
}

/// The history after the entry of each of the quiet moves, in order, is moved by `bonus`.
pub open spec fn pushed_entries(h: Seq<i16>, white: bool, quiets: Seq<EncodedMove>, bonus: int) -> Seq<i16>
    decreases quiets.len(),
{
    if quiets.len() == 0 {
        h
    } else {
        pushed_entry(pushed_entries(h, white, quiets.drop_last(), bonus), history_slot(white, quiets.last()), bonus)
    }
}

impl Search {
    /// Rewards a quiet move that reached beta: it becomes the killer move of its ply, its history
    /// rises by the depth squared (at most `MAX_HISTORY`) and that of the quiet moves searched
    /// before it falls as much, each pulled toward zero in proportion to its size.
    pub(crate) fn reward_quiet(&mut self, encoded_move_data: EncodedMove, quiets_evaluated: &Vec<EncodedMove>, ply_remaining: u8, ply_from_root: u8)
        requires
            old(self).wf(),
        ensures
            keeps_position(*old(self), *final(self)),
            final(self).transposition_table == old(self).transposition_table,
            final(self).pv == old(self).pv,
            final(self).killer_moves@ == if ply_from_root < KILLER_MOVES {
                old(self).killer_moves@.update(ply_from_root as int, encoded_move_data)
            } else {
                old(self).killer_moves@
            },
            final(self).quiet_history@ == pushed_entries(
                pushed_entry(
                    old(self).quiet_history@,
                    history_slot(old(self).board.white_to_move, encoded_move_data),
                    depth_bonus(ply_remaining as int),
                ),
                old(self).board.white_to_move,
                quiets_evaluated@,
                -depth_bonus(ply_remaining as int),
            ),
            final(self).pawn_correction_history == old(self).pawn_correction_history,
            final(self).highest_depth == old(self).highest_depth,
            final(self).quiescence_call_count == old(self).quiescence_call_count,
            final(self).node_count == old(self).node_count,
    {
        if (ply_from_root as usize) < KILLER_MOVES {
            self.killer_moves.set(ply_from_root as usize, encoded_move_data);
        }
        proof {
            assert(0 <= (ply_remaining as int) * (ply_remaining as int) <= 255 * 255) by (nonlinear_arith)
                requires
                    0 <= ply_remaining <= 255,
            ;
        }
        let square = (ply_remaining as i32) * (ply_remaining as i32);
        let history_bonus: i32 = if square < MAX_HISTORY { square } else { MAX_HISTORY };
        let side: usize = if self.board.white_to_move { QUIET_HISTORY_SIZE } else { 0 };
        let slot = side + encoded_move_data.without_flag() as usize;
        let current = self.quiet_history[slot];
        self.quiet_history.set(slot, current.wrapping_add(history_gravity(current, history_bonus)));
        let ghost start = *self;
        let ghost white = self.board.white_to_move;
        let ghost first = self.quiet_history@;
        proof {
            assert(history_bonus == depth_bonus(ply_remaining as int));
            assert(slot == history_slot(white, encoded_move_data));
            assert(first == pushed_entry(old(self).quiet_history@, slot as int, history_bonus as int));
            assert(quiets_evaluated@.take(0) =~= Seq::<EncodedMove>::empty());
        }
        let mut i: usize = 0;
        while i < quiets_evaluated.len()
            invariant
                i <= quiets_evaluated@.len(),
                keeps_position(*old(self), start),
                keeps_position(start, *self),
                start.transposition_table == old(self).transposition_table,
                start.pv == old(self).pv,
                self.transposition_table == start.transposition_table,
                self.pv == start.pv,
                self.quiet_history@.len() == 2 * QUIET_HISTORY_SIZE,
                side == 0 || side == QUIET_HISTORY_SIZE,
                -MAX_HISTORY <= history_bonus <= MAX_HISTORY,
                white == self.board.white_to_move,
                side == (if white { QUIET_HISTORY_SIZE } else { 0 }),
                self.quiet_history@ == pushed_entries(first, white, quiets_evaluated@.take(i as int), -history_bonus),
                self.killer_moves == start.killer_moves,
                self.pawn_correction_history == start.pawn_correction_history,
                self.highest_depth == start.highest_depth,
                self.quiescence_call_count == start.quiescence_call_count,
                self.node_count == start.node_count,
            decreases quiets_evaluated@.len() - i,
        {
            let previous_slot = side + quiets_evaluated[i].without_flag() as usize;
            let previous = self.quiet_history[previous_slot];
            self.quiet_history.set(previous_slot, previous.wrapping_add(history_gravity(previous, -history_bonus)));
            proof {
                let q = quiets_evaluated@.take(i + 1);
                assert(q.drop_last() =~= quiets_evaluated@.take(i as int));
                assert(q.last() == quiets_evaluated@[i as int]);
                assert(previous_slot == history_slot(white, quiets_evaluated@[i as int]));
            }
            i = i + 1;
        }
        proof {
            assert(quiets_evaluated@.take(i as int) =~= quiets_evaluated@);
        }
    }

    /// The static evaluation, replaced by the saved value where that is no checkmate and bounds it
    /// the right way, plus the pawn correction history's entry `correction_slot` in centipawns;
    /// within the score range.
    pub(crate) fn corrected_static_eval(&self, saved: Option<NodeValue>, correction_slot: usize) -> (r: EvalNumber)
        requires
            self.wf(),
            correction_slot < 2 * PAWN_CORRECTION_HISTORY_SIZE,
            saved matches Some(node) ==> node.value > i32::MIN,
        ensures
            score_in_range(r as int),
    {
        let mut static_eval = Eval::evaluate(&self.board);
        if let Some(node) = saved {
            let better = match node.node_type {
                NodeType::Exact => true,
                NodeType::Beta => node.value > static_eval,
                NodeType::Alpha => node.value < static_eval,
            };
            if !Self::score_is_checkmate(node.value) && better {
                static_eval = node.value;
            }
        }
        let correction = self.pawn_correction_history[correction_slot] / self.tunable.pawn_correction_history_grain;
        let corrected = static_eval as i64 + correction as i64;
        if corrected > MAX_SCORE as i64 {
            MAX_SCORE
        } else if corrected < -MAX_SCORE as i64 {
            -MAX_SCORE
        } else {
            corrected as EvalNumber
        }
    }

    /// Moves the pawn correction history's entry `correction_slot` toward the error of the static
    /// evaluation, by a weight growing with the depth, and keeps it within `CORRECTION_HISTORY_MAX`.
    pub(crate) fn update_correction(&mut self, correction_slot: usize, best_score: EvalNumber, static_eval: EvalNumber, ply_remaining: u8)
        requires
            old(self).wf(),
            correction_slot < 2 * PAWN_CORRECTION_HISTORY_SIZE,
        ensures
            keeps_position(*old(self), *final(self)),
            final(self).transposition_table == old(self).transposition_table,
            final(self).pv == old(self).pv,
            final(self).pawn_correction_history@ == old(self).pawn_correction_history@.update(
                correction_slot as int,
                corrected_entry(
                    old(self).pawn_correction_history@[correction_slot as int] as int,
                    best_score as int - static_eval as int,
                    old(self).tunable.pawn_correction_history_grain as int,
                    ply_remaining as int,
                ) as i16,
            ),
    {
        let error = best_score as i64 - static_eval as i64;
        let entry = self.pawn_correction_history[correction_slot] as i64;
        let grain = self.tunable.pawn_correction_history_grain as i64;
        let depth = ply_remaining as i64;
        proof {
            assert(-0x1_0000_0000 < error < 0x1_0000_0000);
            assert(0 < grain <= 32767);
            assert(-0x1_0000_0000 * 32767 < error * grain < 0x1_0000_0000 * 32767) by (nonlinear_arith)
                requires
                    -0x1_0000_0000 < error < 0x1_0000_0000,
                    0 < grain <= 32767,
            ;
            assert(0 <= depth * depth <= 255 * 255) by (nonlinear_arith)
                requires
                    0 <= depth <= 255,
            ;
        }
        let scaled_error = error * grain;
        let weight_by_depth = depth * depth + 2 * depth + 1;
        let new_weight: i64 = if weight_by_depth < 128 { weight_by_depth } else { 128 };
        proof {
            assert(-32768 * 1024 <= entry * (CORRECTION_HISTORY_WEIGHT_SCALE - new_weight) <= 32767 * 1024) by (nonlinear_arith)
                requires
                    -32768 <= entry <= 32767,
                    1 <= new_weight <= 128,
            ;
            assert(-0x1_0000_0000 * 32767 * 128 <= scaled_error * new_weight <= 0x1_0000_0000 * 32767 * 128) by (nonlinear_arith)
                requires
                    -0x1_0000_0000 * 32767 < scaled_error < 0x1_0000_0000 * 32767,
                    1 <= new_weight <= 128,
            ;
        }
        let blended = (entry * (CORRECTION_HISTORY_WEIGHT_SCALE - new_weight) + scaled_error * new_weight)
            / CORRECTION_HISTORY_WEIGHT_SCALE;
        let clamped = if blended > CORRECTION_HISTORY_MAX {
            CORRECTION_HISTORY_MAX
        } else if blended < -CORRECTION_HISTORY_MAX {
            -CORRECTION_HISTORY_MAX
        } else {
            blended
        };
        self.pawn_correction_history.set(correction_slot, clamped as i16);
    }
}


/// The largest quiet history bonus.
pub const MAX_HISTORY: i32 = 16384;

/// The scale of pawn correction history weights.
pub const CORRECTION_HISTORY_WEIGHT_SCALE: i64 = 1024;

/// The largest pawn correction history entry.
pub const CORRECTION_HISTORY_MAX: i64 = 16384;

/// How much a history entry of `current_value` changes for `history_bonus`: the bonus less the
/// entry's share of it, so that entries stay within `MAX_HISTORY`.
pub open spec fn gravity(current_value: int, history_bonus: int) -> int {
    history_bonus - trunc_div(current_value * history_bonus, MAX_HISTORY as int)
}

/// Changes a history entry of `current_value` by `history_bonus`, pulled toward zero.
pub fn history_gravity(current_value: i16, history_bonus: i32) -> (r: i16)
    requires
        -MAX_HISTORY <= history_bonus <= MAX_HISTORY,
    ensures
        r == gravity(current_value as int, history_bonus as int) as i16,
{
    proof {
        assert(-32768 * 16384 <= (current_value as int) * (history_bonus as int) <= 32768 * 16384) by (nonlinear_arith)
            requires
                -32768 <= current_value <= 32767,
                -16384 <= history_bonus <= 16384,
        ;
    }
    (history_bonus - (current_value as i32) * history_bonus / MAX_HISTORY) as i16
}

/// The new pawn correction entry: the old `entry` and the error scaled by `grain` blended by a
/// weight of the depth plus one squared (at most 128 of 1024), kept within
/// `CORRECTION_HISTORY_MAX`.
pub open spec fn corrected_entry(entry: int, error: int, grain: int, depth: int) -> int {
    let weight_by_depth = depth * depth + 2 * depth + 1;
    let weight = if weight_by_depth < 128 { weight_by_depth } else { 128 };
    let blended = trunc_div(entry * (1024 - weight) + error * grain * weight, 1024);
    if blended > 16384 {
        16384
    } else if blended < -16384 {
        -16384
    } else {
        blended
    }
}

/// The late move reduction: two plies, one more per `lmr_ply_divisor` plies remaining and one
/// more per `lmr_index_divisor` moves searched before (the move index taken modulo 256), at most
/// 255.
#[verifier::opaque]
pub open spec fn lmr_plies(t: Tunable, ply_remaining: int, index: int) -> int {
    let total = 2 + ply_remaining / (t.lmr_ply_divisor as int) + (index % 256) / (t.lmr_index_divisor as int);
    if total > 255 { 255 } else { total }
}

/// The late move reduction of the move at `index` with `ply_remaining` plies left.
pub(crate) fn late_move_reduction(tunable: &Tunable, ply_remaining: u8, index: usize) -> (r: u8)
    requires
        tunable.wf(),
    ensures
        r == lmr_plies(*tunable, ply_remaining as int, index as int),
{
    proof {
        reveal(lmr_plies);
        assert((index as u8) as int == (index as int) % 256) by (bit_vector);
    }
    2u8.saturating_add(ply_remaining / tunable.lmr_ply_divisor).saturating_add((index as u8) / tunable.lmr_index_divisor)
}

/// The null move reduction: `nmp_base_reduction` plies and one more per `nmp_ply_divisor` plies
/// remaining, at most 255.
#[verifier::opaque]
pub open spec fn nmp_plies(t: Tunable, ply_remaining: int) -> int {
    let total = t.nmp_base_reduction + ply_remaining / (t.nmp_ply_divisor as int);
    if total > 255 { 255 } else { total }
}

/// The null move reduction with `ply_remaining` plies left.
pub(crate) fn null_move_reduction(tunable: &Tunable, ply_remaining: u8) -> (r: u8)
    requires
        tunable.wf(),
    ensures
        r == nmp_plies(*tunable, ply_remaining as int),
{
    proof {
        reveal(nmp_plies);
    }
    tunable.nmp_base_reduction.saturating_add(ply_remaining / tunable.nmp_ply_divisor)
}

/// Whether `static_eval` less `margin` per ply remaining exceeds `beta`.
pub(crate) fn beyond_margin(static_eval: EvalNumber, margin: i32, ply_remaining: u8, beta: EvalNumber) -> (r: bool)
    ensures
        r == (static_eval - (ply_remaining as int) * (margin as int) > beta),
{
    proof {
        lemma_depth_times_margin(ply_remaining, margin);
    }
    (static_eval as i64) - (ply_remaining as i64) * (margin as i64) > beta as i64
}

/// Whether `static_eval` plus `margin` per ply remaining stays below `alpha`.
pub(crate) fn futile(static_eval: EvalNumber, margin: i32, ply_remaining: u8, alpha: EvalNumber) -> (r: bool)
    ensures
        r == (static_eval + (ply_remaining as int) * (margin as int) < alpha),
{
    proof {
        lemma_depth_times_margin(ply_remaining, margin);
    }
    (static_eval as i64) + (ply_remaining as i64) * (margin as i64) < alpha as i64
}

/// Whether one more quiet move than `quiets` exceeds `lmp_base` plus the depth squared.
pub(crate) fn too_many_quiets(quiets: usize, lmp_base: u32, ply_remaining: u8) -> (r: bool)
    ensures
        r == (quiets + 1 > lmp_base + (ply_remaining as int) * (ply_remaining as int)),
{
    proof {
        assert(0 <= (ply_remaining as int) * (ply_remaining as int) <= 255 * 255) by (nonlinear_arith)
            requires
                0 <= ply_remaining <= 255,
        ;
    }
    (quiets as u128) + 1 > (lmp_base as u128) + (ply_remaining as u128) * (ply_remaining as u128)
}

/// A depth times a margin fits easily in 64 bits.
proof fn lemma_depth_times_margin(ply_remaining: u8, margin: i32)
    ensures
        -0x1_0000_0000 * 256 <= (ply_remaining as int) * (margin as int) <= 0x1_0000_0000 * 256,
{
    assert(-0x1_0000_0000 * 256 <= (ply_remaining as int) * (margin as int) <= 0x1_0000_0000 * 256) by (nonlinear_arith)
        requires
            0 <= ply_remaining <= 255,
            -0x8000_0000 <= margin < 0x8000_0000,
    ;
}

} // verus!
