//! The tuned parameters of the search.
use vstd::prelude::*;

verus! {

/// Parameters of the search's pruning and reductions.
#[derive(Clone, Copy)]
pub struct Tunable {
    /// Quiet move history is divided by this before each search.
    pub history_decay: i16,
    /// Internal iterative reduction applies from this depth.
    pub iir_min_depth: u8,
    /// How much internal iterative reduction reduces.
    pub iir_depth_reduction: u8,
    /// Futility pruning margin per ply.
    pub futility_margin: i32,
    /// Static null move pruning margin per ply.
    pub static_null_margin: i32,
    /// Static null move pruning margin per ply when improving.
    pub improving_static_null_margin: i32,
    /// Static null move pruning applies below this depth.
    pub static_null_min_depth: u8,
    /// Late move reduction applies from this move index.
    pub lmr_min_index: usize,
    /// Late move reduction applies from this depth.
    pub lmr_min_depth: u8,
    /// Late move reduction grows by one per this many plies.
    pub lmr_ply_divisor: u8,
    /// Late move reduction grows by one per this many moves.
    pub lmr_index_divisor: u8,
    /// Late move pruning keeps this many quiet moves plus the depth squared.
    pub lmp_base: u32,
    /// Null move pruning applies above this depth.
    pub nmp_min_depth: u8,
    /// Null move pruning's base reduction.
    pub nmp_base_reduction: u8,
    /// Null move pruning reduces one more ply per this many plies.
    pub nmp_ply_divisor: u8,
    /// The first aspiration window's half width.
    pub aspiration_window_start: i32,
    /// How much a failed aspiration window widens.
    pub aspiration_window_growth: i32,
    /// Pawn correction history is kept at this many times the centipawn error.
    pub pawn_correction_history_grain: i16,
    /// How much less late move reduction reduces when improving.
    pub lmr_not_improving: u8,
}

impl Tunable {
    /// Whether the divisors are not zero.
    pub open spec fn wf(self) -> bool {
        &&& self.history_decay > 0
        &&& self.lmr_ply_divisor != 0
        &&& self.lmr_index_divisor != 0
        &&& self.nmp_ply_divisor != 0
        &&& self.pawn_correction_history_grain > 0
    }
}

/// The tuned values of the search parameters.
pub open spec fn tuned(r: Tunable) -> bool {
    &&& r.history_decay == 9 && r.iir_min_depth == 5 && r.iir_depth_reduction == 2 && r.futility_margin == 116
    &&& r.static_null_margin == 65 && r.improving_static_null_margin == 45 && r.static_null_min_depth == 7
    &&& r.lmr_min_index == 6 && r.lmr_min_depth == 3 && r.lmr_ply_divisor == 10 && r.lmr_index_divisor == 10
    &&& r.lmp_base == 2 && r.nmp_min_depth == 2 && r.nmp_base_reduction == 3 && r.nmp_ply_divisor == 4
    &&& r.aspiration_window_start == 20 && r.aspiration_window_growth == 43
    &&& r.pawn_correction_history_grain == 256 && r.lmr_not_improving == 1
}

impl Default for Tunable {
    /// The tuned values.
    fn default() -> (r: Self)
        ensures
            r.wf(),
            tuned(r),
    {
        Tunable {
            history_decay: 9,
            iir_min_depth: 5,
            iir_depth_reduction: 2,
            futility_margin: 116,
            static_null_margin: 65,
            improving_static_null_margin: 45,
            static_null_min_depth: 7,
            lmr_min_index: 6,
            lmr_min_depth: 3,
            lmr_ply_divisor: 10,
            lmr_index_divisor: 10,
            lmp_base: 2,
            nmp_min_depth: 2,
            nmp_base_reduction: 3,
            nmp_ply_divisor: 4,
            aspiration_window_start: 20,
            aspiration_window_growth: 43,
            pawn_correction_history_grain: 256,
            lmr_not_improving: 1,
        }
    }
}

} // verus!
