//! Looking for the best move.
use vstd::prelude::*;
use crate::board::Board;
use crate::board::zobrist::Zobrist;
use self::encoded_move::EncodedMove;
use self::pv::{Pv, MAX_PLY};
use self::repetition_table::RepetitionTable;
use self::search_params::{Tunable, tuned};
use self::transposition::{NodeValue, values_negatable};
use self::eval::trunc_div;

pub mod alpha_beta;
pub mod encoded_move;
pub mod eval;
pub mod eval_data;
pub mod heuristics;
pub mod move_ordering;
pub mod pv;
pub mod repetition_table;
pub mod search_params;
pub mod time_manager;
pub mod transposition;

pub use self::alpha_beta::DepthSearchInfo;
pub use self::time_manager::TimeManager;

verus! {

/// The number of killer moves kept, one per ply.
pub const KILLER_MOVES: usize = 64;

/// The number of quiet history entries per side: one per from and to square.
pub const QUIET_HISTORY_SIZE: usize = 4096;

/// The number of pawn correction history entries per side.
pub const PAWN_CORRECTION_HISTORY_SIZE: usize = 8192;

/// Looks for the best outcome in a position.
pub struct Search {
    /// The position searched.
    pub board: Board,
    /// The keys of the positions played before the current one.
    pub repetition_table: RepetitionTable,
    /// What earlier searches found, by key.
    pub transposition_table: Vec<Option<NodeValue>>,
    /// A quiet move that caused a cutoff, per ply.
    pub killer_moves: Vec<EncodedMove>,
    /// How often quiet moves caused cutoffs, per side (black first) and from and to square.
    pub quiet_history: Vec<i16>,
    /// How far the static evaluation was off, per side and pawn structure.
    pub pawn_correction_history: Vec<i16>,
    /// The best lines found.
    pub pv: Pv,
    /// The deepest ply reached.
    pub highest_depth: u8,
    /// How many times quiescence search was called.
    pub quiescence_call_count: u32,
    /// How many positions were searched.
    pub node_count: u64,
    /// Search parameters.
    pub tunable: Tunable,
}

impl Search {
    /// The tables have their sizes, the saved values can be negated, the parameters are usable.
    pub open spec fn wf(self) -> bool {
        &&& self.killer_moves@.len() == KILLER_MOVES
        &&& self.quiet_history@.len() == 2 * QUIET_HISTORY_SIZE
        &&& self.pawn_correction_history@.len() == 2 * PAWN_CORRECTION_HISTORY_SIZE
        &&& self.pv.wf()
        &&& self.tunable.wf()
        &&& values_negatable(self.transposition_table@)
    }

    /// Creates a new search.
    pub fn new(board: Board, transposition_capacity: usize) -> (r: Self)
        ensures
            r.wf(),
            r.board == board,
            r.repetition_table.positions@.len() == 0,
            r.transposition_table@.len() == transposition_capacity,
            forall|i: int| 0 <= i < transposition_capacity ==> #[trigger] r.transposition_table@[i] is None,
            forall|i: int| 0 <= i < KILLER_MOVES ==> #[trigger] r.killer_moves@[i] == EncodedMove(0),
            forall|i: int| 0 <= i < 2 * QUIET_HISTORY_SIZE ==> #[trigger] r.quiet_history@[i] == 0,
            forall|i: int| 0 <= i < 2 * PAWN_CORRECTION_HISTORY_SIZE ==> #[trigger] r.pawn_correction_history@[i] == 0,
            forall|i: int| 0 <= i < MAX_PLY * MAX_PLY ==> #[trigger] r.pv.pv_table@[i] == EncodedMove(0),
            forall|i: int| 0 <= i < MAX_PLY ==> #[trigger] r.pv.pv_length@[i] == 0,
            tuned(r.tunable),
            r.highest_depth == 0,
            r.quiescence_call_count == 0,
            r.node_count == 0,
    {
        proof {
            reveal(values_negatable);
        }
        Search {
            board,
            repetition_table: RepetitionTable::new(),
            transposition_table: empty_table(transposition_capacity),
            killer_moves: filled_moves(KILLER_MOVES),
            quiet_history: filled_i16(2 * QUIET_HISTORY_SIZE),
            pawn_correction_history: filled_i16(2 * PAWN_CORRECTION_HISTORY_SIZE),
            pv: Pv::new(),
            highest_depth: 0,
            quiescence_call_count: 0,
            node_count: 0,
            tunable: Tunable::default(),
        }
    }

    /// Sets an empty transposition table with the new capacity.
    pub fn resize_transposition_table(&mut self, transposition_capacity: usize)
        requires
            old(self).wf(),
        ensures
            final(self).wf(),
            final(self).transposition_table@.len() == transposition_capacity,
            forall|i: int| 0 <= i < transposition_capacity ==> #[trigger] final(self).transposition_table@[i] is None,
            final(self).board == old(self).board,
            final(self).repetition_table == old(self).repetition_table,
    {
        self.transposition_table = empty_table(transposition_capacity);
        proof {
            reveal(values_negatable);
        }
    }

    /// Returns the current board.
    pub fn board(&self) -> (r: &Board)
        ensures
            *r == self.board,
    {
        &self.board
    }

    /// A new position, with no earlier positions.
    pub fn new_board(&mut self, board: Board)
        requires
            old(self).wf(),
        ensures
            final(self).wf(),
            final(self).board == board,
            final(self).repetition_table.positions@.len() == 0,
            final(self).transposition_table == old(self).transposition_table,
    {
        self.board = board;
        self.repetition_table.clear();
    }

    /// Prepares another search: counters back to zero, no killer moves, quiet history decayed.
    pub fn clear_for_new_search(&mut self)
        requires
            old(self).wf(),
        ensures
            final(self).wf(),
            final(self).board == old(self).board,
            final(self).repetition_table == old(self).repetition_table,
            final(self).transposition_table == old(self).transposition_table,
            final(self).quiescence_call_count == 0,
            final(self).highest_depth == 0,
            forall|i: int| 0 <= i < KILLER_MOVES ==> #[trigger] final(self).killer_moves@[i] == EncodedMove(0),
            forall|i: int| 0 <= i < 2 * QUIET_HISTORY_SIZE ==> #[trigger] final(self).quiet_history@[i] as int
                == trunc_div(old(self).quiet_history@[i] as int, old(self).tunable.history_decay as int),
    {
        self.quiescence_call_count = 0;
        self.highest_depth = 0;
        self.node_count = 0;
        clear_moves(&mut self.killer_moves);
        let decay = self.tunable.history_decay;
        decay_all(&mut self.quiet_history, decay);
    }

    /// Forgets what was learned about the earlier game: histories and saved results.
    pub fn clear_cache_for_new_game(&mut self)
        requires
            old(self).wf(),
        ensures
            final(self).wf(),
            final(self).board == old(self).board,
            final(self).repetition_table == old(self).repetition_table,
            final(self).transposition_table@.len() == old(self).transposition_table@.len(),
            forall|i: int| 0 <= i < final(self).transposition_table@.len() ==> #[trigger] final(self).transposition_table@[i] is None,
            forall|i: int| 0 <= i < 2 * QUIET_HISTORY_SIZE ==> #[trigger] final(self).quiet_history@[i] == 0,
            forall|i: int| 0 <= i < 2 * PAWN_CORRECTION_HISTORY_SIZE ==> #[trigger] final(self).pawn_correction_history@[i] == 0,
    {
        zero_all(&mut self.pawn_correction_history);
        zero_all(&mut self.quiet_history);
        clear_table(&mut self.transposition_table);
        proof {
            reveal(values_negatable);
        }
    }

    /// Returns how many times quiescence search was called.
    pub fn quiescence_call_count(&self) -> (r: u32)
        ensures
            r == self.quiescence_call_count,
    {
        self.quiescence_call_count
    }
}

/// `new` is `old` after a search of its position: the same position and earlier positions, the
/// tables in shape and of the same sizes, and the same parameters.
pub open spec fn keeps_position(before: Search, after: Search) -> bool {
    &&& after.wf()
    &&& after.board == before.board
    &&& after.repetition_table.positions@ == before.repetition_table.positions@
    &&& after.transposition_table@.len() == before.transposition_table@.len()
    &&& after.tunable == before.tunable
}

/// A table of empty slots.
fn empty_table(capacity: usize) -> (r: Vec<Option<NodeValue>>)
    ensures
        r@.len() == capacity,
        forall|i: int| 0 <= i < capacity ==> #[trigger] r@[i] is None,
{
    let mut table: Vec<Option<NodeValue>> = Vec::new();
    let mut i: usize = 0;
    while i < capacity
        invariant
            i <= capacity,
            table@.len() == i,
            forall|j: int| 0 <= j < i ==> #[trigger] table@[j] is None,
        decreases capacity - i,
    {
        table.push(None);
        i = i + 1;
    }
    table
}

/// `n` empty moves.
fn filled_moves(n: usize) -> (r: Vec<EncodedMove>)
    ensures
        r@.len() == n,
        forall|i: int| 0 <= i < n ==> #[trigger] r@[i] == EncodedMove(0),
{
    let mut v: Vec<EncodedMove> = Vec::new();
    let mut i: usize = 0;
    while i < n
        invariant
            i <= n,
            v@.len() == i,
            forall|j: int| 0 <= j < i ==> #[trigger] v@[j] == EncodedMove(0),
        decreases n - i,
    {
        v.push(EncodedMove(0));
        i = i + 1;
    }
    v
}

/// `n` zeros.
fn filled_i16(n: usize) -> (r: Vec<i16>)
    ensures
        r@.len() == n,
        forall|i: int| 0 <= i < n ==> #[trigger] r@[i] == 0,
{
    let mut v: Vec<i16> = Vec::new();
    let mut i: usize = 0;
    while i < n
        invariant
            i <= n,
            v@.len() == i,
            forall|j: int| 0 <= j < i ==> #[trigger] v@[j] == 0,
        decreases n - i,
    {
        v.push(0);
        i = i + 1;
    }
    v
}

/// Sets every move to the empty move.
fn clear_moves(v: &mut Vec<EncodedMove>)
    ensures
        final(v)@.len() == old(v)@.len(),
        forall|i: int| 0 <= i < final(v)@.len() ==> #[trigger] final(v)@[i] == EncodedMove(0),
{
    let mut i: usize = 0;
    while i < v.len()
        invariant
            i <= v@.len(),
            v@.len() == old(v)@.len(),
            forall|j: int| 0 <= j < i ==> #[trigger] v@[j] == EncodedMove(0),
        decreases v@.len() - i,
    {
        v.set(i, EncodedMove(0));
        i = i + 1;
    }
}

/// Sets every number to zero.
fn zero_all(v: &mut Vec<i16>)
    ensures
        final(v)@.len() == old(v)@.len(),
        forall|i: int| 0 <= i < final(v)@.len() ==> #[trigger] final(v)@[i] == 0,
{
    let mut i: usize = 0;
    while i < v.len()
        invariant
            i <= v@.len(),
            v@.len() == old(v)@.len(),
            forall|j: int| 0 <= j < i ==> #[trigger] v@[j] == 0,
        decreases v@.len() - i,
    {
        v.set(i, 0);
        i = i + 1;
    }
}

/// Empties every slot.
fn clear_table(v: &mut Vec<Option<NodeValue>>)
    ensures
        final(v)@.len() == old(v)@.len(),
        forall|i: int| 0 <= i < final(v)@.len() ==> #[trigger] final(v)@[i] is None,
{
    let mut i: usize = 0;
    while i < v.len()
        invariant
            i <= v@.len(),
            v@.len() == old(v)@.len(),
            forall|j: int| 0 <= j < i ==> #[trigger] v@[j] is None,
        decreases v@.len() - i,
    {
        v.set(i, None);
        i = i + 1;
    }
}

/// Divides every number by `decay`, rounding toward zero.
fn decay_all(v: &mut Vec<i16>, decay: i16)
    requires
        decay > 0,
    ensures
        final(v)@.len() == old(v)@.len(),
        forall|i: int| 0 <= i < final(v)@.len() ==> #[trigger] final(v)@[i] as int == trunc_div(old(v)@[i] as int, decay as int),
{
    let mut i: usize = 0;
    while i < v.len()
        invariant
            decay > 0,
            i <= v@.len(),
            v@.len() == old(v)@.len(),
            forall|j: int| 0 <= j < i ==> #[trigger] v@[j] as int == trunc_div(old(v)@[j] as int, decay as int),
            forall|j: int| i <= j < v@.len() ==> #[trigger] v@[j] == old(v)@[j],
        decreases v@.len() - i,
    {
        let value = v[i];
        let decayed = value / decay;
        v.set(i, decayed);
        i = i + 1;
    }
}

} // verus!
