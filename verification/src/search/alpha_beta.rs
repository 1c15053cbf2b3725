//! The alpha-beta search: quiescence search, negamax with pruning, aspiration windows and
//! iterative deepening.
use vstd::prelude::*;
use crate::board::Board;
use crate::board::game_state::GameState;
use crate::board::piece::Piece;
use crate::move_generator::{MoveGenerator, lemma_describes_unique};
use crate::move_generator::maker::{
    make_move_allowed, made_bit_boards, made_en_passant, made_rights, make_captured, made_key,
    unmake_move_allowed, unmade_bit_boards, round_trip_ok, lemma_unmake_undoes_make,
};
use crate::move_generator::move_data::Move;
use crate::move_generator::playable::{is_playable, playable, lemma_generated_moves_round_trip};
use crate::move_generator::move_data::Flag;
use crate::move_generator::side_bits;
use super::{Search, keeps_position, KILLER_MOVES, QUIET_HISTORY_SIZE, PAWN_CORRECTION_HISTORY_SIZE};
use super::encoded_move::{EncodedMove, lemma_u16_fields};
use super::eval::trunc_div;
use super::move_ordering::MoveGuess;
use super::time_manager::{TimeManager, IMMEDIATE_CHECKMATE_SCORE};
use super::transposition::{NodeType, NodeValue, values_negatable};
use super::eval::{Eval, evaluation};
use super::heuristics::{late_move_reduction, null_move_reduction, beyond_margin, futile, too_many_quiets};
use super::eval_data::{EvalNumber, MIDDLE_GAME_PIECE_SQUARE_TABLES, END_GAME_PIECE_SQUARE_TABLES, PHASES};
use super::move_ordering::MoveOrderer;
use super::time_manager::{CHECKMATE_SCORE, is_mate_score};

verus! {

/// The highest score; the lowest is its negation.
pub const MAX_SCORE: EvalNumber = 2147483647;

/// The static evaluation of a position for the side to move.
pub open spec fn static_score(b: Board) -> int {
    evaluation(MIDDLE_GAME_PIECE_SQUARE_TABLES@, END_GAME_PIECE_SQUARE_TABLES@, PHASES@, b)
}

/// A score that can be negated and stays a score.
pub open spec fn score_in_range(s: int) -> bool {
    -MAX_SCORE <= s <= MAX_SCORE
}

/// The transposition table slot of the position: its key scaled to the table's length.
pub open spec fn table_index(s: Search) -> int {
    (s.board.game_state.zobrist_key.0 as int * s.transposition_table@.len() as int) / 0x1_0000_0000_0000_0000
}

/// The entry the transposition table holds for the position: the one in its slot, if that was
/// stored for a key with the same lower 32 bits.
pub open spec fn stored_entry(s: Search) -> Option<NodeValue> {
    match s.transposition_table@[table_index(s)] {
        Some(e) => if e.zobrist_key_32 as int == s.board.game_state.zobrist_key.0 % 0x1_0000_0000 {
            Some(e)
        } else {
            None
        },
        None => None,
    }
}

/// Whether a stored entry ends the search at once: searched at least as deep, and exact outside
/// the principal variation, or a bound on the side of the window it bounds.
pub open spec fn entry_cuts(e: NodeValue, ply_remaining: int, alpha: int, beta: int, is_not_pv_node: bool) -> bool {
    &&& e.ply_remaining >= ply_remaining
    &&& match e.node_type {
        NodeType::Exact => is_not_pv_node,
        NodeType::Beta => e.value >= beta,
        NodeType::Alpha => e.value <= alpha,
    }
}

/// The side to move has no legal move, and is in check exactly when `checked`.
pub open spec fn without_moves(b: Board, checked: bool) -> bool {
    exists|g: MoveGenerator| #[trigger] g.describes(b) && g.is_in_check == checked && forall|m: Move| !g.generates(false, m)
}

/// Whether negamax answers at once because the side to move has no legal move: the position is no
/// repetition below the root and is playable, its stored entry (if any) cuts nothing
/// off, some depth remains after any internal iterative reduction, and the node is in check or in
/// the principal variation (so that nothing prunes it), with no legal move, in check exactly when
/// `checked`.
pub open spec fn decided_without_moves(s: Search, ply_remaining: u8, ply_from_root: u8, alpha: i32, beta: i32, checked: bool) -> bool {
    &&& !(ply_from_root != 0 && s.repetition_table.positions@.contains(s.board.game_state.zobrist_key))
    &&& playable(s.board)
    &&& stored_entry(s) matches Some(e) ==> !entry_cuts(e, ply_remaining as int, alpha as int, beta as int, alpha + 1 == beta)
    &&& 1 <= ply_remaining
    &&& ply_remaining <= s.tunable.iir_min_depth || ply_remaining > s.tunable.iir_depth_reduction
    &&& alpha + 1 != beta || checked
    &&& without_moves(s.board, checked)
}

/// What the generator of a position says of it settles whether the side to move has no legal
/// move, in check or not.
pub proof fn lemma_without_moves(b: Board, mg: MoveGenerator)
    requires
        mg.describes(b),
    ensures
        without_moves(b, !mg.is_in_check) == false,
        without_moves(b, mg.is_in_check) == forall|m: Move| !mg.generates(false, m),
{
    if without_moves(b, !mg.is_in_check) {
        let g = choose|g: MoveGenerator| #[trigger] g.describes(b) && g.is_in_check == !mg.is_in_check
            && forall|m: Move| !g.generates(false, m);
        lemma_describes_unique(b, g, mg);
    }
    if without_moves(b, mg.is_in_check) {
        let g = choose|g: MoveGenerator| #[trigger] g.describes(b) && g.is_in_check == mg.is_in_check
            && forall|m: Move| !g.generates(false, m);
        lemma_describes_unique(b, g, mg);
    }
    if forall|m: Move| !mg.generates(false, m) {
        assert(mg.describes(b) && mg.is_in_check == mg.is_in_check);
    }
}

impl Search {
    /// Adds the position into the repetition table and makes a move.
    pub fn make_move(&mut self, move_data: &Move) -> (old_state: GameState)
        requires
            make_move_allowed(old(self).board, *move_data),
        ensures
            old_state == old(self).board.game_state,
            final(self).repetition_table.positions@ == old(self).repetition_table.positions@.push(
                old(self).board.game_state.zobrist_key,
            ),
            final(self).board.white_to_move == !old(self).board.white_to_move,
            final(self).board.full_move_counter == old(self).board.full_move_counter,
            final(self).board.bit_boards@ == made_bit_boards(old(self).board, *move_data),
            final(self).board.game_state.en_passant_square == made_en_passant(old(self).board, *move_data),
            final(self).board.game_state.castling_rights == made_rights(old(self).board, *move_data),
            final(self).board.game_state.half_move_clock == old(self).board.game_state.half_move_clock,
            final(self).board.game_state.captured == make_captured(old(self).board, *move_data),
            final(self).board.game_state.zobrist_key.0 == made_key(old(self).board, *move_data),
            final(self).same_tables(*old(self)),
    {
        self.repetition_table.push(self.board.position_zobrist_key());
        self.board.make_move(move_data)
    }

    /// Unmakes a move, then removes the position from the repetition table; the position removed
    /// is the one the move was made from.
    pub fn unmake_move(&mut self, move_data: &Move, old_state: &GameState)
        requires
            unmake_move_allowed(
                old(self).board.bit_boards@,
                !old(self).board.white_to_move,
                old(self).board.game_state.captured,
                *move_data,
                *old_state,
            ),
            old(self).repetition_table.positions@.len() > 0,
            old(self).repetition_table.positions@.last() == old_state.zobrist_key,
        ensures
            final(self).board.white_to_move == !old(self).board.white_to_move,
            final(self).board.game_state == *old_state,
            final(self).board.full_move_counter == old(self).board.full_move_counter,
            final(self).board.bit_boards@ == unmade_bit_boards(
                old(self).board.bit_boards@,
                !old(self).board.white_to_move,
                old(self).board.game_state.captured,
                *move_data,
                *old_state,
            ),
            final(self).repetition_table.positions@ == old(self).repetition_table.positions@.drop_last(),
            final(self).same_tables(*old(self)),
    {
        self.board.unmake_move(move_data, old_state);
        let _ = self.repetition_table.pop();
    }

    /// Whether the other fields than the position and the earlier positions are those of `other`.
    pub open spec fn same_tables(self, other: Search) -> bool {
        &&& self.transposition_table == other.transposition_table
        &&& self.killer_moves == other.killer_moves
        &&& self.quiet_history == other.quiet_history
        &&& self.pawn_correction_history == other.pawn_correction_history
        &&& self.pv == other.pv
        &&& self.highest_depth == other.highest_depth
        &&& self.quiescence_call_count == other.quiescence_call_count
        &&& self.node_count == other.node_count
        &&& self.tunable == other.tunable
    }

    /// Returns whether a score means forced checkmate.
    pub fn score_is_checkmate(score: EvalNumber) -> (r: bool)
        requires
            score > i32::MIN,
        ensures
            r == is_mate_score(score as int),
    {
        score >= CHECKMATE_SCORE || score <= -CHECKMATE_SCORE
    }

    /// Searches captures until the position is quiet, and returns the best score for the side to
    /// move found within `alpha` and `beta`, never below the static evaluation.
    pub fn quiescence_search(&mut self, alpha: EvalNumber, beta: EvalNumber) -> (r: EvalNumber)
        requires
            old(self).wf(),
            score_in_range(alpha as int),
            score_in_range(beta as int),
        ensures
            keeps_position(*old(self), *final(self)),
            score_in_range(r as int),
            r >= static_score(old(self).board),
            static_score(old(self).board) > alpha && static_score(old(self).board) >= beta ==> r == static_score(
                old(self).board,
            ),
    {
        self.quiescence_at(alpha, beta, 0)
    }

    /// Quiescence search `ply` captures deep; at the deepest ply, or on a position moves cannot be
    /// generated for, the static evaluation.
    fn quiescence_at(&mut self, alpha: EvalNumber, beta: EvalNumber, ply: u8) -> (r: EvalNumber)
        requires
            old(self).wf(),
            score_in_range(alpha as int),
            score_in_range(beta as int),
        ensures
            keeps_position(*old(self), *final(self)),
            score_in_range(r as int),
            r >= static_score(old(self).board),
            static_score(old(self).board) > alpha && static_score(old(self).board) >= beta ==> r == static_score(
                old(self).board,
            ),
        decreases 255 - ply,
    {
        self.quiescence_call_count = self.quiescence_call_count.wrapping_add(1);
        let mut alpha = alpha;
        let stand_pat = Eval::evaluate(&self.board);
        let mut best_score = stand_pat;
        if best_score > alpha {
            alpha = best_score;
            if best_score >= beta {
                return best_score;
            }
        }
        if ply == 255 || !is_playable(&self.board) {
            return best_score;
        }
        let move_generator = MoveGenerator::new(&self.board);
        let mut move_guesses = MoveOrderer::get_move_guesses_captures_only(self, &move_generator);
        let move_count = move_guesses.len();
        let ghost start = *self;
        let mut index: usize = 0;
        let mut cut = false;
        while !cut && index < move_count
            invariant
                index <= move_count,
                move_guesses@.len() == move_count,
                keeps_position(start, *self),
                start.wf(),
                playable(start.board),
                move_generator.describes(start.board),
                move_generator.wf(),
                forall|i: int| 0 <= i < move_count ==> #[trigger] move_guesses@[i].move_data.decodable()
                    && move_generator.generates(true, move_guesses@[i].move_data.spec_decode()),
                score_in_range(alpha as int),
                score_in_range(beta as int),
                score_in_range(best_score as int),
                best_score >= stand_pat,
                stand_pat == static_score(start.board),
                ply < 255,
            decreases move_count - index,
        {
            let ghost before_pick = move_guesses@;
            let guess = MoveOrderer::put_highest_guessed_move(&mut move_guesses, index, move_count);
            proof {
                assert forall|i: int| 0 <= i < move_count implies #[trigger] move_guesses@[i].move_data.decodable()
                    && move_generator.generates(true, move_guesses@[i].move_data.spec_decode()) by {
                    let j = choose|j: int| #[trigger] super::move_ordering::first_highest(before_pick, index as int, move_count as int, j)
                        && move_guesses@ == before_pick.update(index as int, before_pick[j]).update(j, before_pick[index as int]);
                    assert(before_pick[i].move_data.decodable());
                    assert(before_pick[j].move_data.decodable());
                    assert(before_pick[index as int].move_data.decodable());
                }
                assert(guess == move_guesses@[index as int]);
            }
            let move_data = guess.move_data.decode();
            let ghost b = self.board;
            proof {
                lemma_generated_moves_round_trip(b, move_generator, true, move_data);
                lemma_unmake_undoes_make(b, move_data);
            }
            let old_state = self.board.make_move(&move_data);
            let inner = self.quiescence_at(-beta, -alpha, ply + 1);
            self.board.unmake_move(&move_data, &old_state);
            proof {
                assert(self.board.bit_boards =~= b.bit_boards);
            }
            let score = -inner;
            if score > best_score {
                best_score = score;
                if score > alpha {
                    alpha = score;
                    if score >= beta {
                        cut = true;
                    }
                }
            }
            index = index + 1;
        }
        best_score
    }

    /// At the deepest plies searched: the checkmate or stalemate score when the side to move has no
    /// legal move, else the quiescence search.
    fn deepest_ply(&mut self, alpha: EvalNumber, beta: EvalNumber, ply_from_root: u8) -> (r: EvalNumber)
        requires
            old(self).wf(),
            playable(old(self).board),
            ply_from_root <= 253,
            score_in_range(alpha as int),
            score_in_range(beta as int),
        ensures
            keeps_position(*old(self), *final(self)),
            score_in_range(r as int),
            forall|checked: bool|
                #![trigger without_moves(old(self).board, checked)]
                without_moves(old(self).board, checked) ==> r == (if checked {
                    IMMEDIATE_CHECKMATE_SCORE + ply_from_root
                } else {
                    0
                }),
    {
        let move_generator = MoveGenerator::new(&self.board);
        let moves = move_generator.gen(false);
        proof {
            lemma_without_moves(old(self).board, move_generator);
            if moves@.len() > 0 {
                assert(moves@.contains(moves@[0]));
            }
        }
        if moves.len() == 0 {
            if move_generator.is_in_check() {
                return IMMEDIATE_CHECKMATE_SCORE + ply_from_root as EvalNumber;
            } else {
                return 0;
            }
        }
        self.quiescence_at(alpha, beta, ply_from_root)
    }

    /// Whether the side to move has a king.
    fn side_to_move_has_king(board: &Board) -> (r: bool)
        ensures
            r == (side_bits(*board, board.white_to_move, 5) != 0),
    {
        let king = if board.white_to_move { Piece::WhiteKing } else { Piece::BlackKing };
        board.get_bit_board(king).0 != 0
    }

    /// Makes `move_data`, searches the position after it with late move reduction and a null
    /// window where they apply, and unmakes it; returns the score for the side that moved.
    #[verifier::spinoff_prover]
    #[verifier::rlimit(100)]
    fn search_move(
        &mut self,
        time_manager: &TimeManager,
        move_data: Move,
        index: usize,
        is_capture: bool,
        ply_remaining: u8,
        ply_from_root: u8,
        alpha: EvalNumber,
        beta: EvalNumber,
    ) -> (r: EvalNumber)
        requires
            old(self).wf(),
            old(self).transposition_table@.len() > 0,
            round_trip_ok(old(self).board, move_data),
            ply_remaining >= 1,
            ply_from_root <= 252,
            -MAX_SCORE <= alpha < beta <= MAX_SCORE,
        ensures
            keeps_position(*old(self), *final(self)),
            score_in_range(r as int),
        decreases 4 * (254 - ply_from_root) + 2,
    {
        let ghost before = *self;
        proof {
            lemma_unmake_undoes_make(before.board, move_data);
        }
        let old_state = self.make_move(&move_data);
        let check_extension = Self::side_to_move_has_king(&self.board) && MoveGenerator::calculate_is_in_check(&self.board);
        let score = self.search_reply(time_manager, check_extension, index, is_capture, ply_remaining, ply_from_root, alpha, beta);
        self.unmake_move(&move_data, &old_state);
        proof {
            assert(self.board.bit_boards =~= before.board.bit_boards);
            assert(self.repetition_table.positions@ =~= before.repetition_table.positions@);
        }
        score
    }

    /// Searches the position after a move, for the side that moved: a reduced null window search
    /// for a late quiet move, then a null window search for any but the first move, and a full
    /// window search where the score may lie within `alpha` and `beta`.
    #[verifier::spinoff_prover]
    #[verifier::rlimit(100)]
    fn search_reply(
        &mut self,
        time_manager: &TimeManager,
        check_extension: bool,
        index: usize,
        is_capture: bool,
        ply_remaining: u8,
        ply_from_root: u8,
        alpha: EvalNumber,
        beta: EvalNumber,
    ) -> (r: EvalNumber)
        requires
            old(self).wf(),
            old(self).transposition_table@.len() > 0,
            ply_remaining >= 1,
            ply_from_root <= 252,
            -MAX_SCORE <= alpha < beta <= MAX_SCORE,
        ensures
            keeps_position(*old(self), *final(self)),
            score_in_range(r as int),
        decreases 4 * (254 - ply_from_root) + 1,
    {
        let extension: u8 = if check_extension { 1 } else { 0 };
        let next_depth: u8 = ply_remaining - 1 + extension;
        let mut normal_search = check_extension || is_capture || index < self.tunable.lmr_min_index
            || ply_remaining < self.tunable.lmr_min_depth;
        let mut score: EvalNumber = 0;
        if !normal_search {
            let reduction = late_move_reduction(&self.tunable, ply_remaining, index);
            let inner = self.negamax(time_manager, ply_remaining.saturating_sub(reduction), ply_from_root + 1, true, -alpha - 1, -alpha);
            score = -inner;
            if score > alpha {
                normal_search = true;
            }
        }
        if normal_search && index != 0 {
            let inner = self.negamax(time_manager, next_depth, ply_from_root + 1, true, -alpha - 1, -alpha);
            score = -inner;
            normal_search = alpha < score && score < beta;
        }
        if normal_search {
            let inner = self.negamax(time_manager, next_depth, ply_from_root + 1, true, -beta, -alpha);
            score = -inner;
        }
        score
    }

    /// Searches the position `ply_remaining` plies deep, `ply_from_root` plies from the root, and
    /// returns its score for the side to move, exact within `alpha` and `beta` and a bound outside;
    /// a repetition below the root scores 0.
    #[verifier::spinoff_prover]
    #[verifier::rlimit(100)]
    fn negamax(
        &mut self,
        time_manager: &TimeManager,
        ply_remaining: u8,
        ply_from_root: u8,
        allow_null_move: bool,
        alpha: EvalNumber,
        beta: EvalNumber,
    ) -> (r: EvalNumber)
        requires
            old(self).wf(),
            old(self).transposition_table@.len() > 0,
            ply_from_root <= 253,
            -MAX_SCORE <= alpha < beta <= MAX_SCORE,
        ensures
            keeps_position(*old(self), *final(self)),
            score_in_range(r as int),
            ply_from_root != 0 && old(self).repetition_table.positions@.contains(old(self).board.game_state.zobrist_key)
                ==> r == 0,
            forall|checked: bool|
                #![trigger without_moves(old(self).board, checked)]
                decided_without_moves(*old(self), ply_remaining, ply_from_root, alpha, beta, checked) ==> r == (if checked {
                    IMMEDIATE_CHECKMATE_SCORE + ply_from_root
                } else {
                    0
                }),
        decreases 4 * (254 - ply_from_root) + 4,
    {
        if ply_from_root > self.highest_depth {
            self.highest_depth = ply_from_root;
        }
        self.node_count = self.node_count.wrapping_add(1);
        self.pv.set_pv_length(ply_from_root, ply_from_root);
        let zobrist_key = self.board.position_zobrist_key();
        if ply_from_root != 0 && self.repetition_table.contains_anywhere(zobrist_key) {
            return 0;
        }
        if !is_playable(&self.board) {
            return self.quiescence_at(alpha, beta, ply_from_root);
        }
        if ply_from_root >= 253 {
            return self.deepest_ply(alpha, beta, ply_from_root);
        }
        let zobrist_index = zobrist_key.distribute(self.transposition_table.len()) as usize;
        let is_not_pv_node = alpha + 1 == beta;
        proof {
            assert(self.board == old(self).board);
            assert(self.transposition_table == old(self).transposition_table);
            assert(zobrist_index == table_index(*self));
            assert(stored_entry(*self) == stored_entry(*old(self)));
        }
        let (cutoff, table_move, saved) = self.probe(zobrist_index, ply_remaining, ply_from_root, alpha, beta, is_not_pv_node);
        if let Some(value) = cutoff {
            proof {
                assert forall|checked: bool| !#[trigger] decided_without_moves(*old(self), ply_remaining, ply_from_root, alpha, beta, checked) by {
                    assert(stored_entry(*old(self)) matches Some(e) && entry_cuts(e, ply_remaining as int, alpha as int, beta as int, alpha + 1 == beta));
                }
            }
            return value;
        }
        let hash_move = if ply_from_root == 0 { self.pv.root_best_move() } else { table_move };
        let mut ply_remaining = ply_remaining;
        if hash_move.is_none() && ply_remaining > self.tunable.iir_min_depth {
            ply_remaining = ply_remaining.saturating_sub(self.tunable.iir_depth_reduction);
        }
        if ply_remaining == 0 {
            return self.quiescence_at(alpha, beta, ply_from_root);
        }
        let move_generator = MoveGenerator::new(&self.board);
        proof {
            lemma_without_moves(old(self).board, move_generator);
        }
        let sides: u64 = 2;
        let pawn_index = self.board.pawn_zobrist_key().modulo(sides) as usize;
        let side: usize = if self.board.white_to_move { PAWN_CORRECTION_HISTORY_SIZE } else { 0 };
        let correction_slot = side + pawn_index;
        let static_eval = self.corrected_static_eval(saved, correction_slot);
        let in_check = move_generator.is_in_check();
        if is_not_pv_node && !in_check {
            let pruned = self.prune(time_manager, &move_generator, static_eval, ply_remaining, ply_from_root, allow_null_move, beta);
            if let Some(value) = pruned {
                return value;
            }
        }
        let killer_move = if (ply_from_root as usize) < KILLER_MOVES {
            self.killer_moves[ply_from_root as usize]
        } else {
            EncodedMove(EncodedMove::NONE)
        };
        let move_guesses = MoveOrderer::get_move_guesses(self, &move_generator, hash_move, killer_move);
        if move_guesses.len() == 0 {
            if in_check {
                return IMMEDIATE_CHECKMATE_SCORE + ply_from_root as EvalNumber;
            } else {
                return 0;
            }
        }
        proof {
            assert(move_guesses@[0].move_data.decodable());
        }
        let (best_move, best_score, node_type, stopped) = self.search_moves(
            time_manager,
            move_guesses,
            &move_generator,
            ply_remaining,
            ply_from_root,
            alpha,
            beta,
            static_eval,
            is_not_pv_node,
        );
        if stopped {
            return 0;
        }
        if !in_check && !Self::score_is_checkmate(best_score) {
            let loud_flag = matches!(
                best_move.flag(),
                Flag::QueenPromotion | Flag::RookPromotion | Flag::BishopPromotion | Flag::KnightPromotion | Flag::EnPassant
            );
            let not_loud_move = best_move.is_none() || (!loud_flag && !move_generator.enemy_piece_bit_board().get(&best_move.to()));
            let improves = match node_type {
                NodeType::Beta => best_score > static_eval,
                NodeType::Alpha => best_score < static_eval,
                NodeType::Exact => true,
            };
            if not_loud_move && improves {
                self.update_correction(correction_slot, best_score, static_eval, ply_remaining);
            }
        }
        proof {
            reveal(values_negatable);
        }
        self.transposition_table.set(
            zobrist_index,
            Some(
                NodeValue {
                    zobrist_key_32: zobrist_key.lower_u32(),
                    ply_remaining,
                    node_type,
                    value: best_score,
                    transposition_move: best_move,
                },
            ),
        );
        proof {
            reveal(values_negatable);
        }
        best_score
    }

    /// Looks the position up in the transposition table at `zobrist_index`: a saved value deep
    /// enough that bounds the score the right way is returned at once (exact values only in null
    /// window nodes), and otherwise a saved entry for the position gives its move and the entry.
    fn probe(
        &mut self,
        zobrist_index: usize,
        ply_remaining: u8,
        ply_from_root: u8,
        alpha: EvalNumber,
        beta: EvalNumber,
        is_not_pv_node: bool,
    ) -> (r: (Option<EvalNumber>, EncodedMove, Option<NodeValue>))
        requires
            old(self).wf(),
            zobrist_index < old(self).transposition_table@.len(),
            ply_from_root <= 252,
        ensures
            keeps_position(*old(self), *final(self)),
            r.0 matches Some(value) ==> score_in_range(value as int),
            r.2 matches Some(node) ==> node.value > i32::MIN,
            zobrist_index == table_index(*old(self)) ==> (r.0 is Some <==> (stored_entry(*old(self)) matches Some(e)
                && entry_cuts(e, ply_remaining as int, alpha as int, beta as int, is_not_pv_node))),
    {
        let zobrist_key = self.board.position_zobrist_key();
        let slot = self.transposition_table[zobrist_index];
        proof {
            reveal(values_negatable);
            assert(slot == self.transposition_table@[zobrist_index as int]);
        }
        if let Some(entry) = slot {
            if entry.zobrist_key_32 == zobrist_key.lower_u32() {
                if entry.ply_remaining >= ply_remaining {
                    let usable = match entry.node_type {
                        NodeType::Exact => is_not_pv_node,
                        NodeType::Beta => entry.value >= beta,
                        NodeType::Alpha => entry.value <= alpha,
                    };
                    if usable {
                        self.pv.update_move(ply_from_root, entry.transposition_move);
                        return (Some(entry.value), entry.transposition_move, Some(entry));
                    }
                }
                return (None, entry.transposition_move, Some(entry));
            }
        }
        (None, EncodedMove(EncodedMove::NONE), None)
    }

    /// Static null move pruning and null move pruning: the score to return at once, if either
    /// applies.
    #[verifier::spinoff_prover]
    #[verifier::rlimit(100)]
    fn prune(
        &mut self,
        time_manager: &TimeManager,
        move_generator: &MoveGenerator,
        static_eval: EvalNumber,
        ply_remaining: u8,
        ply_from_root: u8,
        allow_null_move: bool,
        beta: EvalNumber,
    ) -> (r: Option<EvalNumber>)
        requires
            old(self).wf(),
            old(self).transposition_table@.len() > 0,
            ply_from_root <= 252,
            -MAX_SCORE < beta <= MAX_SCORE,
            score_in_range(static_eval as int),
        ensures
            keeps_position(*old(self), *final(self)),
            r matches Some(value) ==> score_in_range(value as int),
        decreases 4 * (254 - ply_from_root) + 1,
    {
        if ply_remaining < self.tunable.static_null_min_depth && beyond_margin(
            static_eval,
            self.tunable.static_null_margin,
            ply_remaining,
            beta,
        ) {
            return Some(static_eval);
        }
        if allow_null_move && ply_remaining > self.tunable.nmp_min_depth && static_eval >= beta
            && move_generator.friendly_pawns().count() as u64 + 1 != move_generator.friendly_pieces().count() as u64 {
            let ghost before = *self;
            let reduction = null_move_reduction(&self.tunable, ply_remaining);
            let old_state = self.board.make_null_move();
            let inner = self.negamax(time_manager, ply_remaining.saturating_sub(reduction), ply_from_root + 1, false, -beta, -beta + 1);
            self.board.unmake_null_move(&old_state);
            proof {
                assert(self.board.bit_boards =~= before.board.bit_boards);
            }
            let score = -inner;
            if score >= beta {
                return Some(score);
            }
        }
        None
    }

    /// Searches the moves of `move_guesses`, highest guess first, until one reaches `beta` or the
    /// rest are pruned; returns the best move, its score, what the score bounds, and whether the
    /// search was stopped.
    #[verifier::spinoff_prover]
    #[verifier::rlimit(100)]
    fn search_moves(
        &mut self,
        time_manager: &TimeManager,
        move_guesses: Vec<MoveGuess>,
        move_generator: &MoveGenerator,
        ply_remaining: u8,
        ply_from_root: u8,
        alpha: EvalNumber,
        beta: EvalNumber,
        static_eval: EvalNumber,
        is_not_pv_node: bool,
    ) -> (r: (EncodedMove, EvalNumber, NodeType, bool))
        requires
            old(self).wf(),
            old(self).transposition_table@.len() > 0,
            playable(old(self).board),
            move_generator.describes(old(self).board),
            move_generator.wf(),
            move_guesses@.len() > 0,
            forall|i: int| 0 <= i < move_guesses@.len() ==> #[trigger] move_guesses@[i].move_data.decodable()
                && move_generator.generates(false, move_guesses@[i].move_data.spec_decode()),
            ply_remaining >= 1,
            ply_from_root <= 252,
            -MAX_SCORE <= alpha < beta <= MAX_SCORE,
        ensures
            keeps_position(*old(self), *final(self)),
            score_in_range(r.1 as int),
            r.0.decodable(),
        decreases 4 * (254 - ply_from_root) + 3,
    {
        let mut move_guesses = move_guesses;
        let move_count = move_guesses.len();
        let in_check = move_generator.is_in_check();
        let ghost start = *self;
        let mut alpha = alpha;
        let mut node_type = NodeType::Alpha;
        let mut best_move = EncodedMove(EncodedMove::NONE);
        let mut best_score: EvalNumber = -MAX_SCORE;
        let mut quiets_evaluated: Vec<EncodedMove> = Vec::new();
        let mut index: usize = 0;
        let mut done = false;
        proof {
            lemma_u16_fields();
        }
        while !done && index < move_count
            invariant
                index <= move_count,
                move_guesses@.len() == move_count,
                keeps_position(*old(self), start),
                keeps_position(start, *self),
                start.wf(),
                start.transposition_table@.len() > 0,
                playable(start.board),
                move_generator.describes(start.board),
                move_generator.wf(),
                in_check == move_generator.is_in_check,
                forall|i: int| 0 <= i < move_count ==> #[trigger] move_guesses@[i].move_data.decodable()
                    && move_generator.generates(false, move_guesses@[i].move_data.spec_decode()),
                -MAX_SCORE <= alpha <= MAX_SCORE,
                -MAX_SCORE < beta <= MAX_SCORE,
                !done ==> alpha < beta,
                score_in_range(best_score as int),
                best_move.decodable(),
                quiets_evaluated@.len() <= index,
                ply_remaining >= 1,
                ply_from_root <= 252,
            decreases move_count - index,
        {
            let ghost before_pick = move_guesses@;
            let guess = MoveOrderer::put_highest_guessed_move(&mut move_guesses, index, move_count);
            proof {
                assert forall|i: int| 0 <= i < move_count implies #[trigger] move_guesses@[i].move_data.decodable()
                    && move_generator.generates(false, move_guesses@[i].move_data.spec_decode()) by {
                    let j = choose|j: int| #[trigger] super::move_ordering::first_highest(before_pick, index as int, move_count as int, j)
                        && move_guesses@ == before_pick.update(index as int, before_pick[j]).update(j, before_pick[index as int]);
                    assert(before_pick[i].move_data.decodable());
                    assert(before_pick[j].move_data.decodable());
                    assert(before_pick[index as int].move_data.decodable());
                }
                assert(guess == move_guesses@[index as int]);
            }
            let encoded_move_data = guess.move_data;
            let move_data = encoded_move_data.decode();
            proof {
                lemma_generated_moves_round_trip(self.board, *move_generator, false, move_data);
            }
            let is_capture = move_generator.enemy_piece_bit_board().get(&move_data.to);
            let score = self.search_move(time_manager, move_data, index, is_capture, ply_remaining, ply_from_root, alpha, beta);
            if ply_remaining > 1 && time_manager.hard_stop_inner_search(self.node_count) {
                return (best_move, 0, node_type, true);
            }
            if score > best_score {
                best_score = score;
                best_move = encoded_move_data;
                if score > alpha {
                    alpha = score;
                    self.pv.update_move(ply_from_root, encoded_move_data);
                    node_type = NodeType::Exact;
                    if score >= beta {
                        if !is_capture {
                            self.reward_quiet(encoded_move_data, &quiets_evaluated, ply_remaining, ply_from_root);
                        }
                        node_type = NodeType::Beta;
                        done = true;
                    }
                }
            }
            if !done && !is_capture {
                if is_not_pv_node && !in_check {
                    if futile(static_eval, self.tunable.futility_margin, ply_remaining, alpha) {
                        done = true;
                    } else if too_many_quiets(quiets_evaluated.len(), self.tunable.lmp_base, ply_remaining) {
                        done = true;
                    }
                }
                if !done {
                    quiets_evaluated.push(encoded_move_data);
                }
            }
            index = index + 1;
        }
        (best_move, best_score, node_type, false)
    }


    /// Searches `depth` plies deep, first in a window around `best_score` that widens on the side
    /// it fails, at most four times, then with the full window.
    #[verifier::spinoff_prover]
    fn aspiration_search(&mut self, time_manager: &TimeManager, best_score: EvalNumber, depth: u8) -> (r: EvalNumber)
        requires
            old(self).wf(),
            old(self).transposition_table@.len() > 0,
            score_in_range(best_score as int),
        ensures
            keeps_position(*old(self), *final(self)),
            score_in_range(r as int),
    {
        if depth > 2 {
            let low = saturating_sum(best_score as i64 - self.tunable.aspiration_window_start as i64);
            let mut alpha = if low < -MAX_SCORE { -MAX_SCORE } else { low };
            let mut beta = saturating_sum(best_score as i64 + self.tunable.aspiration_window_start as i64);
            let mut attempt: u8 = 0;
            while attempt < 4 && alpha < beta
                invariant
                    keeps_position(*old(self), *self),
                    old(self).transposition_table@.len() > 0,
                    -MAX_SCORE <= alpha,
                decreases 4 - attempt,
            {
                let score = self.negamax(time_manager, depth, 0, false, alpha, beta);
                if score <= alpha {
                    let lowered = saturating_sum(alpha as i64 - self.tunable.aspiration_window_growth as i64);
                    alpha = if lowered < -MAX_SCORE { -MAX_SCORE } else { lowered };
                    beta = ((alpha as i64 + beta as i64) / 2) as EvalNumber;
                } else if score >= beta {
                    beta = saturating_sum(beta as i64 + self.tunable.aspiration_window_growth as i64);
                } else {
                    return score;
                }
                attempt = attempt + 1;
            }
        }
        self.negamax(time_manager, depth, 0, false, -MAX_SCORE, MAX_SCORE)
    }

    /// Searches the depth after the last one searched, in a window around the last score.
    pub fn search_next_depth(&mut self, time_manager: &TimeManager, state: &Deepening) -> (r: EvalNumber)
        requires
            old(self).wf(),
            old(self).transposition_table@.len() > 0,
            state.depth < 255,
            score_in_range(state.score as int),
        ensures
            keeps_position(*old(self), *final(self)),
            score_in_range(r as int),
    {
        self.aspiration_search(time_manager, state.score, state.depth + 1)
    }

    /// The report of a completed depth: the depth, the deepest ply reached, the best line with
    /// its score and the quiescence search count.
    pub fn depth_report(&self, depth: u8, score: EvalNumber) -> (r: DepthSearchInfo)
        requires
            self.wf(),
        ensures
            r.depth == depth,
            r.highest_depth == self.highest_depth,
            r.best.1 == score,
            r.best.0@.len() == self.pv.pv_length@[0],
            forall|i: int| 0 <= i < r.best.0@.len() ==> #[trigger] r.best.0@[i] == self.pv.entry(0, i),
            r.quiescence_call_count == self.quiescence_call_count,
    {
        DepthSearchInfo {
            depth,
            highest_depth: self.highest_depth,
            best: (self.pv.best_line(), score),
            quiescence_call_count: self.quiescence_call_count,
        }
    }

    /// Searches one ply deeper at a time, from one ply, until the time manager stops it, no move
    /// is found, a checkmate is found, the time manager's depth limit is reached or the deepest ply
    /// is reached; returns the last depth tried, the score of the last depth completed and a report
    /// of each depth completed with a move. Each step is [`depth_outcome`] and [`may_go_deeper`].
    /// Whether it stops before the depth limit rests on the stop and ponder flags, which another
    /// thread sets, and on the clock: the contract bounds the depth by the limit and leaves unsaid
    /// that the limit is reached.
    pub fn iterative_deepening(&mut self, time_manager: &TimeManager) -> (r: (u8, EvalNumber, Vec<DepthSearchInfo>))
        requires
            old(self).wf(),
            old(self).transposition_table@.len() > 0,
        ensures
            keeps_position(*old(self), *final(self)),
            score_in_range(r.1 as int),
            r.0 >= 1,
            r.2@.len() == r.0 || r.2@.len() + 1 == r.0,
            forall|i: int| 0 <= i < r.2@.len() ==> #[trigger] r.2@[i].depth == i + 1,
            r.2@.len() == r.0 ==> r.1 == r.2@.last().best.1,
            time_manager.depth_limit matches Some(d) ==> r.0 <= d || r.0 == 1,
    {
        let mut state = Deepening::start();
        let mut reports: Vec<DepthSearchInfo> = Vec::new();
        loop
            invariant_except_break
                state.depth < 255,
                reports@.len() == state.depth,
                reports@.len() > 0 ==> state.score == reports@.last().best.1,
                time_manager.depth_limit matches Some(d) ==> state.depth < d || state.depth == 0,
            invariant
                keeps_position(*old(self), *self),
                old(self).transposition_table@.len() > 0,
                score_in_range(state.score as int),
                forall|i: int| 0 <= i < reports@.len() ==> #[trigger] reports@[i].depth == i + 1,
            ensures
                keeps_position(*old(self), *self),
                score_in_range(state.score as int),
                state.depth >= 1,
                reports@.len() == state.depth || reports@.len() + 1 == state.depth,
                forall|i: int| 0 <= i < reports@.len() ==> #[trigger] reports@[i].depth == i + 1,
                reports@.len() == state.depth ==> state.score == reports@.last().best.1,
                time_manager.depth_limit matches Some(d) ==> state.depth <= d || state.depth == 1,
            decreases 255 - state.depth,
        {
            let score = self.search_next_depth(time_manager, &state);
            let hard_stop = time_manager.hard_stop_iterative_deepening(state.depth + 1, self.node_count);
            let best_move = self.pv.root_best_move();
            match depth_outcome(state, score, hard_stop, best_move) {
                DepthOutcome::Stopped(next) => {
                    state = next;
                    break;
                },
                DepthOutcome::Completed(next) => {
                    state = next;
                    reports.push(self.depth_report(state.depth, state.score));
                    if !may_go_deeper(&state, time_manager.depth_limit) {
                        break;
                    }
                    if time_manager.soft_stop(self.node_count, state.score, state.stability) {
                        break;
                    }
                },
            }
        }
        (state.depth, state.score, reports)
    }
}

/// Where iterative deepening stands: the last depth searched, the score of the last depth
/// completed, how many completed depths in a row the best move stayed the same, and that move.
#[derive(Clone, Copy, PartialEq, Eq, Structural)]
pub struct Deepening {
    /// The last depth searched.
    pub depth: u8,
    /// The score of the last depth completed.
    pub score: EvalNumber,
    /// How many completed depths in a row kept the best move.
    pub stability: u8,
    /// The best move of the last depth completed.
    pub best_move: EncodedMove,
}

impl Deepening {
    /// Before the first depth: no depth searched, the lowest score, no best move.
    pub fn start() -> (r: Self)
        ensures
            r == (Deepening { depth: 0, score: (-MAX_SCORE) as i32, stability: 0, best_move: EncodedMove(0) }),
    {
        Deepening { depth: 0, score: -MAX_SCORE, stability: 0, best_move: EncodedMove(EncodedMove::NONE) }
    }
}

/// What searching one more depth leads to.
#[derive(Clone, Copy, PartialEq, Eq, Structural)]
pub enum DepthOutcome {
    /// The search ends, in this state.
    Stopped(Deepening),
    /// The depth was completed with a best move; the new state.
    Completed(Deepening),
}

/// The outcome of searching depth `state.depth + 1` to `score`, with the best move `best_move`
/// found: when the time manager says to stop at once, the search ends and the score is dropped;
/// with no best move or a checkmate score it ends keeping the score; else the depth is completed,
/// and the best move's stability grows by one (at most 255) when the move stayed, else restarts.
pub open spec fn outcome_of(state: Deepening, score: EvalNumber, hard_stop: bool, best_move: EncodedMove) -> DepthOutcome {
    let depth = (state.depth + 1) as u8;
    if hard_stop {
        DepthOutcome::Stopped(Deepening { depth, ..state })
    } else if best_move.0 == 0 || is_mate_score(score as int) {
        DepthOutcome::Stopped(Deepening { depth, score, ..state })
    } else {
        DepthOutcome::Completed(
            Deepening {
                depth,
                score,
                stability: if best_move == state.best_move {
                    if state.stability < 255 {
                        (state.stability + 1) as u8
                    } else {
                        255u8
                    }
                } else {
                    0u8
                },
                best_move,
            },
        )
    }
}

/// The outcome of searching the next depth: see [`outcome_of`].
pub fn depth_outcome(state: Deepening, score: EvalNumber, hard_stop: bool, best_move: EncodedMove) -> (r: DepthOutcome)
    requires
        state.depth < 255,
        score > i32::MIN,
    ensures
        r == outcome_of(state, score, hard_stop, best_move),
{
    let depth = state.depth + 1;
    if hard_stop {
        return DepthOutcome::Stopped(Deepening { depth, ..state });
    }
    if best_move.is_none() || Search::score_is_checkmate(score) {
        return DepthOutcome::Stopped(Deepening { depth, score, ..state });
    }
    let stability = if best_move == state.best_move {
        state.stability.saturating_add(1)
    } else {
        0
    };
    DepthOutcome::Completed(Deepening { depth, score, stability, best_move })
}

/// Whether a deeper depth may follow a completed one: below the deepest ply and below the time
/// manager's depth limit (the time manager may still stop it).
pub fn may_go_deeper(state: &Deepening, depth_limit: Option<u8>) -> (r: bool)
    ensures
        r == (state.depth < 255 && !(depth_limit matches Some(d) && state.depth >= d)),
{
    if state.depth == 255 {
        return false;
    }
    match depth_limit {
        Some(max_depth) => state.depth < max_depth,
        None => true,
    }
}

/// The best move and the reply expected to it, after a new best line: the line's first move (none
/// for an empty line) is the best move, and a reply kept for another best move is dropped; the
/// line's second move, when it is a move, becomes the reply.
pub fn track_best_line(best: EncodedMove, reply: EncodedMove, line: &Vec<EncodedMove>) -> (r: (EncodedMove, EncodedMove))
    ensures
        r.0 == (if line@.len() > 0 { line@[0] } else { EncodedMove(0) }),
        r.1 == (if line@.len() > 1 && line@[1].0 != 0 {
            line@[1]
        } else if r.0 != best {
            EncodedMove(0)
        } else {
            reply
        }),
{
    let new_best = if line.len() > 0 { line[0] } else { EncodedMove(EncodedMove::NONE) };
    let mut new_reply = if new_best != best { EncodedMove(EncodedMove::NONE) } else { reply };
    if line.len() > 1 && !line[1].is_none() {
        new_reply = line[1];
    }
    (new_best, new_reply)
}

/// `value` kept within the range of `i32`.
fn saturating_sum(value: i64) -> (r: EvalNumber)
    ensures
        r == if value > i32::MAX {
            i32::MAX as int
        } else if value < i32::MIN {
            i32::MIN as int
        } else {
            value as int
        },
{
    if value > i32::MAX as i64 {
        i32::MAX
    } else if value < i32::MIN as i64 {
        i32::MIN
    } else {
        value as EvalNumber
    }
}

/// What the search found at a depth.
pub struct DepthSearchInfo {
    /// Depth searched at.
    pub depth: u8,
    /// Highest number of moves looked ahead.
    pub highest_depth: u8,
    /// The best line and its evaluation.
    pub best: (Vec<EncodedMove>, EvalNumber),
    /// How many times quiescence search was called.
    pub quiescence_call_count: u32,
}

} // verus!
