//! Guessing which moves are best, to search them first.
use vstd::prelude::*;
use crate::board::Board;
use crate::move_generator::MoveGenerator;
use crate::move_generator::move_data::{Flag, Move};
use crate::move_generator::playable::{playable, lemma_generated_moves_round_trip, lemma_generated_captures, lemma_playable_pieces_apart};
use super::Search;
use super::encoded_move::{EncodedMove, pack, lemma_decode_new};

verus! {

/// The number type of move guesses.
pub type MoveGuessNum = i32;

/// A move and how good it is guessed to be.
#[derive(Clone, Copy)]
pub struct MoveGuess {
    /// The guessed value.
    pub guess: MoveGuessNum,
    /// The move.
    pub move_data: EncodedMove,
}

/// The guess of the move the transposition table gave.
pub const HASH_MOVE_BONUS: MoveGuessNum = 2147483647;
/// The guess of promoting to a queen.
pub const QUEEN_PROMOTION_BONUS: MoveGuessNum = 50_000_000;
/// Added to the guess of a capture.
pub const CAPTURE_BONUS: MoveGuessNum = 50_000_000;
/// The guess of the killer move.
pub const KILLER_MOVE_BONUS: MoveGuessNum = 30_000_000;
/// The guess of promoting to a knight.
pub const KNIGHT_PROMOTION_BONUS: MoveGuessNum = 20_000_000;
/// The guess of promoting to a rook.
pub const ROOK_PROMOTION_BONUS: MoveGuessNum = 0;
/// The guess of promoting to a bishop.
pub const BISHOP_PROMOTION_BONUS: MoveGuessNum = 0;

/// Most valuable victim, least valuable attacker: by victim (row) and attacker (column) piece.
pub const MVV_LVA: [[u8; 12]; 12] = [
    [15, 14, 13, 12, 11, 10, 15, 14, 13, 12, 11, 10],
    [25, 24, 23, 22, 21, 20, 25, 24, 23, 22, 21, 20],
    [35, 34, 33, 32, 31, 30, 35, 34, 33, 32, 31, 30],
    [45, 44, 43, 42, 41, 40, 45, 44, 43, 42, 41, 40],
    [55, 54, 53, 52, 51, 50, 55, 54, 53, 52, 51, 50],
    [0, 0, 0, 0, 0, 0, 0, 0, 0, 0, 0, 0],
    [15, 14, 13, 12, 11, 10, 15, 14, 13, 12, 11, 10],
    [25, 24, 23, 22, 21, 20, 25, 24, 23, 22, 21, 20],
    [35, 34, 33, 32, 31, 30, 35, 34, 33, 32, 31, 30],
    [45, 44, 43, 42, 41, 40, 45, 44, 43, 42, 41, 40],
    [55, 54, 53, 52, 51, 50, 55, 54, 53, 52, 51, 50],
    [0, 0, 0, 0, 0, 0, 0, 0, 0, 0, 0, 0],
];

/// The quiet history entry of a move: by side (black first), then to square, then from square.
pub open spec fn quiet_index(b: Board, m: Move) -> int {
    (if b.white_to_move { 4096int } else { 0int }) + m.from.0 + m.to.0 * 64
}

/// The MVV-LVA value of the enemy piece on `m.to` taken by the friendly piece on `m.from`.
pub open spec fn mvv_lva_of(b: Board, m: Move) -> int {
    MVV_LVA@[b.spec_enemy_piece_at(m.to.0 as int)->0.spec_index()]@[b.spec_friendly_piece_at(
        m.from.0 as int,
    )->0.spec_index()] as int
}

/// The guessed value of a move: by promotion, by what it captures, or by its quiet history.
pub open spec fn move_guess(b: Board, quiet_history: Seq<i16>, m: Move) -> int {
    match m.flag {
        Flag::EnPassant | Flag::Castle => quiet_history[quiet_index(b, m)] as int,
        Flag::BishopPromotion => BISHOP_PROMOTION_BONUS as int,
        Flag::KnightPromotion => KNIGHT_PROMOTION_BONUS as int,
        Flag::RookPromotion => ROOK_PROMOTION_BONUS as int,
        Flag::QueenPromotion => QUEEN_PROMOTION_BONUS as int,
        _ => if b.spec_enemy_piece_at(m.to.0 as int) is Some {
            CAPTURE_BONUS + mvv_lva_of(b, m)
        } else {
            quiet_history[quiet_index(b, m)] as int
        },
    }
}

/// The guessed value of a capture.
pub open spec fn capture_guess(b: Board, m: Move) -> int {
    match m.flag {
        Flag::EnPassant => 0,
        Flag::BishopPromotion | Flag::RookPromotion => -1,
        Flag::KnightPromotion => 1300 + mvv_lva_of(b, m),
        Flag::QueenPromotion => 1900 + mvv_lva_of(b, m),
        _ => mvv_lva_of(b, m),
    }
}

/// The guess of a move in the full search: the hash move first, then the killer move, then by
/// [`move_guess`].
pub open spec fn full_guess(b: Board, quiet_history: Seq<i16>, hash_move: EncodedMove, killer_move: EncodedMove, e: EncodedMove) -> int {
    if e == hash_move {
        HASH_MOVE_BONUS as int
    } else if e == killer_move {
        KILLER_MOVE_BONUS as int
    } else {
        move_guess(b, quiet_history, e.spec_decode())
    }
}

/// `j` is the first index of a highest guess among `lo..hi`.
pub open spec fn first_highest(guesses: Seq<MoveGuess>, lo: int, hi: int, j: int) -> bool {
    &&& lo <= j < hi
    &&& forall|k: int| lo <= k < hi ==> #[trigger] guesses[k].guess <= guesses[j].guess
    &&& forall|k: int| lo <= k < j ==> #[trigger] guesses[k].guess < guesses[j].guess
}

/// Orders moves by guessed value.
pub struct MoveOrderer;

impl MoveOrderer {
    /// Guesses the value of a move.
    fn guess_move_value(search: &Search, move_data: Move) -> (r: MoveGuessNum)
        requires
            search.wf(),
            move_data.from.valid(),
            move_data.to.valid(),
            search.board.spec_friendly_piece_at(move_data.from.0 as int) is Some,
        ensures
            r == move_guess(search.board, search.quiet_history@, move_data),
    {
        let side: usize = if search.board.white_to_move { 4096 } else { 0 };
        let quiet = side + move_data.from.usize() + move_data.to.usize() * 64;
        match move_data.flag {
            Flag::EnPassant | Flag::Castle => {
                return search.quiet_history[quiet] as MoveGuessNum;
            },
            Flag::BishopPromotion => {
                return BISHOP_PROMOTION_BONUS;
            },
            Flag::KnightPromotion => {
                return KNIGHT_PROMOTION_BONUS;
            },
            Flag::RookPromotion => {
                return ROOK_PROMOTION_BONUS;
            },
            Flag::QueenPromotion => {
                return QUEEN_PROMOTION_BONUS;
            },
            _ => {},
        }
        match search.board.enemy_piece_at(move_data.to) {
            Some(capturing) => {
                let moving_piece = match search.board.friendly_piece_at(move_data.from) {
                    Some(piece) => piece,
                    None => capturing,
                };
                CAPTURE_BONUS + MVV_LVA[capturing.index()][moving_piece.index()] as MoveGuessNum
            },
            None => search.quiet_history[quiet] as MoveGuessNum,
        }
    }

    /// Guesses the value of a capture.
    fn guess_capture_value(search: &Search, move_data: Move) -> (r: MoveGuessNum)
        requires
            move_data.from.valid(),
            move_data.to.valid(),
            search.board.spec_friendly_piece_at(move_data.from.0 as int) is Some,
            move_data.flag != Flag::PawnTwoUp,
            move_data.flag != Flag::Castle,
            move_data.flag != Flag::EnPassant && move_data.flag != Flag::BishopPromotion && move_data.flag
                != Flag::RookPromotion ==> search.board.spec_enemy_piece_at(move_data.to.0 as int) is Some,
        ensures
            r == capture_guess(search.board, move_data),
    {
        let base: MoveGuessNum = match move_data.flag {
            Flag::EnPassant => {
                return 0;
            },
            Flag::BishopPromotion => {
                return -1;
            },
            Flag::RookPromotion => {
                return -1;
            },
            Flag::KnightPromotion => 1300,
            Flag::QueenPromotion => 1900,
            _ => 0,
        };
        let capturing = match search.board.enemy_piece_at(move_data.to) {
            Some(piece) => piece,
            None => crate::board::piece::Piece::WhitePawn,
        };
        let moving_piece = match search.board.friendly_piece_at(move_data.from) {
            Some(piece) => piece,
            None => capturing,
        };
        base + MVV_LVA[capturing.index()][moving_piece.index()] as MoveGuessNum
    }

    /// Moves the first highest guess among `unsorted_index..move_count` to `unsorted_index`, by
    /// swapping, and returns it.
    pub fn put_highest_guessed_move(move_guesses: &mut Vec<MoveGuess>, unsorted_index: usize, move_count: usize) -> (r: MoveGuess)
        requires
            unsorted_index < move_count <= old(move_guesses)@.len(),
        ensures
            exists|j: int| #[trigger] first_highest(old(move_guesses)@, unsorted_index as int, move_count as int, j)
                && final(move_guesses)@ == old(move_guesses)@.update(unsorted_index as int, old(move_guesses)@[j]).update(
                j,
                old(move_guesses)@[unsorted_index as int],
            ),
            r == final(move_guesses)@[unsorted_index as int],
    {
        let mut index_of_highest_move = unsorted_index;
        let mut highest_guess = move_guesses[unsorted_index].guess;
        let mut index = unsorted_index;
        while index < move_count
            invariant
                unsorted_index <= index <= move_count,
                move_count <= move_guesses@.len(),
                unsorted_index <= index_of_highest_move < move_count,
                index_of_highest_move <= index,
                highest_guess == move_guesses@[index_of_highest_move as int].guess,
                forall|k: int| unsorted_index <= k < index ==> #[trigger] move_guesses@[k].guess <= highest_guess,
                forall|k: int| unsorted_index <= k < index_of_highest_move ==> #[trigger] move_guesses@[k].guess < highest_guess,
            decreases move_count - index,
        {
            let guess = move_guesses[index].guess;
            if guess > highest_guess {
                highest_guess = guess;
                index_of_highest_move = index;
            }
            index = index + 1;
        }
        let ghost before = move_guesses@;
        if index_of_highest_move != unsorted_index {
            let highest = move_guesses[index_of_highest_move];
            let first = move_guesses[unsorted_index];
            move_guesses.set(unsorted_index, highest);
            move_guesses.set(index_of_highest_move, first);
        }
        proof {
            let j = index_of_highest_move as int;
            assert(first_highest(before, unsorted_index as int, move_count as int, j));
            assert(move_guesses@ =~= before.update(unsorted_index as int, before[j]).update(j, before[unsorted_index as int]));
        }
        move_guesses[unsorted_index]
    }
}

impl MoveOrderer {
    /// The captures with their guessed values.
    pub fn get_move_guesses_captures_only(search: &Search, move_generator: &MoveGenerator) -> (r: Vec<MoveGuess>)
        requires
            search.wf(),
            playable(search.board),
            move_generator.describes(search.board),
            move_generator.wf(),
        ensures
            forall|i: int| 0 <= i < r@.len() ==> #[trigger] r@[i].move_data.decodable() && move_generator.generates(
                true,
                r@[i].move_data.spec_decode(),
            ) && r@[i].guess == capture_guess(search.board, r@[i].move_data.spec_decode()),
            forall|m: Move| #[trigger] move_generator.generates(true, m) ==> exists|i: int| 0 <= i < r@.len() && #[trigger] r@[i].move_data.spec_decode() == m,
            forall|i: int, j: int| 0 <= i < j < r@.len() ==> (#[trigger] r@[i]).move_data.spec_decode() != (#[trigger] r@[j]).move_data.spec_decode(),
    {
        let moves = move_generator.gen(true);
        proof {
            lemma_playable_pieces_apart(search.board, *move_generator);
        }
        let mut move_guesses: Vec<MoveGuess> = Vec::new();
        let mut index: usize = 0;
        while index < moves.len()
            invariant
                search.wf(),
                playable(search.board),
                move_generator.describes(search.board),
                index <= moves@.len(),
                move_guesses@.len() == index,
                forall|m: Move| #[trigger] moves@.contains(m) == move_generator.generates(true, m),
                forall|i: int| 0 <= i < index ==> (#[trigger] move_guesses@[i]).move_data.decodable()
                    && move_guesses@[i].move_data.spec_decode() == moves@[i]
                    && move_guesses@[i].guess == capture_guess(search.board, moves@[i]),
            decreases moves@.len() - index,
        {
            let move_data = moves[index];
            proof {
                assert(moves@.contains(move_data));
                lemma_generated_moves_round_trip(search.board, *move_generator, true, move_data);
                lemma_generated_captures(search.board, *move_generator, move_data);
                lemma_decode_new(move_data);
            }
            let encoded = EncodedMove::new(move_data);
            proof {
                assert(encoded == EncodedMove(pack(move_data.from.0, move_data.to.0, move_data.flag.spec_index())));
            }
            let guess = Self::guess_capture_value(search, move_data);
            move_guesses.push(MoveGuess { move_data: encoded, guess });
            index = index + 1;
        }
        proof {
            assert forall|m: Move| #[trigger] move_generator.generates(true, m) implies exists|i: int| 0 <= i < move_guesses@.len()
                && #[trigger] move_guesses@[i].move_data.spec_decode() == m by {
                assert(moves@.contains(m));
                let i = choose|i: int| 0 <= i < moves@.len() && moves@[i] == m;
                assert(move_guesses@[i].move_data.decodable());
                assert(move_guesses@[i].move_data.spec_decode() == m);
            }
            assert forall|i: int| 0 <= i < move_guesses@.len() implies #[trigger] move_guesses@[i].move_data.decodable()
                && move_generator.generates(true, move_guesses@[i].move_data.spec_decode())
                && move_guesses@[i].guess == capture_guess(search.board, move_guesses@[i].move_data.spec_decode()) by {
                assert(move_guesses@[i].move_data.decodable());
                assert(moves@.contains(moves@[i]));
            }
            assert forall|i: int, j: int| 0 <= i < j < move_guesses@.len() implies (#[trigger] move_guesses@[i]).move_data.spec_decode()
                != (#[trigger] move_guesses@[j]).move_data.spec_decode() by {
                assert(moves@[i] != moves@[j]);
            }
        }
        move_guesses
    }

    /// The moves with their guessed values: the hash move first, then the killer move, then by
    /// [`move_guess`].
    pub fn get_move_guesses(
        search: &Search,
        move_generator: &MoveGenerator,
        hash_move: EncodedMove,
        killer_move: EncodedMove,
    ) -> (r: Vec<MoveGuess>)
        requires
            search.wf(),
            playable(search.board),
            move_generator.describes(search.board),
            move_generator.wf(),
        ensures
            forall|i: int| 0 <= i < r@.len() ==> #[trigger] r@[i].move_data.decodable() && move_generator.generates(
                false,
                r@[i].move_data.spec_decode(),
            ) && r@[i].guess == full_guess(search.board, search.quiet_history@, hash_move, killer_move, r@[i].move_data),
            forall|m: Move| #[trigger] move_generator.generates(false, m) ==> exists|i: int| 0 <= i < r@.len() && #[trigger] r@[i].move_data.spec_decode() == m,
            forall|i: int, j: int| 0 <= i < j < r@.len() ==> (#[trigger] r@[i]).move_data.spec_decode() != (#[trigger] r@[j]).move_data.spec_decode(),
    {
        let moves = move_generator.gen(false);
        proof {
            lemma_playable_pieces_apart(search.board, *move_generator);
        }
        let mut move_guesses: Vec<MoveGuess> = Vec::new();
        let mut index: usize = 0;
        while index < moves.len()
            invariant
                search.wf(),
                playable(search.board),
                move_generator.describes(search.board),
                index <= moves@.len(),
                move_guesses@.len() == index,
                forall|m: Move| #[trigger] moves@.contains(m) == move_generator.generates(false, m),
                forall|i: int| 0 <= i < index ==> (#[trigger] move_guesses@[i]).move_data.decodable()
                    && move_guesses@[i].move_data.spec_decode() == moves@[i]
                    && move_guesses@[i].guess == full_guess(search.board, search.quiet_history@, hash_move, killer_move, move_guesses@[i].move_data),
            decreases moves@.len() - index,
        {
            let move_data = moves[index];
            proof {
                assert(moves@.contains(move_data));
                lemma_generated_moves_round_trip(search.board, *move_generator, false, move_data);
                lemma_decode_new(move_data);
            }
            let encoded = EncodedMove::new(move_data);
            proof {
                assert(encoded == EncodedMove(pack(move_data.from.0, move_data.to.0, move_data.flag.spec_index())));
            }
            let guess = if encoded == hash_move {
                HASH_MOVE_BONUS
            } else if encoded == killer_move {
                KILLER_MOVE_BONUS
            } else {
                Self::guess_move_value(search, move_data)
            };
            move_guesses.push(MoveGuess { move_data: encoded, guess });
            index = index + 1;
        }
        proof {
            assert forall|m: Move| #[trigger] move_generator.generates(false, m) implies exists|i: int| 0 <= i < move_guesses@.len()
                && #[trigger] move_guesses@[i].move_data.spec_decode() == m by {
                assert(moves@.contains(m));
                let i = choose|i: int| 0 <= i < moves@.len() && moves@[i] == m;
                assert(move_guesses@[i].move_data.decodable());
                assert(move_guesses@[i].move_data.spec_decode() == m);
            }
            assert forall|i: int| 0 <= i < move_guesses@.len() implies #[trigger] move_guesses@[i].move_data.decodable()
                && move_generator.generates(false, move_guesses@[i].move_data.spec_decode())
                && move_guesses@[i].guess == full_guess(search.board, search.quiet_history@, hash_move, killer_move, move_guesses@[i].move_data) by {
                assert(move_guesses@[i].move_data.decodable());
                assert(moves@.contains(moves@[i]));
            }
            assert forall|i: int, j: int| 0 <= i < j < move_guesses@.len() implies (#[trigger] move_guesses@[i]).move_data.spec_decode()
                != (#[trigger] move_guesses@[j]).move_data.spec_decode() by {
                assert(moves@[i] != moves@[j]);
            }
        }
        move_guesses
    }
}

} // verus!
