//! The board: pieces, squares, bit boards and positions.
use vstd::prelude::*;

pub mod bit_board;
pub mod fen;
pub mod fen_round_trip;
pub mod game_state;
pub mod piece;
pub mod square;
pub mod zobrist;
pub mod zobrist_randoms;

use bit_board::{BitBoard, popcount, LIGHT_SQUARES, DARK_SQUARES, lemma_bit_laws};
use game_state::GameState;
use piece::{Piece, piece_of};
use square::Square;
use zobrist::{Zobrist, pieces_key_of, pawn_pieces};

verus! {

/// Represents a chess position.
#[derive(Clone, Copy)]
pub struct Board {
    /// Whether it is white's turn to move.
    pub white_to_move: bool,
    /// Bit boards, one for every piece type.
    pub bit_boards: [BitBoard; 12],
    /// The number of full moves.
    pub full_move_counter: u32,
    /// State of the game.
    pub game_state: GameState,
}

/// The first piece numbered in `lo..hi` whose bit board holds square `sq`.
pub open spec fn first_piece(bit_boards: Seq<BitBoard>, sq: int, lo: int, hi: int) -> Option<Piece>
    decreases hi - lo,
{
    if lo >= hi {
        None
    } else if bit_boards[lo].has(sq) {
        Some(piece_of(lo))
    } else {
        first_piece(bit_boards, sq, lo + 1, hi)
    }
}

/// No square holds two pieces.
pub open spec fn pieces_disjoint(bit_boards: Seq<BitBoard>) -> bool {
    forall|p: int, q: int, i: int|
        0 <= p < 12 && 0 <= q < 12 && p != q && #[trigger] bit_boards[p].has(i) ==> !#[trigger] bit_boards[q].has(i)
}

/// Union of the bit boards numbered `lo..hi`.
pub open spec fn union_of(bit_boards: Seq<BitBoard>, lo: int, hi: int) -> u64
    decreases hi - lo,
{
    if lo >= hi {
        0
    } else {
        bit_boards[lo].0 | union_of(bit_boards, lo + 1, hi)
    }
}

impl Board {
    /// The starting position FEN in standard chess.
    pub const START_POSITION_FEN: &'static str = "rnbqkbnr/pppppppp/8/8/8/8/PPPPPPPP/RNBQKBNR w KQkq - 0 1";

    /// The piece on square `sq`, if any.
    pub open spec fn spec_piece_at(self, sq: int) -> Option<Piece> {
        first_piece(self.bit_boards@, sq, 0, 12)
    }

    /// The white piece on square `sq`, if any.
    pub open spec fn spec_white_piece_at(self, sq: int) -> Option<Piece> {
        first_piece(self.bit_boards@, sq, 0, 6)
    }

    /// The black piece on square `sq`, if any.
    pub open spec fn spec_black_piece_at(self, sq: int) -> Option<Piece> {
        first_piece(self.bit_boards@, sq, 6, 12)
    }

    /// The piece of the side to move on square `sq`, if any.
    pub open spec fn spec_friendly_piece_at(self, sq: int) -> Option<Piece> {
        if self.white_to_move {
            self.spec_white_piece_at(sq)
        } else {
            self.spec_black_piece_at(sq)
        }
    }

    /// The opponent's piece on square `sq`, if any.
    pub open spec fn spec_enemy_piece_at(self, sq: int) -> Option<Piece> {
        if self.white_to_move {
            self.spec_black_piece_at(sq)
        } else {
            self.spec_white_piece_at(sq)
        }
    }

    /// The bit board of piece number `p`.
    pub open spec fn bb(self, p: int) -> u64 {
        self.bit_boards@[p].0
    }

    /// Returns a piece at a square.
    pub fn piece_at(&self, square: Square) -> (r: Option<Piece>)
        requires
            square.valid(),
        ensures
            r == self.spec_piece_at(square.0 as int),
    {
        self.first_piece_in(square, 0, 12)
    }

    /// Returns a white piece at a square.
    pub fn white_piece_at(&self, square: Square) -> (r: Option<Piece>)
        requires
            square.valid(),
        ensures
            r == self.spec_white_piece_at(square.0 as int),
    {
        self.first_piece_in(square, 0, 6)
    }

    /// Returns a black piece at a square.
    pub fn black_piece_at(&self, square: Square) -> (r: Option<Piece>)
        requires
            square.valid(),
        ensures
            r == self.spec_black_piece_at(square.0 as int),
    {
        self.first_piece_in(square, 6, 12)
    }

    /// The first piece numbered in `lo..hi` standing on the square.
    fn first_piece_in(&self, square: Square, lo: usize, hi: usize) -> (r: Option<Piece>)
        requires
            square.valid(),
            lo <= hi <= 12,
        ensures
            r == first_piece(self.bit_boards@, square.0 as int, lo as int, hi as int),
    {
        let square_bit_board = square.bit_board();
        let mut k: usize = lo;
        while k < hi
            invariant
                lo <= k <= hi <= 12,
                square.valid(),
                square_bit_board.0 == 1u64 << (square.0 as u64),
                first_piece(self.bit_boards@, square.0 as int, lo as int, hi as int)
                    == first_piece(self.bit_boards@, square.0 as int, k as int, hi as int),
            decreases hi - k,
        {
            let piece_bit_board = self.bit_boards[k];
            let overlap = piece_bit_board.overlaps(&square_bit_board);
            proof {
                let x = piece_bit_board.0;
                let i = square.0 as u64;
                lemma_bit_laws();
            }
            if overlap {
                return Some(Piece::from_index(k));
            }
            k = k + 1;
        }
        None
    }

    /// Returns a piece on the side-to-move at a square.
    pub fn friendly_piece_at(&self, square: Square) -> (r: Option<Piece>)
        requires
            square.valid(),
        ensures
            r == self.spec_friendly_piece_at(square.0 as int),
    {
        if self.white_to_move {
            self.white_piece_at(square)
        } else {
            self.black_piece_at(square)
        }
    }

    /// Returns an opponent's piece at a square.
    pub fn enemy_piece_at(&self, square: Square) -> (r: Option<Piece>)
        requires
            square.valid(),
        ensures
            r == self.spec_enemy_piece_at(square.0 as int),
    {
        if self.white_to_move {
            self.black_piece_at(square)
        } else {
            self.white_piece_at(square)
        }
    }

    /// Returns the current position zobrist key.
    pub fn position_zobrist_key(&self) -> (r: Zobrist)
        ensures
            r == self.game_state.zobrist_key,
    {
        self.game_state.zobrist_key
    }

    /// Returns the current pawn zobrist key.
    pub fn pawn_zobrist_key(&self) -> (r: Zobrist)
        ensures
            r.0 == pieces_key_of(self.bit_boards@, pawn_pieces()),
    {
        Zobrist::pawn_key(self)
    }

    /// Returns a reference to a piece type's bit board.
    pub fn get_bit_board(&self, piece: Piece) -> (r: &BitBoard)
        ensures
            *r == self.bit_boards@[piece.spec_index()],
    {
        &self.bit_boards[piece.index()]
    }

    /// Returns a mutable reference to a piece type's bit board.
    pub fn get_bit_board_mut(&mut self, piece: Piece) -> (r: &mut BitBoard)
        ensures
            *r == old(self).bit_boards@[piece.spec_index()],
            final(self).bit_boards@ == old(self).bit_boards@.update(piece.spec_index(), *final(r)),
            final(self).white_to_move == old(self).white_to_move,
            final(self).full_move_counter == old(self).full_move_counter,
            final(self).game_state == old(self).game_state,
    {
        &mut self.bit_boards[piece.index()]
    }

    /// Returns true if any of the below are true:
    /// - Both sides have a bare King
    /// - King and a Minor Piece versus a bare King
    /// - Both sides have a King and a Bishop, the Bishops being the same Color
    pub fn is_insufficient_material(&self) -> (r: bool)
        ensures
            r == spec_insufficient_material(self.bit_boards@),
    {
        let white_nonking = self.bit_boards[0].or(self.bit_boards[1]).or(self.bit_boards[2]).or(
            self.bit_boards[3],
        ).or(self.bit_boards[4]);
        let black_nonking = self.bit_boards[6].or(self.bit_boards[7]).or(self.bit_boards[8]).or(
            self.bit_boards[9],
        ).or(self.bit_boards[10]);
        if white_nonking.is_empty() && black_nonking.is_empty() {
            return true;
        }
        let kings = self.bit_boards[5].or(self.bit_boards[11]);
        let bishops = self.bit_boards[2].or(self.bit_boards[8]);
        let all_pieces = white_nonking.or(black_nonking).or(kings);
        let minor_pieces = self.bit_boards[7].or(self.bit_boards[1]).or(bishops);
        if all_pieces == kings.or(minor_pieces) && minor_pieces.count() == 1 {
            return true;
        }
        if all_pieces == kings.or(bishops.and(BitBoard::new(LIGHT_SQUARES))) || all_pieces == kings.or(
            bishops.and(BitBoard::new(DARK_SQUARES)),
        ) {
            return true;
        }
        false
    }
}

/// The three draws by insufficient material: two bare kings; a king and one minor piece
/// against a bare king; only kings and bishops, all bishops on squares of one colour.
pub open spec fn spec_insufficient_material(b: Seq<BitBoard>) -> bool {
    let white_nonking = b[0].0 | b[1].0 | b[2].0 | b[3].0 | b[4].0;
    let black_nonking = b[6].0 | b[7].0 | b[8].0 | b[9].0 | b[10].0;
    let kings = b[5].0 | b[11].0;
    let bishops = b[2].0 | b[8].0;
    let all_pieces = white_nonking | black_nonking | kings;
    let minor_pieces = b[7].0 | b[1].0 | bishops;
    ||| (white_nonking == 0 && black_nonking == 0)
    ||| (all_pieces == kings | minor_pieces && popcount(minor_pieces) == 1)
    ||| all_pieces == kings | (bishops & LIGHT_SQUARES)
    ||| all_pieces == kings | (bishops & DARK_SQUARES)
}

/// `first_piece` finds the only piece numbered in `lo..hi` that holds the square.
pub proof fn lemma_first_piece_unique(bit_boards: Seq<BitBoard>, sq: int, lo: int, hi: int, k: int)
    requires
        lo <= k < hi,
        bit_boards[k].has(sq),
        forall|j: int| lo <= j < hi && j != k ==> !#[trigger] bit_boards[j].has(sq),
    ensures
        first_piece(bit_boards, sq, lo, hi) == Some(piece_of(k)),
    decreases hi - lo,
{
    if lo < k {
        lemma_first_piece_unique(bit_boards, sq, lo + 1, hi, k);
    }
}

/// `first_piece` finds a piece that holds the square, and none before it does.
pub proof fn lemma_first_piece_found(bit_boards: Seq<BitBoard>, sq: int, lo: int, hi: int)
    requires
        first_piece(bit_boards, sq, lo, hi) is Some,
    ensures
        exists|k: int| lo <= k < hi && first_piece(bit_boards, sq, lo, hi) == Some(piece_of(k))
            && #[trigger] bit_boards[k].has(sq) && forall|j: int| lo <= j < k ==> !#[trigger] bit_boards[j].has(sq),
    decreases hi - lo,
{
    if !bit_boards[lo].has(sq) {
        lemma_first_piece_found(bit_boards, sq, lo + 1, hi);
        let k = choose|k: int| lo + 1 <= k < hi && first_piece(bit_boards, sq, lo + 1, hi) == Some(piece_of(k))
            && #[trigger] bit_boards[k].has(sq) && forall|j: int| lo + 1 <= j < k ==> !#[trigger] bit_boards[j].has(sq);
        assert(lo <= k < hi && first_piece(bit_boards, sq, lo, hi) == Some(piece_of(k)) && bit_boards[k].has(sq));
    }
}

/// `first_piece` finds nothing when no bit board in range holds the square.
pub proof fn lemma_first_piece_none(bit_boards: Seq<BitBoard>, sq: int, lo: int, hi: int)
    ensures
        first_piece(bit_boards, sq, lo, hi) is None <==> forall|j: int| lo <= j < hi ==> !#[trigger] bit_boards[j].has(sq),
    decreases hi - lo,
{
    if lo < hi {
        lemma_first_piece_none(bit_boards, sq, lo + 1, hi);
    }
}

/// The piece number that `first_piece` returns is within range.
pub proof fn lemma_first_piece_range(bit_boards: Seq<BitBoard>, sq: int, lo: int, hi: int)
    requires
        0 <= lo,
        hi <= 12,
    ensures
        first_piece(bit_boards, sq, lo, hi) matches Some(p) ==> lo <= p.spec_index() < hi && bit_boards[p.spec_index()].has(sq),
    decreases hi - lo,
{
    if lo < hi && !bit_boards[lo].has(sq) {
        lemma_first_piece_range(bit_boards, sq, lo + 1, hi);
    }
}

} // verus!
