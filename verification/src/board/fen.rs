//! Forsyth-Edwards Notation.
use vstd::prelude::*;
use crate::text::{push_chars, 
    chars_of, decimal, digit_char, digit_to_char, push_decimal, string_push, split_words, words, is_digit, digit_value, parse_unsigned, parse_unsigned_exec,
};
use super::bit_board::BitBoard;
use super::game_state::{CastlingRights, GameState, spec_castling_from_fen};
use super::piece::{Piece, is_piece_char, fen_char_of};
use super::square::{Square, parse_notation};
use super::zobrist::{Zobrist, position_key};
use super::{Board, first_piece};
use super::game_state::has_bit8;

verus! {

/// Errors that can occur when parsing a FEN string.
#[derive(Debug, PartialEq, Eq, Clone, Copy, Structural)]
pub enum FenParseErr {
    /// The position section of the FEN string is missing.
    MissingPosition,
    /// An invalid piece character was encountered in the position section.
    InvalidPiece,
    /// An invalid digit was encountered in the position section (a 9, or a rank that runs past the h file).
    InvalidDigit,
    /// The side to move is missing.
    MissingSideToMove,
    /// The side to move is neither `w` nor `b`.
    InvalidSideToMove,
    /// The half-move clock is missing.
    MissingHalfMoveClock,
    /// The half-move clock is not a valid number.
    InvalidHalfMoveClock,
    /// The full-move counter is missing.
    MissingFullMoveCounter,
    /// The full-move counter is not a valid number.
    InvalidFullMoveCounter,
    /// The en passant target square is missing.
    MissingEnPassant,
    /// The en passant target square is neither a square nor `-`.
    InvalidEnPassant,
    /// The castling rights section is missing.
    MissingCastling,
}

/// The number of the piece with FEN letter `c`.
pub open spec fn char_piece(c: char) -> int {
    if c == 'P' {
        0
    } else if c == 'N' {
        1
    } else if c == 'B' {
        2
    } else if c == 'R' {
        3
    } else if c == 'Q' {
        4
    } else if c == 'K' {
        5
    } else if c == 'p' {
        6
    } else if c == 'n' {
        7
    } else if c == 'b' {
        8
    } else if c == 'r' {
        9
    } else if c == 'q' {
        10
    } else {
        11
    }
}

/// The bit boards that the piece placement field gives, reading from character `i` with
/// the next square at `rank`, `file`. Ranks run from 8 down, files from a; `/` is skipped,
/// a digit skips that many squares, a letter places a piece; reading stops once the h1
/// square has been passed.
pub open spec fn parse_placement(cs: Seq<char>, i: int, rank: int, file: int, bbs: Seq<BitBoard>) -> Result<Seq<BitBoard>, FenParseErr>
    decreases cs.len() - i,
{
    if i >= cs.len() || i < 0 {
        Ok(bbs)
    } else {
        let c = cs[i];
        if c == '/' {
            parse_placement(cs, i + 1, rank, file, bbs)
        } else if is_digit(c) {
            let d = digit_value(c);
            if d > 8 || file + d > 8 {
                Err(FenParseErr::InvalidDigit)
            } else if file + d == 8 {
                if rank == 0 {
                    Ok(bbs)
                } else {
                    parse_placement(cs, i + 1, rank - 1, 0, bbs)
                }
            } else {
                parse_placement(cs, i + 1, rank, file + d, bbs)
            }
        } else if is_piece_char(c) {
            let p = char_piece(c);
            let bbs2 = bbs.update(p, BitBoard(bbs[p].0 | (1u64 << ((rank * 8 + file) as u64))));
            if file + 1 == 8 {
                if rank == 0 {
                    Ok(bbs2)
                } else {
                    parse_placement(cs, i + 1, rank - 1, 0, bbs2)
                }
            } else {
                parse_placement(cs, i + 1, rank, file + 1, bbs2)
            }
        } else {
            Err(FenParseErr::InvalidPiece)
        }
    }
}

/// Twelve empty bit boards.
pub open spec fn empty_bit_boards() -> Seq<BitBoard> {
    Seq::new(12, |i: int| BitBoard(0))
}

/// What a FEN string describes: bit boards, side to move, castling rights, en passant square,
/// half-move clock and full-move counter.
pub type FenFields = (Seq<BitBoard>, bool, CastlingRights, Option<Square>, u64, u32);

/// What `Board::from_fen` makes of the characters `s`.
pub open spec fn spec_from_fen(s: Seq<char>) -> Result<FenFields, FenParseErr> {
    let ws = words(s);
    if ws.len() == 0 {
        Err(FenParseErr::MissingPosition)
    } else {
        match parse_placement(ws[0], 0, 7, 0, empty_bit_boards()) {
            Err(e) => Err(e),
            Ok(bbs) => if ws.len() < 2 {
                Err(FenParseErr::MissingSideToMove)
            } else if ws[1] != seq!['w'] && ws[1] != seq!['b'] {
                Err(FenParseErr::InvalidSideToMove)
            } else if ws.len() < 3 {
                Err(FenParseErr::MissingCastling)
            } else if ws.len() < 4 {
                Err(FenParseErr::MissingEnPassant)
            } else if ws[3] != seq!['-'] && parse_notation(ws[3]) is Err {
                Err(FenParseErr::InvalidEnPassant)
            } else if ws.len() < 5 {
                Err(FenParseErr::MissingHalfMoveClock)
            } else if parse_unsigned(ws[4], u64::MAX as nat) is None {
                Err(FenParseErr::InvalidHalfMoveClock)
            } else if ws.len() < 6 {
                Err(FenParseErr::MissingFullMoveCounter)
            } else if parse_unsigned(ws[5], u32::MAX as nat) is None {
                Err(FenParseErr::InvalidFullMoveCounter)
            } else {
                Ok(
                    (
                        bbs,
                        ws[1] == seq!['w'],
                        spec_castling_from_fen(ws[2]),
                        if ws[3] == seq!['-'] {
                            None
                        } else {
                            Some(parse_notation(ws[3])->Ok_0)
                        },
                        parse_unsigned(ws[4], u64::MAX as nat)->0 as u64,
                        parse_unsigned(ws[5], u32::MAX as nat)->0 as u32,
                    ),
                )
            },
        }
    }
}

/// Whether `chars` is exactly the one character `c`.
fn is_single(chars: &Vec<char>, c: char) -> (r: bool)
    ensures
        r == (chars@ == seq![c]),
{
    let r = chars.len() == 1 && chars[0] == c;
    proof {
        if r {
            assert(chars@ =~= seq![c]);
        }
    }
    r
}

/// Reads the piece placement field.
fn parse_placement_exec(cs: &Vec<char>) -> (r: Result<[BitBoard; 12], FenParseErr>)
    ensures
        r matches Ok(bbs) ==> parse_placement(cs@, 0, 7, 0, empty_bit_boards()) == Ok::<Seq<BitBoard>, FenParseErr>(bbs@),
        r matches Err(e) ==> parse_placement(cs@, 0, 7, 0, empty_bit_boards()) == Err::<Seq<BitBoard>, FenParseErr>(e),
{
    let mut bit_boards = [BitBoard(0), BitBoard(0), BitBoard(0), BitBoard(0), BitBoard(0), BitBoard(0), BitBoard(0), BitBoard(0), BitBoard(0), BitBoard(0), BitBoard(0), BitBoard(0)];
    proof {
        assert(bit_boards@ =~= empty_bit_boards());
    }
    let mut rank: i8 = 7;
    let mut file: i8 = 0;
    let mut i: usize = 0;
    while i < cs.len()
        invariant
            0 <= rank <= 7,
            0 <= file <= 7,
            i <= cs.len(),
            parse_placement(cs@, 0, 7, 0, empty_bit_boards()) == parse_placement(cs@, i as int, rank as int, file as int, bit_boards@),
        decreases cs.len() - i,
    {
        let character = cs[i];
        if character == '/' {
            i = i + 1;
            continue;
        }
        if '0' <= character && character <= '9' {
            let digit: i8 = (character as u32 - 48) as i8;
            if digit > 8 {
                return Err(FenParseErr::InvalidDigit);
            }
            file = file + digit;
            if file > 8 {
                return Err(FenParseErr::InvalidDigit);
            }
        } else {
            match Piece::from_fen_char(&character) {
                Ok(piece) => {
                    let square = Square::from_coords(rank, file);
                    let ghost before = bit_boards@;
                    let index = piece.index();
                    let mut bb = bit_boards[index];
                    bb.set(&square);
                    bit_boards[index] = bb;
                    proof {
                        assert(index == char_piece(character));
                        assert(bit_boards@ =~= before.update(char_piece(character), BitBoard(before[char_piece(character)].0 | (1u64 << ((rank * 8 + file) as u64)))));
                    }
                    file = file + 1;
                },
                Err(_) => {
                    return Err(FenParseErr::InvalidPiece);
                },
            }
        }
        if file == 8 {
            if rank == 0 {
                return Ok(bit_boards);
            }
            rank = rank - 1;
            file = 0;
        }
        i = i + 1;
    }
    Ok(bit_boards)
}

/// A count of empty squares, written as its digit when it is not zero.
pub open spec fn empty_text(empty: nat) -> Seq<char> {
    if empty > 0 {
        seq![digit_char(empty as int)]
    } else {
        Seq::empty()
    }
}

/// The placement text of one rank from `file` on, with `empty` empty squares pending.
pub open spec fn rank_text(bbs: Seq<BitBoard>, rank: int, file: int, empty: nat) -> Seq<char>
    decreases 8 - file,
{
    if file >= 8 {
        empty_text(empty)
    } else {
        match first_piece(bbs, rank * 8 + file, 0, 12) {
            Some(p) => empty_text(empty) + seq![fen_char_of(p.spec_index())] + rank_text(bbs, rank, file + 1, 0),
            None => rank_text(bbs, rank, file + 1, empty + 1),
        }
    }
}

/// The placement text of ranks `rank` down to the first, separated by `/`.
pub open spec fn placement_text(bbs: Seq<BitBoard>, rank: int) -> Seq<char>
    decreases rank,
{
    if rank <= 0 {
        rank_text(bbs, 0, 0, 0)
    } else {
        rank_text(bbs, rank, 0, 0) + seq!['/'] + placement_text(bbs, rank - 1)
    }
}

/// The castling field: `-`, or the letters of the rights that remain.
pub open spec fn castling_text(rights: CastlingRights) -> Seq<char> {
    if rights.0 == 0 {
        seq!['-']
    } else {
        (if has_bit8(rights.0, 0) { seq!['K'] } else { Seq::empty() }) + (if has_bit8(rights.0, 1) {
            seq!['Q']
        } else {
            Seq::empty()
        }) + (if has_bit8(rights.0, 2) { seq!['k'] } else { Seq::empty() }) + (if has_bit8(rights.0, 3) {
            seq!['q']
        } else {
            Seq::empty()
        })
    }
}

/// The FEN text of a board.
pub open spec fn fen_text(b: Board) -> Seq<char> {
    placement_text(b.bit_boards@, 7) + (if b.white_to_move {
        seq![' ', 'w', ' ']
    } else {
        seq![' ', 'b', ' ']
    }) + castling_text(b.game_state.castling_rights) + seq![' '] + (match b.game_state.en_passant_square {
        Some(square) => square.notation(),
        None => seq!['-'],
    }) + seq![' '] + decimal(b.game_state.half_move_clock as nat) + seq![' '] + decimal(
        b.full_move_counter as nat,
    )
}

/// Appends the digit of a non-zero count of empty squares.
fn push_empty(s: &mut String, empty: u32)
    requires
        empty <= 8,
    ensures
        final(s)@ == old(s)@ + empty_text(empty as nat),
{
    if empty != 0 {
        string_push(s, digit_to_char(empty as u64));
    } else {
        proof {
            assert(old(s)@ + empty_text(0) =~= old(s)@);
        }
    }
}

/// Appends the castling field.
fn push_castling(s: &mut String, rights: CastlingRights)
    ensures
        final(s)@ == old(s)@ + castling_text(rights),
{
    if rights.is_none() {
        string_push(s, '-');
        return;
    }
    let ghost start = s@;
    if rights.get_white_king_side() {
        string_push(s, 'K');
    }
    let ghost a = s@;
    if rights.get_white_queen_side() {
        string_push(s, 'Q');
    }
    let ghost b = s@;
    if rights.get_black_king_side() {
        string_push(s, 'k');
    }
    let ghost c = s@;
    if rights.get_black_queen_side() {
        string_push(s, 'q');
    }
    proof {
        assert(s@ =~= start + castling_text(rights));
    }
}

/// The board that the fields of a FEN describe, with its key.
pub open spec fn board_of_fields(board: Board, fields: FenFields) -> bool {
    &&& board.bit_boards@ == fields.0
    &&& board.white_to_move == fields.1
    &&& board.game_state.castling_rights == fields.2
    &&& board.game_state.en_passant_square == fields.3
    &&& board.game_state.half_move_clock == fields.4
    &&& board.full_move_counter == fields.5
    &&& board.game_state.captured is None
    &&& board.game_state.zobrist_key.0 == position_key(fields.0, fields.1, fields.3, fields.2)
}

impl Board {
    /// Creates a Board from Forsyth-Edwards Notation; an invalid FEN gives the error that says
    /// what is wrong with it.
    pub fn from_fen(fen: &str) -> (r: Result<Self, FenParseErr>)
        ensures
            match spec_from_fen(fen@) {
                Ok(fields) => r matches Ok(board) && board_of_fields(board, fields),
                Err(e) => r == Err::<Self, FenParseErr>(e),
            },
    {
        let chars = chars_of(fen);
        let components = split_words(&chars);
        if components.len() == 0 {
            return Err(FenParseErr::MissingPosition);
        }
        let bit_boards = match parse_placement_exec(&components[0]) {
            Ok(bit_boards) => bit_boards,
            Err(e) => return Err(e),
        };
        if components.len() < 2 {
            return Err(FenParseErr::MissingSideToMove);
        }
        let white_to_move = if is_single(&components[1], 'w') {
            true
        } else if is_single(&components[1], 'b') {
            false
        } else {
            return Err(FenParseErr::InvalidSideToMove);
        };
        if components.len() < 3 {
            return Err(FenParseErr::MissingCastling);
        }
        let castling_rights = CastlingRights::from_fen_chars(&components[2]);
        if components.len() < 4 {
            return Err(FenParseErr::MissingEnPassant);
        }
        let en_passant_square = if is_single(&components[3], '-') {
            None
        } else {
            match Square::from_notation_chars(&components[3]) {
                Ok(square) => Some(square),
                Err(_) => return Err(FenParseErr::InvalidEnPassant),
            }
        };
        if components.len() < 5 {
            return Err(FenParseErr::MissingHalfMoveClock);
        }
        let half_move_clock = match parse_unsigned_exec(&components[4], u64::MAX) {
            Some(v) => v,
            None => return Err(FenParseErr::InvalidHalfMoveClock),
        };
        if components.len() < 6 {
            return Err(FenParseErr::MissingFullMoveCounter);
        }
        let full_move_counter = match parse_unsigned_exec(&components[5], u32::MAX as u64) {
            Some(v) => v as u32,
            None => return Err(FenParseErr::InvalidFullMoveCounter),
        };
        let game_state = GameState {
            en_passant_square,
            castling_rights,
            half_move_clock,
            captured: None,
            zobrist_key: Zobrist(0),
        };
        let mut board = Board { white_to_move, bit_boards, full_move_counter, game_state };
        board.game_state.zobrist_key = Zobrist::compute(&board);
        Ok(board)
    }

    /// Appends the placement text of one rank.
    fn push_rank(&self, fen: &mut String, rank: i8)
        requires
            0 <= rank <= 7,
        ensures
            final(fen)@ == old(fen)@ + rank_text(self.bit_boards@, rank as int, 0, 0),
    {
        let ghost bbs = self.bit_boards@;
        let ghost start = fen@;
        let mut empty: u32 = 0;
        let mut file: i8 = 0;
        while file < 8
            invariant
                0 <= rank <= 7,
                0 <= file <= 8,
                empty <= file,
                bbs == self.bit_boards@,
                fen@ + rank_text(bbs, rank as int, file as int, empty as nat) == start + rank_text(
                    bbs,
                    rank as int,
                    0,
                    0,
                ),
            decreases 8 - file,
        {
            let piece = self.piece_at(Square::from_coords(rank, file));
            let ghost before = fen@;
            let ghost pending = empty as nat;
            match piece {
                Some(piece) => {
                    push_empty(fen, empty);
                    empty = 0;
                    string_push(fen, piece.to_fen_char());
                    proof {
                        assert(rank_text(bbs, rank as int, file as int, pending) == empty_text(pending)
                            + seq![fen_char_of(piece.spec_index())] + rank_text(bbs, rank as int, file + 1, 0));
                        assert(fen@ + rank_text(bbs, rank as int, file + 1, 0) =~= before + rank_text(
                            bbs,
                            rank as int,
                            file as int,
                            pending,
                        ));
                    }
                },
                None => {
                    empty = empty + 1;
                },
            }
            file = file + 1;
        }
        push_empty(fen, empty);
        proof {
            assert(fen@ =~= start + rank_text(bbs, rank as int, 0, 0));
        }
    }

    /// Gets the Forsyth-Edwards Notation of the Board.
    pub fn to_fen(&self) -> (fen: String)
        ensures
            fen@ == fen_text(*self),
    {
        let mut fen = String::new();
        let ghost bbs = self.bit_boards@;
        let mut rank: i8 = 7;
        while rank > 0
            invariant
                0 <= rank <= 7,
                bbs == self.bit_boards@,
                fen@ + placement_text(bbs, rank as int) == placement_text(bbs, 7),
            decreases rank,
        {
            let ghost start = fen@;
            self.push_rank(&mut fen, rank);
            string_push(&mut fen, '/');
            proof {
                assert(fen@ + placement_text(bbs, rank - 1) =~= start + placement_text(bbs, rank as int));
            }
            rank = rank - 1;
        }
        let ghost start = fen@;
        self.push_rank(&mut fen, 0);
        proof {
            assert(fen@ =~= start + placement_text(bbs, 0));
        }
        let ghost placed = fen@;
        string_push(&mut fen, ' ');
        if self.white_to_move {
            string_push(&mut fen, 'w');
        } else {
            string_push(&mut fen, 'b');
        }
        string_push(&mut fen, ' ');
        let ghost with_side = fen@;
        push_castling(&mut fen, self.game_state.castling_rights);
        string_push(&mut fen, ' ');
        let ghost with_castling = fen@;
        match self.game_state.en_passant_square {
            Some(square) => {
                let notation = square.to_notation();
                push_chars(&mut fen, &notation);
            },
            None => {
                string_push(&mut fen, '-');
            },
        }
        let ghost with_ep = fen@;
        string_push(&mut fen, ' ');
        push_decimal(&mut fen, self.game_state.half_move_clock);
        string_push(&mut fen, ' ');
        push_decimal(&mut fen, self.full_move_counter as u64);
        proof {
            assert(with_ep =~= with_castling + (match self.game_state.en_passant_square {
                Some(square) => square.notation(),
                None => seq!['-'],
            }));
            assert(fen@ =~= fen_text(*self));
        }
        fen
    }
}


} // verus!
