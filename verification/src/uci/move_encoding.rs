//! Moves in UCI notation.
use vstd::prelude::*;
use crate::board::Board;
use crate::board::piece::Piece;
use crate::board::square::{Square, lemma_parse_notation_of_notation};
use crate::uci::{UciError, parse_uci_move};
use crate::move_generator::move_data::{Flag, Move};
use crate::text::{push_chars, string_push};

verus! {

/// The move that stands for no move: from a1 to a1, with no flag.
pub open spec fn null_move() -> Move {
    Move { from: Square(0), to: Square(0), flag: Flag::Normal }
}

/// The letter of a promotion, if the flag is one.
pub open spec fn promotion_suffix(flag: Flag) -> Seq<char> {
    match flag {
        Flag::QueenPromotion => seq!['q'],
        Flag::RookPromotion => seq!['r'],
        Flag::KnightPromotion => seq!['n'],
        Flag::BishopPromotion => seq!['b'],
        _ => Seq::empty(),
    }
}

/// A move in UCI notation: the squares from and to, then the promotion letter; no move is
/// `0000`.
pub open spec fn uci_notation(m: Move) -> Seq<char> {
    if m == null_move() {
        seq!['0', '0', '0', '0']
    } else {
        m.from.notation() + m.to.notation() + promotion_suffix(m.flag)
    }
}

/// Encodes a move in UCI notation.
pub fn encode_move(move_data: Move) -> (r: String)
    ensures
        r@ == uci_notation(move_data),
{
    let null = Move { from: Square(0), to: Square(0), flag: Flag::Normal };
    let mut encoded = String::new();
    if move_data == null {
        string_push(&mut encoded, '0');
        string_push(&mut encoded, '0');
        string_push(&mut encoded, '0');
        string_push(&mut encoded, '0');
        proof {
            assert(encoded@ =~= uci_notation(move_data));
        }
        return encoded;
    }
    push_chars(&mut encoded, &move_data.from.to_notation());
    push_chars(&mut encoded, &move_data.to.to_notation());
    match move_data.flag {
        Flag::QueenPromotion => string_push(&mut encoded, 'q'),
        Flag::RookPromotion => string_push(&mut encoded, 'r'),
        Flag::KnightPromotion => string_push(&mut encoded, 'n'),
        Flag::BishopPromotion => string_push(&mut encoded, 'b'),
        _ => {},
    }
    proof {
        assert(encoded@ =~= uci_notation(move_data));
    }
    encoded
}

/// Whether a piece is a pawn.
pub open spec fn is_pawn(p: Piece) -> bool {
    p == Piece::WhitePawn || p == Piece::BlackPawn
}

/// Whether a piece is a king.
pub open spec fn is_king(p: Piece) -> bool {
    p == Piece::WhiteKing || p == Piece::BlackKing
}

/// The absolute difference of two integers.
pub open spec fn distance(a: int, b: int) -> int {
    if a >= b {
        a - b
    } else {
        b - a
    }
}

/// The flag of the move from `from` to `to` given with `promotion`: a pawn moving two ranks
/// moves two up, a pawn moving to the en passant square captures en passant, a king moving more
/// than one file castles, and otherwise the promotion given.
pub open spec fn decoded_flag(b: Board, from: Square, to: Square, promotion: Flag) -> Flag {
    let piece = b.spec_friendly_piece_at(from.0 as int)->0;
    if is_pawn(piece) {
        if distance(from.spec_rank(), to.spec_rank()) == 2 {
            Flag::PawnTwoUp
        } else if b.game_state.en_passant_square == Some(to) {
            Flag::EnPassant
        } else {
            promotion
        }
    } else if is_king(piece) && distance(from.spec_file(), to.spec_file()) > 1 {
        Flag::Castle
    } else {
        promotion
    }
}

/// The move from `from` to `to` in the position, with its flag worked out from the piece moved;
/// the promotion letter's flag is `promotion`.
pub fn decode_move(board: &Board, from: Square, to: Square, promotion: Flag) -> (r: Move)
    requires
        from.valid(),
        to.valid(),
        board.spec_friendly_piece_at(from.0 as int) is Some,
    ensures
        r == (Move { from, to, flag: decoded_flag(*board, from, to, promotion) }),
{
    let piece = match board.friendly_piece_at(from) {
        Some(piece) => piece,
        None => Piece::WhitePawn,
    };
    let mut flag = promotion;
    if piece == Piece::WhitePawn || piece == Piece::BlackPawn {
        let from_rank = from.rank();
        let to_rank = to.rank();
        let rank_distance = if from_rank >= to_rank { from_rank - to_rank } else { to_rank - from_rank };
        if rank_distance == 2 {
            flag = Flag::PawnTwoUp;
        } else if board.game_state.en_passant_square == Some(to) {
            flag = Flag::EnPassant;
        }
    } else if piece == Piece::BlackKing || piece == Piece::WhiteKing {
        let from_file = from.file();
        let to_file = to.file();
        let file_distance = if from_file >= to_file { from_file - to_file } else { to_file - from_file };
        if file_distance > 1 {
            flag = Flag::Castle;
        }
    }
    Move { from, to, flag }
}


/// How a move given by its squares is read: a king of the side to move that steps two files
/// along its rank, towards either side, castles; a king that steps at most one file moves
/// normally with the promotion given; a pawn of the side to move that goes two ranks moves two up,
/// and one that reaches the en passant square otherwise captures en passant. Reading the move
/// mirrored across the king's file (the target as many files to the other side) gives the same
/// flag.
pub proof fn lemma_decoded_flags(b: Board, from: Square, to: Square, mirrored_to: Square, promotion: Flag)
    requires
        from.valid(),
        to.valid(),
        mirrored_to.valid(),
        mirrored_to.spec_rank() == to.spec_rank(),
        mirrored_to.spec_file() - from.spec_file() == from.spec_file() - to.spec_file(),
    ensures
        ({
            let piece = b.spec_friendly_piece_at(from.0 as int);
            let king = piece == Some(Piece::WhiteKing) || piece == Some(Piece::BlackKing);
            let pawn = piece == Some(Piece::WhitePawn) || piece == Some(Piece::BlackPawn);
            let df = to.spec_file() - from.spec_file();
            let dr = to.spec_rank() - from.spec_rank();
            &&& king && (df == 2 || df == -2) ==> decoded_flag(b, from, to, promotion) == Flag::Castle
            &&& king && -1 <= df <= 1 ==> decoded_flag(b, from, to, promotion) == promotion
            &&& pawn && (dr == 2 || dr == -2) ==> decoded_flag(b, from, to, promotion) == Flag::PawnTwoUp
            &&& pawn && dr != 2 && dr != -2 && b.game_state.en_passant_square == Some(to) ==> decoded_flag(b, from, to, promotion)
                == Flag::EnPassant
            &&& king ==> decoded_flag(b, from, mirrored_to, promotion) == decoded_flag(b, from, to, promotion)
            &&& !king && !pawn && piece is Some ==> decoded_flag(b, from, to, promotion) == promotion
        }),
{
}

/// The promotion that a move's notation carries: its flag if that is a promotion, else none.
pub open spec fn notated_promotion(flag: Flag) -> Flag {
    match flag {
        Flag::QueenPromotion => Flag::QueenPromotion,
        Flag::RookPromotion => Flag::RookPromotion,
        Flag::KnightPromotion => Flag::KnightPromotion,
        Flag::BishopPromotion => Flag::BishopPromotion,
        _ => Flag::Normal,
    }
}

/// Reading back the UCI notation of a move between two squares on the board gives its squares
/// and its promotion.
pub proof fn lemma_uci_notation_round_trip(m: Move)
    requires
        m.from.valid(),
        m.to.valid(),
        m != null_move(),
    ensures
        parse_uci_move(uci_notation(m)) == Ok::<(Square, Square, Flag), UciError>(
            (m.from, m.to, notated_promotion(m.flag)),
        ),
{
    lemma_parse_notation_of_notation(m.from);
    lemma_parse_notation_of_notation(m.to);
    let t = uci_notation(m);
    assert(t.subrange(0, 2) =~= m.from.notation());
    assert(t.subrange(2, 4) =~= m.to.notation());
    assert(t.subrange(4, t.len() as int) =~= promotion_suffix(m.flag));
}

} // verus!
