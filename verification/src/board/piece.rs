//! Pieces.
use vstd::prelude::*;

verus! {

/// A piece.
#[derive(Copy, Clone, PartialEq, Eq, Debug, Structural)]
pub enum Piece {
    /// A white pawn.
    WhitePawn,
    /// A white knight.
    WhiteKnight,
    /// A white bishop.
    WhiteBishop,
    /// A white rook.
    WhiteRook,
    /// A white queen.
    WhiteQueen,
    /// A white king.
    WhiteKing,
    /// A black pawn.
    BlackPawn,
    /// A black knight.
    BlackKnight,
    /// A black bishop.
    BlackBishop,
    /// A black rook.
    BlackRook,
    /// A black queen.
    BlackQueen,
    /// A black king.
    BlackKing,
}

/// The piece with number `i` (0 to 11, white pawn to black king).
pub open spec fn piece_of(i: int) -> Piece {
    if i == 0 {
        Piece::WhitePawn
    } else if i == 1 {
        Piece::WhiteKnight
    } else if i == 2 {
        Piece::WhiteBishop
    } else if i == 3 {
        Piece::WhiteRook
    } else if i == 4 {
        Piece::WhiteQueen
    } else if i == 5 {
        Piece::WhiteKing
    } else if i == 6 {
        Piece::BlackPawn
    } else if i == 7 {
        Piece::BlackKnight
    } else if i == 8 {
        Piece::BlackBishop
    } else if i == 9 {
        Piece::BlackRook
    } else if i == 10 {
        Piece::BlackQueen
    } else {
        Piece::BlackKing
    }
}

/// The FEN letter of each piece number.
pub open spec fn fen_char_of(i: int) -> char {
    if i == 0 {
        'P'
    } else if i == 1 {
        'N'
    } else if i == 2 {
        'B'
    } else if i == 3 {
        'R'
    } else if i == 4 {
        'Q'
    } else if i == 5 {
        'K'
    } else if i == 6 {
        'p'
    } else if i == 7 {
        'n'
    } else if i == 8 {
        'b'
    } else if i == 9 {
        'r'
    } else if i == 10 {
        'q'
    } else {
        'k'
    }
}

impl Piece {
    /// The number of the piece: white pawn 0 up to black king 11.
    pub open spec fn spec_index(self) -> int {
        match self {
            Piece::WhitePawn => 0,
            Piece::WhiteKnight => 1,
            Piece::WhiteBishop => 2,
            Piece::WhiteRook => 3,
            Piece::WhiteQueen => 4,
            Piece::WhiteKing => 5,
            Piece::BlackPawn => 6,
            Piece::BlackKnight => 7,
            Piece::BlackBishop => 8,
            Piece::BlackRook => 9,
            Piece::BlackQueen => 10,
            Piece::BlackKing => 11,
        }
    }

    /// The number of the piece: white pawn 0 up to black king 11.
    pub fn index(self) -> (r: usize)
        ensures
            r == self.spec_index(),
            r < 12,
            piece_of(r as int) == self,
    {
        match self {
            Piece::WhitePawn => 0,
            Piece::WhiteKnight => 1,
            Piece::WhiteBishop => 2,
            Piece::WhiteRook => 3,
            Piece::WhiteQueen => 4,
            Piece::WhiteKing => 5,
            Piece::BlackPawn => 6,
            Piece::BlackKnight => 7,
            Piece::BlackBishop => 8,
            Piece::BlackRook => 9,
            Piece::BlackQueen => 10,
            Piece::BlackKing => 11,
        }
    }

    /// The piece with number `index`.
    pub fn from_index(index: usize) -> (r: Self)
        requires
            index < 12,
        ensures
            r == piece_of(index as int),
            r.spec_index() == index,
    {
        match index {
            0 => Piece::WhitePawn,
            1 => Piece::WhiteKnight,
            2 => Piece::WhiteBishop,
            3 => Piece::WhiteRook,
            4 => Piece::WhiteQueen,
            5 => Piece::WhiteKing,
            6 => Piece::BlackPawn,
            7 => Piece::BlackKnight,
            8 => Piece::BlackBishop,
            9 => Piece::BlackRook,
            10 => Piece::BlackQueen,
            _ => Piece::BlackKing,
        }
    }

    /// Converts a piece into a FEN character.
    pub fn to_fen_char(self) -> (c: char)
        ensures
            c == fen_char_of(self.spec_index()),
    {
        match self {
            Self::WhitePawn => 'P',
            Self::WhiteKnight => 'N',
            Self::WhiteBishop => 'B',
            Self::WhiteRook => 'R',
            Self::WhiteQueen => 'Q',
            Self::WhiteKing => 'K',
            Self::BlackPawn => 'p',
            Self::BlackKnight => 'n',
            Self::BlackBishop => 'b',
            Self::BlackRook => 'r',
            Self::BlackQueen => 'q',
            Self::BlackKing => 'k',
        }
    }

    /// Tries to convert a FEN character into the piece.
    ///
    /// Returns `Err` if `character` is not one of `PNBRQKpnbrqk`.
    pub fn from_fen_char(character: &char) -> (r: Result<Self, &'static str>)
        ensures
            r is Ok <==> is_piece_char(*character),
            r matches Ok(p) ==> fen_char_of(p.spec_index()) == *character,
            r is Err ==> r == Err::<Self, &'static str>("Invalid piece"),
    {
        match character {
            'P' => Ok(Self::WhitePawn),
            'N' => Ok(Self::WhiteKnight),
            'B' => Ok(Self::WhiteBishop),
            'R' => Ok(Self::WhiteRook),
            'Q' => Ok(Self::WhiteQueen),
            'K' => Ok(Self::WhiteKing),
            'p' => Ok(Self::BlackPawn),
            'n' => Ok(Self::BlackKnight),
            'b' => Ok(Self::BlackBishop),
            'r' => Ok(Self::BlackRook),
            'q' => Ok(Self::BlackQueen),
            'k' => Ok(Self::BlackKing),
            _ => Err("Invalid piece"),
        }
    }
}

/// Whether `c` is the FEN letter of some piece.
pub open spec fn is_piece_char(c: char) -> bool {
    c == 'P' || c == 'N' || c == 'B' || c == 'R' || c == 'Q' || c == 'K' || c == 'p' || c == 'n'
        || c == 'b' || c == 'r' || c == 'q' || c == 'k'
}

/// Every piece has its own FEN letter, and reading a letter back gives the piece.
pub proof fn lemma_fen_char_round_trip(p: Piece)
    ensures
        is_piece_char(fen_char_of(p.spec_index())),
        forall|i: int| 0 <= i < 12 && #[trigger] fen_char_of(i) == fen_char_of(p.spec_index()) ==> i
            == p.spec_index(),
{
    assert(0 <= p.spec_index() < 12);
}

} // verus!
