//! Moves and their flags.
use vstd::prelude::*;
use crate::board::piece::{Piece, piece_of};
use crate::board::square::Square;

verus! {

/// Extra move data.
#[derive(Debug, PartialEq, Eq, Clone, Copy, Structural)]
pub enum Flag {
    /// A standard move.
    Normal,
    /// A pawn promoting to a queen.
    QueenPromotion,
    /// A pawn promoting to a rook.
    RookPromotion,
    /// A pawn promoting to a bishop.
    BishopPromotion,
    /// A pawn promoting to a knight.
    KnightPromotion,
    /// En passant.
    EnPassant,
    /// A pawn moving two squares up.
    PawnTwoUp,
    /// The king castling.
    Castle,
}

/// The flag with number `i` (in declaration order, `Normal` is 0 and `Castle` 7).
pub open spec fn flag_of(i: int) -> Flag {
    if i == 0 {
        Flag::Normal
    } else if i == 1 {
        Flag::QueenPromotion
    } else if i == 2 {
        Flag::RookPromotion
    } else if i == 3 {
        Flag::BishopPromotion
    } else if i == 4 {
        Flag::KnightPromotion
    } else if i == 5 {
        Flag::EnPassant
    } else if i == 6 {
        Flag::PawnTwoUp
    } else {
        Flag::Castle
    }
}

/// The piece that a promotion flag promotes to, for the given side.
pub open spec fn promotion_piece(flag: Flag, white: bool) -> Option<Piece> {
    let offset: int = if white { 0 } else { 6 };
    match flag {
        Flag::QueenPromotion => Some(piece_of(4 + offset)),
        Flag::RookPromotion => Some(piece_of(3 + offset)),
        Flag::BishopPromotion => Some(piece_of(2 + offset)),
        Flag::KnightPromotion => Some(piece_of(1 + offset)),
        _ => None,
    }
}

impl Flag {
    /// The number of the flag.
    pub open spec fn spec_index(self) -> int {
        match self {
            Flag::Normal => 0,
            Flag::QueenPromotion => 1,
            Flag::RookPromotion => 2,
            Flag::BishopPromotion => 3,
            Flag::KnightPromotion => 4,
            Flag::EnPassant => 5,
            Flag::PawnTwoUp => 6,
            Flag::Castle => 7,
        }
    }

    /// Whether the flag is one of the four promotions.
    pub open spec fn is_promotion(self) -> bool {
        1 <= self.spec_index() <= 4
    }

    /// The number of the flag.
    pub fn index(self) -> (r: u16)
        ensures
            r == self.spec_index(),
            r < 8,
            flag_of(r as int) == self,
    {
        match self {
            Flag::Normal => 0,
            Flag::QueenPromotion => 1,
            Flag::RookPromotion => 2,
            Flag::BishopPromotion => 3,
            Flag::KnightPromotion => 4,
            Flag::EnPassant => 5,
            Flag::PawnTwoUp => 6,
            Flag::Castle => 7,
        }
    }

    /// The flag with number `index`.
    pub fn from_index(index: u16) -> (r: Self)
        requires
            index < 8,
        ensures
            r == flag_of(index as int),
            r.spec_index() == index,
    {
        match index {
            0 => Flag::Normal,
            1 => Flag::QueenPromotion,
            2 => Flag::RookPromotion,
            3 => Flag::BishopPromotion,
            4 => Flag::KnightPromotion,
            5 => Flag::EnPassant,
            6 => Flag::PawnTwoUp,
            _ => Flag::Castle,
        }
    }

    /// The promotion flag with number `index` (0 queen, 1 rook, 2 bishop, 3 knight).
    pub fn promotion(index: usize) -> (r: Self)
        requires
            index < 4,
        ensures
            r == flag_of(index + 1),
    {
        Self::from_index(index as u16 + 1)
    }

    /// Returns the piece being promoted into if it is a promotion flag, otherwise returns None.
    pub fn get_promotion_piece(&self, white: bool) -> (r: Option<Piece>)
        ensures
            r == promotion_piece(*self, white),
    {
        match self {
            Self::QueenPromotion => Some(
                {
                    if white {
                        Piece::WhiteQueen
                    } else {
                        Piece::BlackQueen
                    }
                },
            ),
            Self::RookPromotion => Some(
                {
                    if white {
                        Piece::WhiteRook
                    } else {
                        Piece::BlackRook
                    }
                },
            ),
            Self::BishopPromotion => Some(
                {
                    if white {
                        Piece::WhiteBishop
                    } else {
                        Piece::BlackBishop
                    }
                },
            ),
            Self::KnightPromotion => Some(
                {
                    if white {
                        Piece::WhiteKnight
                    } else {
                        Piece::BlackKnight
                    }
                },
            ),
            _ => None,
        }
    }
}

/// A piece move.
#[derive(PartialEq, Eq, Clone, Copy, Debug, Structural)]
pub struct Move {
    /// Square the piece is moving from.
    pub from: Square,
    /// Square the piece is moving to.
    pub to: Square,
    /// Type of move.
    pub flag: Flag,
}

} // verus!
