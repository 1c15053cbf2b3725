//! Castling rights and the state that a move cannot be undone without.
use vstd::prelude::*;
use crate::text::chars_of;
use super::piece::Piece;
use super::square::Square;
use super::zobrist::Zobrist;

verus! {

/// Bit of the white king side right.
pub const WHITE_KING_SIDE_OFFSET: u8 = 0;

/// Bit of the white queen side right.
pub const WHITE_QUEEN_SIDE_OFFSET: u8 = 1;

/// Bit of the black king side right.
pub const BLACK_KING_SIDE_OFFSET: u8 = 2;

/// Bit of the black queen side right.
pub const BLACK_QUEEN_SIDE_OFFSET: u8 = 3;

/// The four castling rights, one bit each.
#[derive(Copy, Clone, PartialEq, Eq, Structural)]
pub struct CastlingRights(pub u8);

/// Whether bit `offset` of `v` is set.
pub open spec fn has_bit8(v: u8, offset: u8) -> bool {
    v & (1u8 << offset) != 0
}

impl CastlingRights {
    /// The value fits in four bits.
    pub open spec fn valid(self) -> bool {
        self.0 < 16
    }

    /// Whether only the four right bits may be set.
    pub fn is_valid(&self) -> (r: bool)
        ensures
            r == self.valid(),
    {
        self.0 < 16
    }

    /// Can white castle king side.
    pub fn get_white_king_side(&self) -> (r: bool)
        ensures
            r == has_bit8(self.0, WHITE_KING_SIDE_OFFSET),
    {
        self.0 & (1u8 << WHITE_KING_SIDE_OFFSET) != 0
    }

    /// Can white castle queen side.
    pub fn get_white_queen_side(&self) -> (r: bool)
        ensures
            r == has_bit8(self.0, WHITE_QUEEN_SIDE_OFFSET),
    {
        self.0 & (1u8 << WHITE_QUEEN_SIDE_OFFSET) != 0
    }

    /// Can black castle king side.
    pub fn get_black_king_side(&self) -> (r: bool)
        ensures
            r == has_bit8(self.0, BLACK_KING_SIDE_OFFSET),
    {
        self.0 & (1u8 << BLACK_KING_SIDE_OFFSET) != 0
    }

    /// Can black castle queen side.
    pub fn get_black_queen_side(&self) -> (r: bool)
        ensures
            r == has_bit8(self.0, BLACK_QUEEN_SIDE_OFFSET),
    {
        self.0 & (1u8 << BLACK_QUEEN_SIDE_OFFSET) != 0
    }

    /// Grants white the king side right.
    pub fn set_white_king_side(&mut self)
        ensures
            final(self).0 == old(self).0 | (1u8 << WHITE_KING_SIDE_OFFSET),
    {
        self.0 = self.0 | (1u8 << WHITE_KING_SIDE_OFFSET);
    }

    /// Grants white the queen side right.
    pub fn set_white_queen_side(&mut self)
        ensures
            final(self).0 == old(self).0 | (1u8 << WHITE_QUEEN_SIDE_OFFSET),
    {
        self.0 = self.0 | (1u8 << WHITE_QUEEN_SIDE_OFFSET);
    }

    /// Grants black the king side right.
    pub fn set_black_king_side(&mut self)
        ensures
            final(self).0 == old(self).0 | (1u8 << BLACK_KING_SIDE_OFFSET),
    {
        self.0 = self.0 | (1u8 << BLACK_KING_SIDE_OFFSET);
    }

    /// Grants black the queen side right.
    pub fn set_black_queen_side(&mut self)
        ensures
            final(self).0 == old(self).0 | (1u8 << BLACK_QUEEN_SIDE_OFFSET),
    {
        self.0 = self.0 | (1u8 << BLACK_QUEEN_SIDE_OFFSET);
    }

    /// Removes white's king side right.
    pub fn unset_white_king_side(&mut self)
        ensures
            final(self).0 == old(self).0 & !(1u8 << WHITE_KING_SIDE_OFFSET),
    {
        self.0 = self.0 & !(1u8 << WHITE_KING_SIDE_OFFSET);
    }

    /// Removes white's queen side right.
    pub fn unset_white_queen_side(&mut self)
        ensures
            final(self).0 == old(self).0 & !(1u8 << WHITE_QUEEN_SIDE_OFFSET),
    {
        self.0 = self.0 & !(1u8 << WHITE_QUEEN_SIDE_OFFSET);
    }

    /// Removes black's king side right.
    pub fn unset_black_king_side(&mut self)
        ensures
            final(self).0 == old(self).0 & !(1u8 << BLACK_KING_SIDE_OFFSET),
    {
        self.0 = self.0 & !(1u8 << BLACK_KING_SIDE_OFFSET);
    }

    /// Removes black's queen side right.
    pub fn unset_black_queen_side(&mut self)
        ensures
            final(self).0 == old(self).0 & !(1u8 << BLACK_QUEEN_SIDE_OFFSET),
    {
        self.0 = self.0 & !(1u8 << BLACK_QUEEN_SIDE_OFFSET);
    }

    /// Castling rights from the four permissions.
    pub fn new(
        white_can_castle_king_side: bool,
        white_can_castle_queen_side: bool,
        black_can_castle_king_side: bool,
        black_can_castle_queen_side: bool,
    ) -> (r: Self)
        ensures
            r.valid(),
            r.0 == rights_value(
                white_can_castle_king_side,
                white_can_castle_queen_side,
                black_can_castle_king_side,
                black_can_castle_queen_side,
            ),
            has_bit8(r.0, WHITE_KING_SIDE_OFFSET) == white_can_castle_king_side,
            has_bit8(r.0, WHITE_QUEEN_SIDE_OFFSET) == white_can_castle_queen_side,
            has_bit8(r.0, BLACK_KING_SIDE_OFFSET) == black_can_castle_king_side,
            has_bit8(r.0, BLACK_QUEEN_SIDE_OFFSET) == black_can_castle_queen_side,
    {
        let mut data: u8 = 0;
        if white_can_castle_king_side {
            data = data + 1;
        }
        if white_can_castle_queen_side {
            data = data + 2;
        }
        if black_can_castle_king_side {
            data = data + 4;
        }
        if black_can_castle_queen_side {
            data = data + 8;
        }
        proof {
            lemma_rights_bits();
        }
        CastlingRights(data)
    }

    /// Castling rights from the third FEN field: `-` for none, otherwise
    /// whether each of `K`, `Q`, `k`, `q` occurs.
    pub fn from_fen_section(castling_rights: &str) -> (r: Self)
        ensures
            r.valid(),
            r == spec_castling_from_fen(castling_rights@),
    {
        let chars = chars_of(castling_rights);
        Self::from_fen_chars(&chars)
    }

    /// [`CastlingRights::from_fen_section`] on characters.
    pub fn from_fen_chars(chars: &Vec<char>) -> (r: Self)
        ensures
            r.valid(),
            r == spec_castling_from_fen(chars@),
    {
        if chars.len() == 1 && chars[0] == '-' {
            proof {
                assert(chars@ =~= seq!['-']);
            }
            Self::new(false, false, false, false)
        } else {
            proof {
                assert(chars@ != seq!['-']) by {
                    if chars@ == seq!['-'] {
                        assert(chars@.len() == 1 && chars@[0] == '-');
                    }
                }
            }
            Self::new(
                contains_char(chars, 'K'),
                contains_char(chars, 'Q'),
                contains_char(chars, 'k'),
                contains_char(chars, 'q'),
            )
        }
    }

    /// Returns whether no sides can castle.
    pub fn is_none(&self) -> (r: bool)
        ensures
            r == (self.0 == 0),
    {
        self.0 == 0
    }

    /// The raw value: bit 0 white king side, 1 white queen side, 2 black king side, 3 black queen side.
    pub fn internal_value(&self) -> (r: u8)
        ensures
            r == self.0,
    {
        self.0
    }
}

/// The value that holds the four permissions.
pub open spec fn rights_value(wk: bool, wq: bool, bk: bool, bq: bool) -> u8 {
    ((if wk { 1int } else { 0int }) + (if wq { 2int } else { 0int }) + (if bk { 4int } else { 0int })
        + (if bq { 8int } else { 0int })) as u8
}

/// The castling rights that a FEN castling field describes.
pub open spec fn spec_castling_from_fen(s: Seq<char>) -> CastlingRights {
    if s == seq!['-'] {
        CastlingRights(0)
    } else {
        CastlingRights(rights_value(s.contains('K'), s.contains('Q'), s.contains('k'), s.contains('q')))
    }
}

/// Whether `c` occurs in `chars`.
pub fn contains_char(chars: &Vec<char>, c: char) -> (r: bool)
    ensures
        r == chars@.contains(c),
{
    let mut i: usize = 0;
    while i < chars.len()
        invariant
            i <= chars.len(),
            forall|j: int| 0 <= j < i ==> chars@[j] != c,
        decreases chars.len() - i,
    {
        if chars[i] == c {
            return true;
        }
        i = i + 1;
    }
    false
}

/// What a move cannot be undone without.
#[derive(Copy, Clone)]
pub struct GameState {
    /// The square which can be captured by en passant.
    pub en_passant_square: Option<Square>,
    /// Which sides may still castle.
    pub castling_rights: CastlingRights,
    /// Half moves since the last capture or pawn move.
    pub half_move_clock: u64,
    /// The last captured piece.
    pub captured: Option<Piece>,
    /// Zobrist key of the position.
    pub zobrist_key: Zobrist,
}

/// The four rights are the four lowest bits of a number below 16.
pub proof fn lemma_rights_bits()
    by (bit_vector)
    ensures
        forall|d: u8| d < 16 ==> (#[trigger] (d & 1) != 0) == (d % 2 == 1),
        forall|d: u8| d < 16 ==> (#[trigger] (d & 2) != 0) == ((d / 2) % 2 == 1),
        forall|d: u8| d < 16 ==> (#[trigger] (d & 4) != 0) == ((d / 4) % 2 == 1),
        forall|d: u8| d < 16 ==> (#[trigger] (d & 8) != 0) == (d / 8 == 1),
        forall|w: u8| w < 16 ==> (#[trigger] (w & !1u8)) < 16,
        forall|w: u8| w < 16 ==> (#[trigger] (w & !2u8)) < 16,
        forall|w: u8| w < 16 ==> (#[trigger] (w & !4u8)) < 16,
        forall|w: u8| w < 16 ==> (#[trigger] (w & !8u8)) < 16,
        1u8 << 0u8 == 1u8,
        1u8 << 1u8 == 2u8,
        1u8 << 2u8 == 4u8,
        1u8 << 3u8 == 8u8,
{
}

} // verus!
