//! Moves packed into 16 bits.
use vstd::prelude::*;
use crate::board::square::Square;
use crate::move_generator::move_data::{Flag, Move, flag_of};

verus! {

/// A move packed into 16 bits: from in bits 0-5, to in bits 6-11, flag in bits 12-15.
#[derive(PartialEq, Eq, Clone, Copy, Debug, Structural)]
pub struct EncodedMove(pub u16);

/// The packing of a from index, a to index and a flag number.
pub open spec fn pack(from: i8, to: i8, flag: int) -> u16 {
    ((from as u16) | ((to as u16) << 6u16) | ((flag as u16) << 12u16)) as u16
}

impl EncodedMove {
    /// The encoded move that stands for no move.
    pub const NONE: u16 = 0;

    /// Whether the flag bits name a flag.
    pub open spec fn decodable(self) -> bool {
        (self.0 >> 12u16) < 8
    }

    /// The move that `decode` gives.
    pub open spec fn spec_decode(self) -> Move {
        Move {
            from: Square((self.0 & 63) as i8),
            to: Square(((self.0 >> 6u16) & 63) as i8),
            flag: flag_of((self.0 >> 12u16) as int),
        }
    }

    /// Packs a move into 16 bits.
    pub fn new(move_data: Move) -> (r: Self)
        ensures
            r.0 == pack(move_data.from.0, move_data.to.0, move_data.flag.spec_index()),
    {
        let mut data: u16 = 0;
        data = data | (move_data.from.index() as u16);
        data = data | ((move_data.to.index() as u16) << 6u16);
        data = data | (move_data.flag.index() << 12u16);
        proof {
            let f = move_data.from.0 as u16;
            let t = move_data.to.0 as u16;
            let g = move_data.flag.spec_index() as u16;
            lemma_u16_fields();
        }
        EncodedMove(data)
    }

    /// Decodes from, to, and flag.
    pub fn decode(self) -> (r: Move)
        requires
            self.decodable(),
        ensures
            r == self.spec_decode(),
    {
        Move { from: self.from(), to: self.to(), flag: *self.flag() }
    }

    /// Returns whether this is the empty move.
    pub fn is_none(self) -> (r: bool)
        ensures
            r == (self.0 == 0),
    {
        self.0 == Self::NONE
    }

    /// The square moved from.
    pub fn from(self) -> (r: Square)
        ensures
            r == self.spec_decode().from,
            r.valid(),
    {
        proof {
            let x = self.0;
            lemma_u16_fields();
        }
        Square::from_index((self.0 & 0b111111) as i8)
    }

    /// The square moved to.
    pub fn to(self) -> (r: Square)
        ensures
            r == self.spec_decode().to,
            r.valid(),
    {
        proof {
            let x = self.0;
            lemma_u16_fields();
        }
        Square::from_index(((self.0 >> 6u16) & 0b111111) as i8)
    }

    /// The flag.
    pub fn flag(&self) -> (r: &Flag)
        requires
            self.decodable(),
        ensures
            *r == self.spec_decode().flag,
    {
        proof {
            let x = self.0;
            lemma_u16_fields();
        }
        let index = (self.0 >> 12u16) & 0b1111;
        match index {
            0 => &Flag::Normal,
            1 => &Flag::QueenPromotion,
            2 => &Flag::RookPromotion,
            3 => &Flag::BishopPromotion,
            4 => &Flag::KnightPromotion,
            5 => &Flag::EnPassant,
            6 => &Flag::PawnTwoUp,
            _ => &Flag::Castle,
        }
    }

    /// From and to squares together: from + 64 * to.
    pub fn without_flag(self) -> (r: u16)
        ensures
            r == self.0 & 0xFFF,
            r < 4096,
    {
        proof {
            let x = self.0;
            lemma_u16_fields();
        }
        self.0 & 0xFFF
    }
}

/// Decoding undoes encoding for moves between squares on the board.
pub proof fn lemma_decode_new(m: Move)
    requires
        m.from.valid(),
        m.to.valid(),
    ensures
        EncodedMove(pack(m.from.0, m.to.0, m.flag.spec_index())).decodable(),
        EncodedMove(pack(m.from.0, m.to.0, m.flag.spec_index())).spec_decode() == m,
{
    let f = m.from.0;
    let t = m.to.0;
    let g = m.flag.spec_index() as u16;
    assert(0 <= g < 8);
    let x = pack(f, t, g as int);
    assert(0 <= f < 64 && 0 <= t < 64 && g < 8 && x == ((f as u16) | ((t as u16) << 6u16) | (g << 12u16)) as u16 ==> ((x & 63) as i8 == f && ((x >> 6u16) & 63) as i8 == t && (x >> 12u16) == g)) by (bit_vector);
    assert(flag_of(g as int) == m.flag);
}

/// Encoding undoes decoding for every encoded move whose flag bits name a flag.
pub proof fn lemma_new_decode(e: EncodedMove)
    requires
        e.decodable(),
    ensures
        pack(e.spec_decode().from.0, e.spec_decode().to.0, e.spec_decode().flag.spec_index()) == e.0,
{
    let x = e.0;
    let g = (x >> 12u16) as int;
    assert(flag_of(g).spec_index() == g);
    let f = (x & 63) as i8;
    let t = ((x >> 6u16) & 63) as i8;
    let h = x >> 12u16;
    assert(h < 8 && f == (x & 63) as i8 && t == ((x >> 6u16) & 63) as i8 && h == x >> 12u16 ==> ((f as u16) | ((t as u16) << 6u16) | (h << 12u16)) == x) by (bit_vector);
}

/// Bounds of the fields of a 16 bit number.
pub proof fn lemma_u16_fields()
    by (bit_vector)
    ensures
        forall|x: u16| #[trigger] (0u16 | x) == x,
        forall|x: u16| #[trigger] (x & 63) < 64,
        forall|x: u16| #[trigger] ((x >> 6u16) & 63) < 64,
        forall|x: u16| #[trigger] ((x >> 12u16) & 15) == x >> 12u16,
        forall|x: u16| #[trigger] (x & 0xFFF) < 4096,
        0u16 >> 12u16 == 0u16,
{
}

} // verus!
