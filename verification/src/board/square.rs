//! Squares of the board, numbered 0 (a1) to 63 (h8).
use vstd::prelude::*;
use crate::text::{chars_of, decimal, push_decimal, signed_decimal, string_push};
use super::bit_board::BitBoard;

verus! {

/// A square, held as its index: rank * 8 + file, with a1 = 0 and h8 = 63.
/// Indices outside 0..64 stand for squares off the board.
#[derive(PartialEq, Eq, Copy, Clone, Debug, Structural)]
pub struct Square(pub i8);

/// A step between square indices.
pub type Direction = i8;

/// One rank up.
pub const UP_OFFSET: i8 = 8;

/// One rank down.
pub const DOWN_OFFSET: i8 = -8;

/// One file left.
pub const LEFT_OFFSET: i8 = -1;

/// One file right.
pub const RIGHT_OFFSET: i8 = 1;

/// The eight directions: right, up, left, down, up-left, up-right, down-left, down-right.
pub open spec fn direction(i: int) -> int {
    if i == 0 {
        1
    } else if i == 1 {
        8
    } else if i == 2 {
        -1
    } else if i == 3 {
        -8
    } else if i == 4 {
        7
    } else if i == 5 {
        9
    } else if i == 6 {
        -9
    } else {
        -7
    }
}

/// The direction with number `i` (see [`direction`]).
pub fn direction_at(i: usize) -> (d: i8)
    requires
        i < 8,
    ensures
        d == direction(i as int),
{
    match i {
        0 => RIGHT_OFFSET,
        1 => UP_OFFSET,
        2 => LEFT_OFFSET,
        3 => DOWN_OFFSET,
        4 => UP_OFFSET + LEFT_OFFSET,
        5 => UP_OFFSET + RIGHT_OFFSET,
        6 => DOWN_OFFSET + LEFT_OFFSET,
        _ => DOWN_OFFSET + RIGHT_OFFSET,
    }
}

/// Whether an index is on the board.
pub open spec fn on_board(i: int) -> bool {
    0 <= i < 64
}

/// Whether `v` fits in an `i8`.
pub open spec fn fits_i8(v: int) -> bool {
    -128 <= v <= 127
}

impl Square {
    /// Whether the square is on the board.
    pub open spec fn valid(self) -> bool {
        on_board(self.0 as int)
    }

    /// The file: index modulo 8, so always in 0..8.
    pub open spec fn spec_file(self) -> int {
        (self.0 as int) % 8
    }

    /// The rank: index divided by 8, rounded down.
    pub open spec fn spec_rank(self) -> int {
        (self.0 as int) / 8
    }

    /// The notation: file letter then rank number (from 1).
    pub open spec fn notation(self) -> Seq<char> {
        seq![((97 + self.spec_file()) as u32) as char].add(signed_decimal(self.spec_rank() + 1))
    }

    /// Returns the square from the index.
    pub fn from_index(index: i8) -> (r: Self)
        ensures
            r.0 == index,
    {
        Square(index)
    }

    /// Returns the square from rank number and file number.
    pub fn from_coords(rank: i8, file: i8) -> (r: Self)
        requires
            fits_i8(rank * 8),
            fits_i8(rank * 8 + file),
        ensures
            r.0 == rank * 8 + file,
    {
        Square(rank * 8 + file)
    }

    /// Ranks up from white's perspective.
    pub fn up(&self, number: i8) -> (r: Self)
        requires
            fits_i8(8 * number),
            fits_i8(self.0 + 8 * number),
        ensures
            r.0 == self.0 + 8 * number,
    {
        self.offset(UP_OFFSET * number)
    }

    /// Ranks down from white's perspective.
    pub fn down(&self, number: i8) -> (r: Self)
        requires
            fits_i8(-8 * number),
            fits_i8(self.0 - 8 * number),
        ensures
            r.0 == self.0 - 8 * number,
    {
        self.offset(DOWN_OFFSET * number)
    }

    /// Files left from white's perspective.
    pub fn left(&self, number: i8) -> (r: Self)
        requires
            fits_i8(-number),
            fits_i8(self.0 - number),
        ensures
            r.0 == self.0 - number,
    {
        self.offset(LEFT_OFFSET * number)
    }

    /// Files right from white's perspective.
    pub fn right(&self, number: i8) -> (r: Self)
        requires
            fits_i8(self.0 + number),
        ensures
            r.0 == self.0 + number,
    {
        self.offset(RIGHT_OFFSET * number)
    }

    /// Adds to the index.
    pub fn offset(&self, offset: i8) -> (r: Self)
        requires
            fits_i8(self.0 + offset),
        ensures
            r.0 == self.0 + offset,
    {
        Square(self.index() + offset)
    }

    /// Returns 63 >= square >= 0.
    pub fn within_bounds(&self) -> (r: bool)
        ensures
            r == self.valid(),
    {
        self.index() >= 0 && self.index() < 64
    }

    /// Returns the index of the square.
    pub fn index(&self) -> (r: i8)
        ensures
            r == self.0,
    {
        self.0
    }

    /// Returns the index of the square as an usize.
    pub fn usize(&self) -> (r: usize)
        ensures
            r == self.0 as usize,
            self.valid() ==> r as int == self.0 as int,
    {
        self.0 as usize
    }

    /// Returns the square if viewed on a flipped board: same file, mirrored rank.
    pub fn flip(&self) -> (r: Self)
        ensures
            r.0 == self.0 ^ 56,
            self.valid() ==> r.valid() && r.spec_file() == self.spec_file() && r.spec_rank()
                == 7 - self.spec_rank(),
    {
        let r = Square(self.index() ^ 56);
        proof {
            let x = self.0;
            assert(0 <= x < 64 ==> 0 <= (x ^ 56) < 64 && (x ^ 56) & 7 == x & 7 && (x ^ 56) >> 3
                == 7 - (x >> 3)) by (bit_vector);
            if self.valid() {
                lemma_file_rank(x);
                lemma_file_rank(x ^ 56);
            }
        }
        r
    }

    /// Returns the file of the square.
    pub fn file(&self) -> (r: i8)
        ensures
            r == self.spec_file(),
            0 <= r < 8,
    {
        proof {
            lemma_file_rank(self.0);
        }
        self.index() & 0b111
    }

    /// Returns the rank of the square.
    pub fn rank(&self) -> (r: i8)
        ensures
            r == self.spec_rank(),
            self.valid() ==> 0 <= r < 8,
    {
        proof {
            lemma_file_rank(self.0);
        }
        self.index() >> 3
    }

    /// Returns the notation of the square.
    pub fn to_notation(self) -> (s: String)
        ensures
            s@ == self.notation(),
    {
        let file = self.file();
        let rank = self.rank();
        let mut s = String::new();
        let file_char = file_letter(file);
        string_push(&mut s, file_char);
        let rank_number: i8 = rank + 1;
        if rank_number < 0 {
            string_push(&mut s, '-');
            let magnitude: u64 = (0 - rank_number) as u64;
            push_decimal(&mut s, magnitude);
        } else {
            push_decimal(&mut s, rank_number as u64);
        }
        proof {
            assert(s@ =~= self.notation());
        }
        s
    }

    /// Returns the square from the coordinate notation: a file letter `a` to `h`
    /// then a rank digit `1` to `8`; anything after these two characters is ignored.
    pub fn from_notation(notation: &str) -> (r: Result<Self, &'static str>)
        ensures
            r == parse_notation(notation@),
    {
        let chars = chars_of(notation);
        Self::from_notation_chars(&chars)
    }

    /// [`Square::from_notation`] on characters.
    pub fn from_notation_chars(chars: &Vec<char>) -> (r: Result<Self, &'static str>)
        ensures
            r == parse_notation(chars@),
    {
        if chars.len() == 0 || !('a' <= chars[0] && chars[0] <= 'h') {
            return Err("Invalid file");
        }
        if chars.len() < 2 || !('1' <= chars[1] && chars[1] <= '8') {
            return Err("Invalid rank");
        }
        let file: i8 = (chars[0] as u32 - 97) as i8;
        let rank: i8 = (chars[1] as u32 - 49) as i8;
        Ok(Self::from_coords(rank, file))
    }

    /// The bit board with only this square set.
    pub fn bit_board(&self) -> (r: BitBoard)
        requires
            self.valid(),
        ensures
            r.0 == 1u64 << (self.0 as u64),
    {
        BitBoard::from_square(self)
    }
}

/// What [`Square::from_notation`] returns for the characters `s`.
pub open spec fn parse_notation(s: Seq<char>) -> Result<Square, &'static str> {
    if s.len() == 0 || !('a' <= s[0] <= 'h') {
        Err("Invalid file")
    } else if s.len() < 2 || !('1' <= s[1] <= '8') {
        Err("Invalid rank")
    } else {
        Ok(Square(((s[1] as int - 49) * 8 + (s[0] as int - 97)) as i8))
    }
}

/// The letter of a file in 0..8.
fn file_letter(file: i8) -> (c: char)
    requires
        0 <= file < 8,
    ensures
        c == ((97 + file) as u32) as char,
{
    match file {
        0 => 'a',
        1 => 'b',
        2 => 'c',
        3 => 'd',
        4 => 'e',
        5 => 'f',
        6 => 'g',
        _ => 'h',
    }
}

/// The low three bits of an index are its file and the rest its rank.
pub proof fn lemma_file_rank(x: i8)
    ensures
        x & 7 == (x as int) % 8,
        x >> 3 == (x as int) / 8,
        0 <= x & 7 < 8,
{
    assert(0 <= x & 7 < 8) by (bit_vector);
    assert(x == 8 * (x >> 3) + (x & 7)) by (bit_vector);
}


/// Reading a square's notation back gives the square.
pub proof fn lemma_parse_notation_of_notation(sq: Square)
    requires
        sq.valid(),
    ensures
        parse_notation(sq.notation()) == Ok::<Square, &'static str>(sq),
{
    let file = sq.spec_file();
    let rank = sq.spec_rank();
    assert(0 <= rank < 8);
    assert(decimal((rank + 1) as nat) == seq![(((rank + 1) + 48) as u32) as char]);
    let s = sq.notation();
    assert(s.len() == 2);
    assert(s[0] == ((97 + file) as u32) as char);
    assert(s[1] == ((49 + rank) as u32) as char);
    assert(s[0] as int == 97 + file);
    assert(s[1] as int == 49 + rank);
    assert(rank * 8 + file == sq.0 as int);
}

} // verus!
