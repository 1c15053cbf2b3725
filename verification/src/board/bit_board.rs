//! 64 bit sets of squares.
use vstd::prelude::*;
use vstd::std_specs::bits::{u64_leading_zeros, u64_trailing_zeros, axiom_u64_leading_zeros, axiom_u64_trailing_zeros};
use super::square::{Square, on_board};

verus! {

/// Whether bit `i` of `x` is set.
pub open spec fn bit(x: u64, i: int) -> bool {
    (x >> (i as u64)) & 1 == 1
}

/// Number of set bits among the lowest `n` bits of `x`.
pub open spec fn bits_below(x: u64, n: nat) -> nat
    decreases n,
{
    if n == 0 {
        0
    } else {
        bits_below(x, (n - 1) as nat) + if bit(x, n - 1) {
            1nat
        } else {
            0nat
        }
    }
}

/// Number of set bits of `x`.
pub open spec fn popcount(x: u64) -> nat {
    bits_below(x, 64)
}

/// Bit board with all bits set except the A file.
pub const NOT_A_FILE: u64 = 0xFEFE_FEFE_FEFE_FEFE;

/// Bit board with all bits set except the H file.
pub const NOT_H_FILE: u64 = 0x7F7F_7F7F_7F7F_7F7F;

/// Bit board with only the first rank set.
pub const RANK_1: u64 = 0xFF;

/// Bit board with only the second rank set.
pub const RANK_2: u64 = 0xFF00;

/// Bit board with only the third rank set.
pub const RANK_3: u64 = 0xFF_0000;

/// Bit board with only the fourth rank set.
pub const RANK_4: u64 = 0xFF00_0000;

/// Bit board with only the fifth rank set.
pub const RANK_5: u64 = 0xFF_0000_0000;

/// Bit board with only the sixth rank set.
pub const RANK_6: u64 = 0xFF00_0000_0000;

/// Bit board with only the seventh rank set.
pub const RANK_7: u64 = 0xFF_0000_0000_0000;

/// Bit board with only the eighth rank set.
pub const RANK_8: u64 = 0xFF00_0000_0000_0000;

/// Bit board with no bits set.
pub const EMPTY: u64 = 0;

/// Bit board with all bits set.
pub const FULL: u64 = 0xFFFF_FFFF_FFFF_FFFF;

/// The light squares (b1, a2, ...).
pub const LIGHT_SQUARES: u64 = 0x55AA_55AA_55AA_55AA;

/// The dark squares (a1, c1, ...).
pub const DARK_SQUARES: u64 = 0xAA55_AA55_AA55_AA55;

/// 64 bit number where each bit represents a square.
#[derive(Copy, Clone, PartialEq, Eq, Debug, Structural)]
pub struct BitBoard(pub u64);

impl BitBoard {
    /// Whether the square with index `i` is in the set.
    pub open spec fn has(self, i: int) -> bool {
        on_board(i) && bit(self.0, i)
    }

    /// Bit board from a 64 bit number.
    pub fn new(bits: u64) -> (r: Self)
        ensures
            r.0 == bits,
    {
        BitBoard(bits)
    }

    /// Bit board with the square set.
    pub fn from_square(square: &Square) -> (r: Self)
        requires
            square.valid(),
        ensures
            r.0 == 1u64 << (square.0 as u64),
    {
        BitBoard(1u64 << (square.index() as u64))
    }

    /// Sets a square.
    pub fn set(&mut self, square: &Square)
        requires
            square.valid(),
        ensures
            final(self).0 == old(self).0 | (1u64 << (square.0 as u64)),
    {
        *self = self.or(square.bit_board());
    }

    /// Unsets a square.
    pub fn unset(&mut self, square: &Square)
        requires
            square.valid(),
        ensures
            final(self).0 == old(self).0 & !(1u64 << (square.0 as u64)),
    {
        *self = self.and(square.bit_board().not());
    }

    /// Toggles a square.
    pub fn toggle(&mut self, square: &Square)
        requires
            square.valid(),
        ensures
            final(self).0 == old(self).0 ^ (1u64 << (square.0 as u64)),
    {
        *self = self.xor(square.bit_board());
    }

    /// Toggles two squares.
    pub fn toggle_two(&mut self, a: &Square, b: &Square)
        requires
            a.valid(),
            b.valid(),
        ensures
            final(self).0 == old(self).0 ^ ((1u64 << (a.0 as u64)) | (1u64 << (b.0 as u64))),
    {
        *self = self.xor(a.bit_board().or(b.bit_board()));
    }

    /// Squares in both bit boards.
    pub fn and(self, rhs: Self) -> (r: Self)
        ensures
            r.0 == self.0 & rhs.0,
    {
        BitBoard(self.0 & rhs.0)
    }

    /// Squares in either bit board.
    pub fn or(self, rhs: Self) -> (r: Self)
        ensures
            r.0 == self.0 | rhs.0,
    {
        BitBoard(self.0 | rhs.0)
    }

    /// Squares in exactly one of the bit boards.
    pub fn xor(self, rhs: Self) -> (r: Self)
        ensures
            r.0 == self.0 ^ rhs.0,
    {
        BitBoard(self.0 ^ rhs.0)
    }

    /// Squares not in the bit board.
    pub fn not(self) -> (r: Self)
        ensures
            r.0 == !self.0,
    {
        BitBoard(!self.0)
    }

    /// Shifts every square up by `rhs` indices; squares past h8 are lost.
    pub fn shl(self, rhs: u8) -> (r: Self)
        requires
            rhs < 64,
        ensures
            r.0 == self.0 << rhs,
    {
        BitBoard(self.0 << rhs)
    }

    /// Shifts every square down by `rhs` indices; squares before a1 are lost.
    pub fn shr(self, rhs: u8) -> (r: Self)
        requires
            rhs < 64,
        ensures
            r.0 == self.0 >> rhs,
    {
        BitBoard(self.0 >> rhs)
    }

    /// Returns whether no bits are set.
    pub fn is_empty(&self) -> (r: bool)
        ensures
            r == (self.0 == 0),
    {
        self.0 == 0
    }

    /// Returns whether any bits are set.
    pub fn is_not_empty(&self) -> (r: bool)
        ensures
            r == (self.0 != 0),
    {
        self.0 != 0
    }

    /// Returns whether there is more than one bit set.
    pub fn more_than_one_bit_set(&self) -> (r: bool)
        ensures
            r == exists|i: int, j: int| i != j && #[trigger] self.has(i) && #[trigger] self.has(j),
    {
        let x = self.0;
        let w = x.wrapping_sub(1);
        let r = (x & w) != 0;
        proof {
            lemma_bit_laws();
            if x == 0 {
                assert(x & w == 0);
                assert forall|i: int| !self.has(i) by {
                    if on_board(i) {
                        let iu = i as u64;
                        assert((0u64 >> iu) & 1 == 0);
                    }
                }
            } else {
                assert(w == (x - 1) as u64);
                lemma_clear_lowest(x);
                let t = u64_trailing_zeros(x) as int;
                assert(self.has(t));
                if r {
                    let y = x & ((x - 1) as u64);
                    lemma_clear_lowest(y);
                    let s = u64_trailing_zeros(y) as int;
                    assert(bit(y, s));
                    assert(bit(x, s) && s != t);
                    assert(self.has(s) && self.has(t));
                } else {
                    let y = x & ((x - 1) as u64);
                    assert forall|i: int| on_board(i) && i != t implies !#[trigger] bit(x, i) by {
                        let iu = i as u64;
                        assert(bit(y, i) == (bit(x, i) && i != t));
                        assert((0u64 >> iu) & 1 == 0);
                    }
                    assert forall|i: int, j: int| i != j && self.has(i) implies !self.has(j) by {
                        if self.has(j) {
                            assert(bit(x, i) && bit(x, j));
                        }
                    }
                }
            }
        }
        r
    }

    /// Returns whether there are any bits set in both bit boards.
    pub fn overlaps(&self, bit_board: &Self) -> (r: bool)
        ensures
            r == (self.0 & bit_board.0 != 0),
    {
        self.and(*bit_board).is_not_empty()
    }

    /// Returns whether a square is set.
    pub fn get(&self, square: &Square) -> (r: bool)
        requires
            square.valid(),
        ensures
            r == self.has(square.0 as int),
    {
        let r = self.overlaps(&square.bit_board());
        proof {
            lemma_bit_laws();
            let x = self.0;
            let i = square.0 as u64;
            assert((x & (1u64 << i)) != 0 <==> (x >> i) & 1 == 1);
        }
        r
    }

    /// Gets the last (highest) square; index -1 when empty.
    pub fn last_square(&self) -> (r: Square)
        ensures
            r.0 == 63 - u64_leading_zeros(self.0),
            self.0 != 0 ==> self.has(r.0 as int),
            self.0 != 0 ==> forall|i: int| r.0 < i < 64 ==> !#[trigger] self.has(i),
    {
        proof {
            axiom_u64_leading_zeros(self.0);
        }
        let lz = self.0.leading_zeros();
        proof {
            let x = self.0;
            if x != 0 {
                lemma_bit_laws();
                assert(bit(x, 63 - lz));
            }
        }
        Square::from_index(63 - lz as i8)
    }

    /// Gets the first (lowest) square; index 64 when empty.
    pub fn first_square(&self) -> (r: Square)
        ensures
            r.0 == u64_trailing_zeros(self.0),
            self.0 != 0 ==> self.has(r.0 as int),
            forall|i: int| 0 <= i < r.0 ==> !#[trigger] self.has(i),
    {
        proof {
            axiom_u64_trailing_zeros(self.0);
        }
        Square::from_index(self.0.trailing_zeros() as i8)
    }

    /// Pops the first square.
    pub fn pop_square(&mut self) -> (r: Square)
        requires
            old(self).0 != 0,
        ensures
            r.0 == u64_trailing_zeros(old(self).0),
            r.valid(),
            old(self).has(r.0 as int),
            final(self).0 == old(self).0 & (old(self).0 - 1) as u64,
            final(self).0 == old(self).0 & !(1u64 << (r.0 as u64)),
            final(self).0 < old(self).0,
            forall|i: int| #[trigger] final(self).has(i) == (old(self).has(i) && i != r.0),
            forall|i: int| 0 <= i < r.0 ==> !#[trigger] old(self).has(i),
    {
        proof {
            lemma_clear_lowest(self.0);
            lemma_bit_laws();
        }
        let index = self.first_square();
        self.0 = self.0 & (self.0 - 1);
        index
    }

    /// Returns how many bits are set.
    pub fn count(&self) -> (r: u32)
        ensures
            r == popcount(self.0),
    {
        let x = self.0;
        let mut c: u32 = 0;
        let mut i: u64 = 0;
        while i < 64
            invariant
                i <= 64,
                c == bits_below(x, i as nat),
                c <= i,
            decreases 64 - i,
        {
            if (x >> i) & 1 == 1 {
                c = c + 1;
            }
            i = i + 1;
        }
        c
    }

    /// Used to traverse subsets of a set: takes the current subset and finds the next higher subset of `d`.
    pub fn carry_rippler(&self, d: Self) -> (r: Self)
        ensures
            r.0 == (self.0.wrapping_sub(d.0)) & d.0,
    {
        BitBoard(self.0.wrapping_sub(d.0) & d.0)
    }

    /// Multiplies by `magic`, then right shifts by `shift`.
    pub fn magic_index(&self, magic: u64, shift: u8) -> (r: usize)
        requires
            shift < 64,
        ensures
            r == (self.0.wrapping_mul(magic) >> (shift as u64)) as usize,
    {
        let hash = self.0.wrapping_mul(magic);
        (hash >> (shift as u64)) as usize
    }
}

/// What the bitwise operations do to each bit of a 64 bit number.
pub proof fn lemma_bit_laws()
    by (bit_vector)
    ensures
        forall|x: u64, y: u64, i: u64| i < 64 ==> (((#[trigger] ((x & y) >> i)) & 1 == 1) == (((x >> i) & 1 == 1) && ((y >> i) & 1 == 1))),
        forall|x: u64, y: u64, i: u64| i < 64 ==> (((#[trigger] ((x | y) >> i)) & 1 == 1) == (((x >> i) & 1 == 1) || ((y >> i) & 1 == 1))),
        forall|x: u64, y: u64, i: u64| i < 64 ==> (((#[trigger] ((x ^ y) >> i)) & 1 == 1) == (((x >> i) & 1 == 1) != ((y >> i) & 1 == 1))),
        forall|x: u64, i: u64| i < 64 ==> (((#[trigger] ((!x) >> i)) & 1 == 1) == !((x >> i) & 1 == 1)),
        forall|s: u64, i: u64| s < 64 && i < 64 ==> (((#[trigger] ((1u64 << s) >> i)) & 1 == 1) == (i == s)),
        forall|i: u64| i < 64 ==> (#[trigger] (0u64 >> i)) & 1 == 0,
        forall|i: u64| i < 64 ==> (#[trigger] (0xFFFF_FFFF_FFFF_FFFFu64 >> i)) & 1 == 1,
        forall|x: u64, i: u64| i < 64 ==> ((#[trigger] (x & (1u64 << i)) != 0) == ((x >> i) & 1 == 1)),
        forall|v: u64| (#[trigger] (v & 1u64)) != 0u64 ==> v & 1u64 == 1u64,
        forall|y: u64| #[trigger] (0u64 & y) == 0u64,
        forall|x: u64| x != 0 ==> #[trigger] (x & ((x - 1) as u64)) < x,
{
}

/// What shifts do to each bit of a 64 bit number.
pub proof fn lemma_shift_laws()
    by (bit_vector)
    ensures
        forall|x: u64, s: u64, i: u64| s < 64 && i < 64 ==> (((#[trigger] ((x << s) >> i)) & 1 == 1) == (i >= s && ((x >> ((i - s) as u64)) & 1 == 1))),
        forall|x: u64, s: u64, i: u64| s < 64 && i < 64 ==> (((#[trigger] ((x >> s) >> i)) & 1 == 1) == (i + s < 64 && ((x >> ((i + s) as u64)) & 1 == 1))),
{
}

/// Xor is associative and commutative, zero is its unit and every value is its own inverse.
pub proof fn lemma_xor_laws()
    by (bit_vector)
    ensures
        forall|a: u64, b: u64, c: u64| #[trigger] ((a ^ b) ^ c) == (a ^ c) ^ b,
        forall|a: u64, b: u64, c: u64| #[trigger] ((a ^ b) ^ c) == a ^ (b ^ c),
        forall|a: u64| #[trigger] (a ^ 0u64) == a,
        forall|a: u64| #[trigger] (0u64 ^ a) == a,
        forall|a: u64, b: u64| #[trigger] ((a ^ b) ^ b) == a,
        forall|a: u64, b: u64| #[trigger] (a ^ b) == b ^ a,
{
}

/// Which squares the constant masks hold, and what the castling masks test.
pub proof fn lemma_mask_bits()
    by (bit_vector)
    ensures
        forall|i: u64| i < 64 ==> (((#[trigger] (0xFEFE_FEFE_FEFE_FEFEu64 >> i)) & 1 == 1) == (i % 8 != 0)),
        forall|i: u64| i < 64 ==> (((#[trigger] (0x7F7F_7F7F_7F7F_7F7Fu64 >> i)) & 1 == 1) == (i % 8 != 7)),
        forall|i: u64| i < 64 ==> (((#[trigger] (0xFFu64 >> i)) & 1 == 1) == (i < 8)),
        forall|i: u64| i < 64 ==> (((#[trigger] (0xFF00u64 >> i)) & 1 == 1) == (8 <= i < 16)),
        forall|i: u64| i < 64 ==> (((#[trigger] (0xFF_0000_0000_0000u64 >> i)) & 1 == 1) == (48 <= i < 56)),
        forall|i: u64| i < 64 ==> (((#[trigger] (0xFF00_0000_0000_0000u64 >> i)) & 1 == 1) == (56 <= i)),
        forall|x: u64| (#[trigger] (0x60u64 & x) == 0) == (((x >> 5u64) & 1 != 1) && ((x >> 6u64) & 1 != 1)),
        forall|x: u64| (#[trigger] (0x6000_0000_0000_0000u64 & x) == 0) == (((x >> 61u64) & 1 != 1) && ((x >> 62u64) & 1 != 1)),
        forall|x: u64| (#[trigger] (0x0Eu64 & x) == 0) == (((x >> 1u64) & 1 != 1) && ((x >> 2u64) & 1 != 1) && ((x >> 3u64) & 1 != 1)),
        forall|x: u64| (#[trigger] (0x0E00_0000_0000_0000u64 & x) == 0) == (((x >> 57u64) & 1 != 1) && ((x >> 58u64) & 1 != 1) && ((x >> 59u64) & 1 != 1)),
        forall|x: u64| (#[trigger] (0x0Cu64 & x) == 0) == (((x >> 2u64) & 1 != 1) && ((x >> 3u64) & 1 != 1)),
        forall|x: u64| (#[trigger] (0x0C00_0000_0000_0000u64 & x) == 0) == (((x >> 58u64) & 1 != 1) && ((x >> 59u64) & 1 != 1)),
{
}

/// Clearing the lowest set bit: `x & (x - 1)` keeps every set bit but the lowest.
pub proof fn lemma_clear_lowest(x: u64)
    requires
        x != 0,
    ensures
        0 <= u64_trailing_zeros(x) < 64,
        bit(x, u64_trailing_zeros(x) as int),
        x & ((x - 1) as u64) == x & !(1u64 << (u64_trailing_zeros(x) as u64)),
        forall|i: int| #![trigger bit(x & ((x - 1) as u64), i)]
            0 <= i < 64 ==> bit(x & ((x - 1) as u64), i) == (bit(x, i) && i != u64_trailing_zeros(x)),
        forall|i: int| 0 <= i < u64_trailing_zeros(x) ==> !#[trigger] bit(x, i),
{
    axiom_u64_trailing_zeros(x);
    let t = u64_trailing_zeros(x) as u64;
    assert(t < 64 && (x >> t) & 1 == 1 && x << ((64 - t) as u64) == 0 ==> x & (x - 1) as u64
        == x & !(1u64 << t)) by (bit_vector);
    assert forall|i: int| 0 <= i < 64 implies #[trigger] bit(x & ((x - 1) as u64), i) == (bit(x, i)
        && i != t) by {
        let iu = i as u64;
        assert(t < 64 && iu < 64 && (x >> t) & 1 == 1 && x << ((64 - t) as u64) == 0 ==> (((x & (x - 1) as u64) >> iu) & 1 == 1 <==> ((x >> iu) & 1 == 1 && iu != t))) by (bit_vector);
    }
    assert forall|i: int| 0 <= i < t implies !#[trigger] bit(x, i) by {
        assert((x >> (i as u64)) & 1u64 == 0u64);
    }
}

/// How single-bit updates act on the bits of a 64 bit number.
pub proof fn lemma_bit_updates(x: u64, s: u64, t: u64)
    requires
        s < 64,
        t < 64,
    ensures
        forall|i: int| 0 <= i < 64 ==> #[trigger] bit(x & !(1u64 << s), i) == (bit(x, i) && i != s),
        forall|i: int| 0 <= i < 64 ==> #[trigger] bit(x | (1u64 << s), i) == (bit(x, i) || i == s),
        forall|i: int| 0 <= i < 64 ==> #[trigger] bit(x ^ (1u64 << s), i) == (bit(x, i) != (i == s)),
        s != t ==> forall|i: int| 0 <= i < 64 ==> #[trigger] bit(x ^ ((1u64 << s) | (1u64 << t)), i) == (bit(x, i) != (i == s || i == t)),
        (x ^ ((1u64 << s) | (1u64 << t))) ^ ((1u64 << s) | (1u64 << t)) == x,
        bit(x, s as int) ==> (x & !(1u64 << s)) | (1u64 << s) == x,
        !bit(x, s as int) ==> (x | (1u64 << s)) & !(1u64 << s) == x,
{
    lemma_bit_laws();
    assert forall|i: int| 0 <= i < 64 implies #[trigger] bit(x ^ ((1u64 << s) | (1u64 << t)), i) == (bit(x, i) != (i == s || i == t)) by {
        let iu = i as u64;
        assert(((1u64 << s) | (1u64 << t)) >> iu & 1 == 1 <==> (iu == s || iu == t));
    }
    assert((x ^ ((1u64 << s) | (1u64 << t))) ^ ((1u64 << s) | (1u64 << t)) == x && (s < 64 && (x >> s) & 1
        == 1 ==> (x & !(1u64 << s)) | (1u64 << s) == x) && (s < 64 && !((x >> s) & 1 == 1) ==> (x | (1u64
        << s)) & !(1u64 << s) == x)) by (bit_vector);
}

/// Setting a clear bit, clearing a set bit and toggling two bits are all toggles.
pub proof fn lemma_updates_as_toggles(x: u64, s: u64, t: u64)
    requires
        s < 64,
        t < 64,
    ensures
        bit(x, s as int) ==> x & !(1u64 << s) == x ^ (1u64 << s),
        !bit(x, s as int) ==> x | (1u64 << s) == x ^ (1u64 << s),
        s != t ==> x ^ ((1u64 << s) | (1u64 << t)) == (x ^ (1u64 << s)) ^ (1u64 << t),
{
    assert((s < 64 && (x >> s) & 1 == 1 ==> x & !(1u64 << s) == x ^ (1u64 << s)) && (s < 64 && !((x >> s) & 1
        == 1) ==> x | (1u64 << s) == x ^ (1u64 << s)) && (s < 64 && t < 64 && s != t ==> x ^ ((1u64 << s) | (1u64
        << t)) == (x ^ (1u64 << s)) ^ (1u64 << t))) by (bit_vector);
}


/// Two numbers with the same 64 bits are equal.
pub proof fn lemma_bits_equal(x: u64, y: u64)
    requires
        forall|i: int| 0 <= i < 64 ==> #[trigger] bit(x, i) == bit(y, i),
    ensures
        x == y,
{
    if x != y {
        assert(x != y ==> x ^ y != 0) by (bit_vector);
        lemma_clear_lowest(x ^ y);
        lemma_bit_laws();
        let t = u64_trailing_zeros(x ^ y) as int;
        assert(bit(x, t) == bit(y, t));
        assert(bit(x ^ y, t) == (bit(x, t) != bit(y, t)));
    }
}

} // verus!
