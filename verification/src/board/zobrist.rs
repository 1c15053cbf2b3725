//! Zobrist keys: nearly unique numbers for positions, kept up to date by xor.
use vstd::prelude::*;
use super::bit_board::{BitBoard, bit, lemma_clear_lowest, lemma_bit_laws, lemma_xor_laws};
use super::game_state::CastlingRights;
use super::piece::Piece;
use super::square::Square;
use super::zobrist_randoms::{PIECE_RANDOMS, SIDE_TO_MOVE_RANDOM, EN_PASSANT_RANDOMS, CASTLING_RANDOMS};
use super::Board;
use vstd::std_specs::bits::u64_trailing_zeros;

verus! {

/// An almost unique index number for a chess position.
#[derive(PartialEq, Debug, Clone, Copy, Eq, Structural)]
pub struct Zobrist(pub u64);

/// The random number of `piece_index` standing on `square_index`.
pub open spec fn piece_random(piece_index: int, square_index: int) -> u64 {
    PIECE_RANDOMS[piece_index][square_index]
}

/// Xor of the random numbers of `piece_index` on every square below `n` that `bb` holds.
pub open spec fn piece_key_upto(bb: u64, piece_index: int, n: nat) -> u64
    decreases n,
{
    if n == 0 {
        0
    } else {
        piece_key_upto(bb, piece_index, (n - 1) as nat) ^ if bit(bb, n - 1) {
            piece_random(piece_index, n - 1)
        } else {
            0u64
        }
    }
}

/// Xor of the piece keys of the first `k` bit boards.
pub open spec fn pieces_key(bit_boards: Seq<BitBoard>, k: nat) -> u64
    decreases k,
{
    if k == 0 {
        0
    } else {
        pieces_key(bit_boards, (k - 1) as nat) ^ piece_key_upto(bit_boards[k - 1].0, k - 1, 64)
    }
}

/// The random number of an en passant square, by its file.
pub open spec fn en_passant_random(square: Square) -> u64 {
    EN_PASSANT_RANDOMS[square.spec_file()]
}

/// The key of a position: its pieces, the side to move, the en passant square and the castling rights.
pub open spec fn position_key(
    bit_boards: Seq<BitBoard>,
    white_to_move: bool,
    en_passant_square: Option<Square>,
    castling_rights: CastlingRights,
) -> u64 {
    pieces_key(bit_boards, 12) ^ (if white_to_move {
        0u64
    } else {
        SIDE_TO_MOVE_RANDOM
    }) ^ (match en_passant_square {
        Some(square) => en_passant_random(square),
        None => 0u64,
    }) ^ CASTLING_RANDOMS[castling_rights.0 as int]
}

/// Xor of the piece keys of the bit boards with the given numbers.
pub open spec fn pieces_key_of(bit_boards: Seq<BitBoard>, pieces: Seq<int>) -> u64
    decreases pieces.len(),
{
    if pieces.len() == 0 {
        0
    } else {
        pieces_key_of(bit_boards, pieces.drop_last()) ^ piece_key_upto(
            bit_boards[pieces.last()].0,
            pieces.last(),
            64,
        )
    }
}

/// The pieces that the pawn key is made of.
pub open spec fn pawn_pieces() -> Seq<int> {
    seq![6, 0]
}

/// The pieces that the minor piece key is made of.
pub open spec fn minor_pieces() -> Seq<int> {
    seq![7, 1, 8, 2, 11, 5]
}

impl Zobrist {
    /// Empty hash.
    pub const EMPTY: u64 = 0;

    /// Toggles en passant square from hash.
    pub fn xor_en_passant(&mut self, en_passant_square: &Square)
        ensures
            final(self).0 == old(self).0 ^ en_passant_random(*en_passant_square),
    {
        let file = en_passant_square.file();
        self.0 = self.0 ^ EN_PASSANT_RANDOMS[file as usize];
    }

    /// Toggles castling rights from hash.
    pub fn xor_castling_rights(&mut self, castling_rights: &CastlingRights)
        requires
            castling_rights.valid(),
        ensures
            final(self).0 == old(self).0 ^ CASTLING_RANDOMS[castling_rights.0 as int],
    {
        self.0 = self.0 ^ CASTLING_RANDOMS[castling_rights.internal_value() as usize];
    }

    /// Toggles piece from hash.
    pub fn xor_piece(&mut self, piece_index: usize, square_index: usize)
        requires
            piece_index < 12,
            square_index < 64,
        ensures
            final(self).0 == old(self).0 ^ piece_random(piece_index as int, square_index as int),
    {
        self.0 = self.0 ^ PIECE_RANDOMS[piece_index][square_index];
    }

    /// Toggles side to move from hash.
    pub fn flip_side_to_move(&mut self)
        ensures
            final(self).0 == old(self).0 ^ SIDE_TO_MOVE_RANDOM,
    {
        self.0 = self.0 ^ SIDE_TO_MOVE_RANDOM;
    }

    /// Take lower 32 bits from hash.
    pub fn lower_u32(&self) -> (r: u32)
        ensures
            r == self.0 as u32,
            r == self.0 % 0x1_0000_0000,
    {
        proof {
            let x = self.0;
            assert(x as u32 == x % 0x1_0000_0000) by (bit_vector);
        }
        self.0 as u32
    }

    /// Uniformly maps the key into an integer below `size`.
    pub fn distribute(&self, size: usize) -> (r: u64)
        ensures
            r == (self.0 as int * size as int) / 0x1_0000_0000_0000_0000,
            size > 0 ==> r < size,
    {
        proof {
            let x = self.0 as int;
            let s = size as int;
            assert(0 <= x * s <= 0xFFFF_FFFF_FFFF_FFFF * 0xFFFF_FFFF_FFFF_FFFF) by (nonlinear_arith)
                requires
                    0 <= x <= 0xFFFF_FFFF_FFFF_FFFF,
                    0 <= s <= 0xFFFF_FFFF_FFFF_FFFF,
            ;
        }
        let product: u128 = self.0 as u128 * size as u128;
        proof {
            let x = self.0 as int;
            let s = size as int;
            assert(product as int == x * s);
            assert((product >> 64u128) == product / 0x1_0000_0000_0000_0000) by (bit_vector);
            assert(x * s / 0x1_0000_0000_0000_0000 <= 0xFFFF_FFFF_FFFF_FFFF) by (nonlinear_arith)
                requires
                    0 <= x <= 0xFFFF_FFFF_FFFF_FFFF,
                    0 <= s <= 0xFFFF_FFFF_FFFF_FFFF,
            ;
            if s > 0 {
                assert(x * s / 0x1_0000_0000_0000_0000 < s) by (nonlinear_arith)
                    requires
                        0 <= x < 0x1_0000_0000_0000_0000,
                        0 < s,
                ;
            }
        }
        (product >> 64u128) as u64
    }

    /// The key modulo `size`.
    pub fn modulo(&self, size: u64) -> (r: u64)
        requires
            size != 0,
        ensures
            r == self.0 % size,
    {
        self.0 % size
    }

    /// Computes the position zobrist key.
    pub fn compute(board: &Board) -> (r: Self)
        requires
            board.game_state.castling_rights.valid(),
        ensures
            r.0 == position_key(
                board.bit_boards@,
                board.white_to_move,
                board.game_state.en_passant_square,
                board.game_state.castling_rights,
            ),
    {
        let mut key = Zobrist(0);
        let mut piece: usize = 0;
        while piece < 12
            invariant
                piece <= 12,
                key.0 == pieces_key(board.bit_boards@, piece as nat),
            decreases 12 - piece,
        {
            let bit_board = board.bit_boards[piece];
            let part = piece_key(bit_board, piece);
            key.0 = key.0 ^ part;
            piece = piece + 1;
        }
        let ghost k0 = key.0;
        if !board.white_to_move {
            key.flip_side_to_move();
        }
        let ghost k1 = key.0;
        if let Some(en_passant_square) = board.game_state.en_passant_square {
            key.xor_en_passant(&en_passant_square);
        }
        let ghost k2 = key.0;
        key.xor_castling_rights(&board.game_state.castling_rights);
        proof {
            lemma_xor_zero_left(k0);
            lemma_xor_zero_left(k1);
        }
        key
    }

    /// Computes the pawn zobrist key.
    pub fn pawn_key(board: &Board) -> (r: Self)
        ensures
            r.0 == pieces_key_of(board.bit_boards@, pawn_pieces()),
    {
        let black = piece_key(board.bit_boards[Piece::BlackPawn.index()], Piece::BlackPawn.index());
        let white = piece_key(board.bit_boards[Piece::WhitePawn.index()], Piece::WhitePawn.index());
        proof {
            reveal_with_fuel(pieces_key_of, 3);
            assert(pawn_pieces().drop_last() =~= seq![6int]);
            assert(pawn_pieces().drop_last().drop_last() =~= Seq::<int>::empty());
            lemma_xor_zero_left(black);
        }
        Zobrist(black ^ white)
    }

    /// Computes the minor piece zobrist key: knights, bishops and kings.
    pub fn minor_piece_key(board: &Board) -> (r: Self)
        ensures
            r.0 == pieces_key_of(board.bit_boards@, minor_pieces()),
    {
        let mut key: u64 = 0;
        let order: [usize; 6] = [7, 1, 8, 2, 11, 5];
        let mut i: usize = 0;
        while i < 6
            invariant
                i <= 6,
                order@ == seq![7usize, 1, 8, 2, 11, 5],
                key == pieces_key_of(board.bit_boards@, minor_pieces().take(i as int)),
            decreases 6 - i,
        {
            let piece = order[i];
            let part = piece_key(board.bit_boards[piece], piece);
            proof {
                let next = minor_pieces().take(i + 1);
                assert(next.drop_last() =~= minor_pieces().take(i as int));
                assert(next.last() == piece);
            }
            key = key ^ part;
            i = i + 1;
        }
        proof {
            assert(minor_pieces().take(6) =~= minor_pieces());
        }
        Zobrist(key)
    }
}

/// Xor of the random numbers of `piece_index` on every square of `bit_board`,
/// popping the squares from the lowest up.
pub fn piece_key(bit_board: BitBoard, piece_index: usize) -> (r: u64)
    requires
        piece_index < 12,
    ensures
        r == piece_key_upto(bit_board.0, piece_index as int, 64),
{
    let mut remaining = bit_board;
    let mut key: u64 = 0;
    let ghost mut lo: nat = 0;
    while remaining.is_not_empty()
        invariant
            piece_index < 12,
            lo <= 64,
            forall|i: int| 0 <= i < 64 ==> #[trigger] bit(remaining.0, i) == (bit(bit_board.0, i) && i >= lo),
            key == piece_key_upto(bit_board.0, piece_index as int, lo),
        decreases remaining.0,
    {
        proof {
            lemma_clear_lowest(remaining.0);
        }
        let ghost before = remaining.0;
        let square = remaining.pop_square();
        proof {
            let s = square.0 as int;
            assert(s >= lo) by {
                if s < lo {
                    assert(bit(before, s));
                }
            }
            assert forall|i: int| lo <= i < s implies !bit(bit_board.0, i) by {
                assert(!bit(before, i));
            }
            lemma_piece_key_skip(bit_board.0, piece_index as int, lo, s as nat);
            assert(bit(bit_board.0, s)) by {
                assert(bit(before, s));
            }
            lo = (s + 1) as nat;
            assert forall|i: int| 0 <= i < 64 implies #[trigger] bit(remaining.0, i) == (bit(bit_board.0, i) && i >= lo) by {
                assert(bit(remaining.0, i) == (bit(before, i) && i != s));
            }
        }
        key = key ^ PIECE_RANDOMS[piece_index][square.usize()];
    }
    proof {
        assert forall|i: int| lo <= i < 64 implies !bit(bit_board.0, i) by {
            let iu = i as u64;
            assert(bit(remaining.0, i) == (bit(bit_board.0, i) && i >= lo));
            lemma_bit_laws();
            assert((0u64 >> iu) & 1 == 0);
        }
        lemma_piece_key_skip(bit_board.0, piece_index as int, lo, 64);
    }
    key
}

/// Squares that the bit board does not hold add nothing to its key.
pub proof fn lemma_piece_key_skip(bb: u64, piece_index: int, a: nat, b: nat)
    requires
        a <= b,
        forall|i: int| a <= i < b ==> !#[trigger] bit(bb, i),
    ensures
        piece_key_upto(bb, piece_index, b) == piece_key_upto(bb, piece_index, a),
    decreases b - a,
{
    if a < b {
        lemma_piece_key_skip(bb, piece_index, a, (b - 1) as nat);
        let prev = piece_key_upto(bb, piece_index, (b - 1) as nat);
        assert(!bit(bb, b - 1));
        lemma_xor_laws();
        assert(prev ^ 0u64 == prev);
    }
}

/// Xor with zero on the left changes nothing.
pub proof fn lemma_xor_zero_left(x: u64)
    ensures
        0u64 ^ x == x,
        x ^ 0u64 == x,
{
    lemma_xor_laws();
}

/// Xor is associative and commutative, zero is its unit and every value is its own inverse.
pub proof fn lemma_xor_facts()
    ensures
        forall|a: u64, b: u64, c: u64| #[trigger] ((a ^ b) ^ c) == (a ^ c) ^ b,
        forall|a: u64, b: u64, c: u64| #[trigger] ((a ^ b) ^ c) == a ^ (b ^ c),
        forall|a: u64| #[trigger] (a ^ 0u64) == a,
        forall|a: u64, b: u64| #[trigger] ((a ^ b) ^ b) == a,
        forall|a: u64, b: u64| #[trigger] (a ^ b) == b ^ a,
{
    lemma_xor_laws();
}

/// Toggling square `s` of a bit board toggles its random number in the key.
pub proof fn lemma_piece_key_toggle(x: u64, piece_index: int, s: int, n: nat)
    requires
        0 <= s < 64,
        n <= 64,
    ensures
        piece_key_upto(x ^ (1u64 << (s as u64)), piece_index, n) == piece_key_upto(x, piece_index, n)
            ^ if s < n {
            piece_random(piece_index, s)
        } else {
            0u64
        },
    decreases n,
{
    let y = x ^ (1u64 << (s as u64));
    lemma_xor_facts();
    if n > 0 {
        lemma_piece_key_toggle(x, piece_index, s, (n - 1) as nat);
        let i = n - 1;
        let su = s as u64;
        let iu = i as u64;
        lemma_bit_laws();
        assert(bit(y, i) == (bit(x, i) != (i == s)));
    }
}

/// Replacing bit board `p` changes the key by the old and the new piece keys of `p`.
pub proof fn lemma_pieces_key_update(bit_boards: Seq<BitBoard>, p: int, y: BitBoard, k: nat)
    requires
        bit_boards.len() == 12,
        0 <= p < 12,
        k <= 12,
    ensures
        pieces_key(bit_boards.update(p, y), k) == pieces_key(bit_boards, k) ^ if p < k {
            piece_key_upto(bit_boards[p].0, p, 64) ^ piece_key_upto(y.0, p, 64)
        } else {
            0u64
        },
    decreases k,
{
    lemma_xor_facts();
    if k > 0 {
        lemma_pieces_key_update(bit_boards, p, y, (k - 1) as nat);
    }
}

/// Toggling square `s` of bit board `p` toggles that random number in the key of all twelve.
pub proof fn lemma_pieces_key_toggle(bit_boards: Seq<BitBoard>, p: int, s: int)
    requires
        bit_boards.len() == 12,
        0 <= p < 12,
        0 <= s < 64,
    ensures
        pieces_key(bit_boards.update(p, BitBoard(bit_boards[p].0 ^ (1u64 << (s as u64)))), 12)
            == pieces_key(bit_boards, 12) ^ piece_random(p, s),
{
    lemma_xor_facts();
    let x = bit_boards[p].0;
    lemma_pieces_key_update(bit_boards, p, BitBoard(x ^ (1u64 << (s as u64))), 12);
    lemma_piece_key_toggle(x, p, s, 64);
    let a = piece_key_upto(x, p, 64);
    let r = piece_random(p, s);
    let base = pieces_key(bit_boards, 12);
    lemma_xor_laws();
    assert(a ^ (a ^ r) == (r ^ a) ^ a);
    assert(base ^ (a ^ (a ^ r)) == base ^ r);
}

} // verus!
