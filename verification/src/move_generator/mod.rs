//! Legal move generation.
use vstd::prelude::*;
use crate::board::Board;
use crate::board::game_state::{has_bit8, WHITE_KING_SIDE_OFFSET, WHITE_QUEEN_SIDE_OFFSET, BLACK_KING_SIDE_OFFSET, BLACK_QUEEN_SIDE_OFFSET};
use crate::board::piece::Piece;
use crate::board::bit_board::{BitBoard, bit, lemma_bit_laws, lemma_clear_lowest, lemma_mask_bits, lemma_bits_equal};
use crate::board::square::{Square, on_board};
use self::move_data::{Flag, Move};
use self::precomputed::{
    knight_jump, king_step, pawn_capture_step, knight_attack_bit_board, king_attack_bit_board,
    attack_bit_board, between_ray, get_between_rays,
};
use self::slider_lookup::{
    slider_attacks, relevant_blocker, get_rook_moves, get_bishop_moves, relevant_rook_blockers,
    relevant_bishop_blockers, lemma_relevant_blockers_suffice, lemma_slider_attacks_on_board,
    lemma_diagonal_orthogonal_apart,
};

pub mod capture_moves;
pub mod king_safety;
pub mod maker;
pub mod move_data;
pub mod pawn_move_generator;
pub mod playable;
pub mod precomputed;
pub mod slider_lookup;

verus! {

/// The squares from which enemy pieces attack square `king`: the enemy pawns, knights, diagonal
/// sliders (bishops, queens) and orthogonal sliders (rooks, queens) given, with the squares of
/// `occupied` blocking the sliders. `white` is the side that owns the attacked square.
pub open spec fn attacker(
    king: int,
    white: bool,
    pawns: u64,
    knights: u64,
    diagonal: u64,
    orthogonal: u64,
    occupied: u64,
    t: int,
) -> bool {
    &&& on_board(t)
    &&& {
        ||| bit(diagonal, t) && slider_attacks(king, occupied, 4, t)
        ||| bit(orthogonal, t) && slider_attacks(king, occupied, 0, t)
        ||| bit(pawns, t) && pawn_capture_step(king, t, white)
        ||| bit(knights, t) && knight_jump(king, t)
    }
}

/// A slider attack from `from` computed on the relevant blockers equals the one on all of `occupied`.
proof fn lemma_masked_slider(from: int, occupied: u64, relevant: BitBoard, offset: int)
    requires
        on_board(from),
        offset == 0 || offset == 4,
        forall|t: int| #[trigger] relevant.has(t) == relevant_blocker(from, offset, t),
    ensures
        forall|t: int| #[trigger] slider_attacks(from, occupied & relevant.0, offset, t) == slider_attacks(from, occupied, offset, t),
{
    assert forall|u: int| #[trigger] relevant_blocker(from, offset, u) implies bit(relevant.0, u) by {
        assert(relevant.has(u));
    }
    assert forall|t: int| #[trigger] slider_attacks(from, occupied & relevant.0, offset, t) == slider_attacks(from, occupied, offset, t) by {
        lemma_relevant_blockers_suffice(from, offset, occupied, relevant.0, t);
    }
}

/// The squares attacked by a rook on `from` with the squares of `occupied` blocking.
pub(crate) fn rook_attacks(from: Square, occupied: BitBoard) -> (r: BitBoard)
    requires
        from.valid(),
    ensures
        forall|t: int| #[trigger] r.has(t) == slider_attacks(from.0 as int, occupied.0, 0, t),
{
    let relevant = relevant_rook_blockers(from);
    proof {
        lemma_masked_slider(from.0 as int, occupied.0, relevant, 0);
    }
    get_rook_moves(from, occupied.and(relevant))
}

/// The squares attacked by a bishop on `from` with the squares of `occupied` blocking.
pub(crate) fn bishop_attacks(from: Square, occupied: BitBoard) -> (r: BitBoard)
    requires
        from.valid(),
    ensures
        forall|t: int| #[trigger] r.has(t) == slider_attacks(from.0 as int, occupied.0, 4, t),
{
    let relevant = relevant_bishop_blockers(from);
    proof {
        lemma_masked_slider(from.0 as int, occupied.0, relevant, 4);
    }
    get_bishop_moves(from, occupied.and(relevant))
}

/// Legal move generator.
pub struct MoveGenerator {
    /// Whether white is to move.
    pub white_to_move: bool,
    /// Whether the side to move may still castle king side.
    pub king_side: bool,
    /// Whether the side to move may still castle queen side.
    pub queen_side: bool,
    /// The square a pawn may capture en passant on.
    pub en_passant_square: Option<Square>,
    /// All pieces of the side to move.
    pub friendly_piece_bit_board: BitBoard,
    /// Pawns of the side to move.
    pub friendly_pawns: BitBoard,
    /// Knights of the side to move.
    pub friendly_knights: BitBoard,
    /// Bishops and queens of the side to move.
    pub friendly_diagonal: BitBoard,
    /// Rooks and queens of the side to move.
    pub friendly_orthogonal: BitBoard,
    /// Square of the king of the side to move.
    pub friendly_king_square: Square,
    /// Squares the king of the side to move may not step on.
    pub king_danger_bit_board: BitBoard,
    /// All pieces of the side not to move.
    pub enemy_piece_bit_board: BitBoard,
    /// Rooks and queens of the side not to move.
    pub enemy_orthogonal: BitBoard,
    /// All pieces.
    pub occupied_squares: BitBoard,
    /// The squares without a piece.
    pub empty_squares: BitBoard,
    /// Whether the side to move is in check.
    pub is_in_check: bool,
    /// Whether two pieces give check.
    pub is_in_double_check: bool,
    /// Squares of the diagonal rays that pin a piece to the king, with the pinners.
    pub diagonal_pin_rays: BitBoard,
    /// Squares of the orthogonal rays that pin a piece to the king, with the pinners.
    pub orthogonal_pin_rays: BitBoard,
    /// The squares of the pieces that give check, or every square when not in check.
    pub check_mask: BitBoard,
    /// The squares between a checking slider and the king, or every square when not in check.
    pub push_mask: BitBoard,
}

impl MoveGenerator {
    /// Finds the enemy pieces that attack the king on `king_square`.
    fn calculate_check(
        white_to_move: bool,
        king_square: Square,
        enemy_pawns: BitBoard,
        enemy_knights: BitBoard,
        enemy_diagonal: BitBoard,
        enemy_orthogonal: BitBoard,
        occupied_squares: BitBoard,
    ) -> (r: BitBoard)
        requires
            king_square.valid(),
        ensures
            forall|t: int| #[trigger] r.has(t) == attacker(
                king_square.0 as int,
                white_to_move,
                enemy_pawns.0,
                enemy_knights.0,
                enemy_diagonal.0,
                enemy_orthogonal.0,
                occupied_squares.0,
                t,
            ),
    {
        let diagonal_attacks = bishop_attacks(king_square, occupied_squares);
        let diagonal_attacker = diagonal_attacks.and(enemy_diagonal);
        let orthogonal_attacks = rook_attacks(king_square, occupied_squares);
        let orthogonal_attacker = orthogonal_attacks.and(enemy_orthogonal);
        let pawn_check = attack_bit_board(king_square, white_to_move);
        let pawn_attacker = pawn_check.and(enemy_pawns);
        let knight_check = knight_attack_bit_board(king_square);
        let knight_attacker = knight_check.and(enemy_knights);
        let check_mask = diagonal_attacker.or(orthogonal_attacker).or(pawn_attacker).or(knight_attacker);
        proof {
            lemma_bit_laws();
            assert forall|t: int| #[trigger] check_mask.has(t) == attacker(
                king_square.0 as int,
                white_to_move,
                enemy_pawns.0,
                enemy_knights.0,
                enemy_diagonal.0,
                enemy_orthogonal.0,
                occupied_squares.0,
                t,
            ) by {
                if on_board(t) {
                    let k = king_square.0 as int;
                    assert(diagonal_attacks.has(t) == slider_attacks(k, occupied_squares.0, 4, t));
                    assert(orthogonal_attacks.has(t) == slider_attacks(k, occupied_squares.0, 0, t));
                    assert(pawn_check.has(t) == pawn_capture_step(k, t, white_to_move));
                    assert(knight_check.has(t) == knight_jump(k, t));
                    assert(diagonal_attacker.has(t) == (slider_attacks(k, occupied_squares.0, 4, t) && bit(enemy_diagonal.0, t)));
                    assert(orthogonal_attacker.has(t) == (slider_attacks(k, occupied_squares.0, 0, t) && bit(enemy_orthogonal.0, t)));
                    assert(pawn_attacker.has(t) == (pawn_capture_step(k, t, white_to_move) && bit(enemy_pawns.0, t)));
                    assert(knight_attacker.has(t) == (knight_jump(k, t) && bit(enemy_knights.0, t)));
                }
            }
        }
        check_mask
    }
}

/// A non-empty bit board has a square.
pub(crate) proof fn lemma_nonzero_has(x: u64)
    requires
        x != 0,
    ensures
        exists|i: int| on_board(i) && #[trigger] bit(x, i),
{
    lemma_clear_lowest(x);
    let t = vstd::std_specs::bits::u64_trailing_zeros(x) as int;
    assert(on_board(t) && bit(x, t));
}

/// The pieces that attack without sliding.
pub enum Leaper {
    /// A knight.
    Knight,
    /// A king.
    King,
    /// A pawn.
    Pawn,
}

/// A leaper of the given kind on `from` attacks `t`; a pawn attacks as a pawn of side `white`.
pub open spec fn leaper_attack(kind: Leaper, white: bool, from: int, t: int) -> bool {
    match kind {
        Leaper::Knight => knight_jump(from, t),
        Leaper::King => king_step(from, t),
        Leaper::Pawn => pawn_capture_step(from, t, white),
    }
}

/// The squares attacked by the leapers of the given kind on the squares of `pieces`.
fn leaper_union(pieces: BitBoard, kind: Leaper, white: bool) -> (r: BitBoard)
    ensures
        forall|t: int| #[trigger] r.has(t) == (on_board(t) && exists|s: int| on_board(s) && #[trigger] bit(pieces.0, s) && leaper_attack(kind, white, s, t)),
{
    let mut remaining = pieces;
    let mut acc = BitBoard::new(0);
    proof {
        lemma_bit_laws();
    }
    while remaining.is_not_empty()
        invariant
            forall|i: int| #[trigger] remaining.has(i) ==> pieces.has(i),
            forall|t: int| #[trigger] acc.has(t) == (on_board(t) && exists|s: int| on_board(s) && #[trigger] bit(pieces.0, s) && !remaining.has(s) && leaper_attack(kind, white, s, t)),
        decreases remaining.0,
    {
        let ghost before = remaining;
        let from = remaining.pop_square();
        let attacks = match kind {
            Leaper::Knight => knight_attack_bit_board(from),
            Leaper::King => king_attack_bit_board(from),
            Leaper::Pawn => attack_bit_board(from, white),
        };
        let ghost acc0 = acc;
        acc = acc.or(attacks);
        proof {
            lemma_bit_laws();
            assert forall|t: int| #[trigger] acc.has(t) == (on_board(t) && exists|s: int| on_board(s) && #[trigger] bit(pieces.0, s) && !remaining.has(s) && leaper_attack(kind, white, s, t)) by {
                assert(acc.has(t) == (acc0.has(t) || attacks.has(t)));
                assert(attacks.has(t) == (on_board(t) && leaper_attack(kind, white, from.0 as int, t)));
                if acc0.has(t) {
                    let s = choose|s: int| on_board(s) && #[trigger] bit(pieces.0, s) && !before.has(s) && leaper_attack(kind, white, s, t);
                    assert(!remaining.has(s));
                }
                if attacks.has(t) {
                    assert(before.has(from.0 as int));
                    assert(bit(pieces.0, from.0 as int) && !remaining.has(from.0 as int));
                }
                if on_board(t) && exists|s: int| on_board(s) && #[trigger] bit(pieces.0, s) && !remaining.has(s) && leaper_attack(kind, white, s, t) {
                    let s = choose|s: int| on_board(s) && #[trigger] bit(pieces.0, s) && !remaining.has(s) && leaper_attack(kind, white, s, t);
                    if s != from.0 {
                        assert(!before.has(s));
                    }
                }
            }
        }
    }
    proof {
        assert forall|i: int| !#[trigger] remaining.has(i) by {
            if on_board(i) {
                assert((0u64 >> (i as u64)) & 1 == 0);
            }
        }
    }
    acc
}

/// The squares attacked by a slider on `from` moving in the four directions from `offset` (0: rook,
/// 4: bishop), with the squares of `occupied` blocking.
fn slider_moves(from: Square, occupied: BitBoard, offset: usize) -> (r: BitBoard)
    requires
        from.valid(),
        offset == 0 || offset == 4,
    ensures
        forall|t: int| #[trigger] r.has(t) == slider_attacks(from.0 as int, occupied.0, offset as int, t),
{
    if offset == 0 {
        rook_attacks(from, occupied)
    } else {
        bishop_attacks(from, occupied)
    }
}

/// The enemy slider on `from` (moving in the directions from `offset`) checks the king on the
/// squares of `king_bits`, looking through the king, and `t` lies between the slider and `king`.
pub open spec fn check_ray(from: int, king: int, king_bits: u64, occupied: u64, offset: int, t: int) -> bool {
    &&& exists|u: int| on_board(u) && #[trigger] bit(king_bits, u) && slider_attacks(from, occupied ^ king_bits, offset, u)
    &&& on_board(t)
    &&& slider_attacks(from, occupied, offset, t)
    &&& !bit(king_bits, t)
    &&& slider_attacks(king, 1u64 << (from as u64), offset, t)
}

/// `friendly` has exactly one square between `king` and `attacker`.
pub open spec fn lone_friendly(king: int, attacker: int, friendly: u64) -> bool {
    &&& exists|p: int| on_board(p) && between_ray(king, attacker, p) && #[trigger] bit(friendly, p)
    &&& forall|p: int, q: int|
        on_board(p) && on_board(q) && between_ray(king, attacker, p) && between_ray(king, attacker, q)
            && #[trigger] bit(friendly, p) && #[trigger] bit(friendly, q) ==> p == q
}

/// `t` is on a pin ray: between the king and an enemy slider on the squares of `sliders` (moving in
/// the directions from `offset`) that sees the king past the enemy pieces, with exactly one friendly
/// piece in between; the slider's square included.
pub open spec fn pin_ray(king: int, sliders: u64, enemy_pieces: u64, friendly: u64, offset: int, t: int) -> bool {
    &&& on_board(t)
    &&& exists|a: int|
        on_board(a) && #[trigger] bit(sliders, a) && slider_attacks(king, enemy_pieces, offset, a) && lone_friendly(
            king,
            a,
            friendly,
        ) && between_ray(king, a, t)
}

impl MoveGenerator {
    /// Returns the squares the enemy slider on `from` attacks with the king removed, and adds to
    /// the push mask the squares between the slider and the king when it gives check.
    fn calculate_enemy_slider(
        from: Square,
        king_square: Square,
        push_mask: &mut BitBoard,
        king_bit_board: BitBoard,
        occupied_squares: BitBoard,
        offset: usize,
    ) -> (r: BitBoard)
        requires
            from.valid(),
            king_square.valid(),
            offset == 0 || offset == 4,
        ensures
            forall|t: int| #[trigger] r.has(t) == slider_attacks(from.0 as int, occupied_squares.0 ^ king_bit_board.0, offset as int, t),
            forall|t: int| #[trigger] final(push_mask).has(t) == (old(push_mask).has(t) || check_ray(
                from.0 as int,
                king_square.0 as int,
                king_bit_board.0,
                occupied_squares.0,
                offset as int,
                t,
            )),
    {
        let attacks = slider_moves(from, occupied_squares.xor(king_bit_board), offset);
        let checking = attacks.overlaps(&king_bit_board);
        let ghost f = from.0 as int;
        let ghost k = king_square.0 as int;
        proof {
            lemma_bit_laws();
            let both = attacks.0 & king_bit_board.0;
            if checking {
                lemma_nonzero_has(both);
                let u = choose|u: int| on_board(u) && #[trigger] bit(both, u);
                assert(bit(attacks.0, u) && attacks.has(u));
                assert(bit(king_bit_board.0, u) && slider_attacks(f, occupied_squares.0 ^ king_bit_board.0, offset as int, u));
            } else {
                assert forall|u: int| on_board(u) && #[trigger] bit(king_bit_board.0, u) implies !slider_attacks(f, occupied_squares.0 ^ king_bit_board.0, offset as int, u) by {
                    if slider_attacks(f, occupied_squares.0 ^ king_bit_board.0, offset as int, u) {
                        assert(attacks.has(u));
                        assert(bit(both, u));
                        assert((0u64 >> (u as u64)) & 1 == 0);
                    }
                }
            }
        }
        if checking {
            let from_attacks = slider_moves(from, occupied_squares, offset);
            let king_view = slider_moves(king_square, from.bit_board(), offset);
            let ray = from_attacks.and(king_bit_board.not()).and(king_view);
            let ghost push0 = *push_mask;
            *push_mask = push_mask.or(ray);
            proof {
                lemma_bit_laws();
                assert forall|t: int| #[trigger] push_mask.has(t) == (push0.has(t) || check_ray(f, k, king_bit_board.0, occupied_squares.0, offset as int, t)) by {
                    if on_board(t) {
                        assert(from_attacks.has(t) == slider_attacks(f, occupied_squares.0, offset as int, t));
                        assert(king_view.has(t) == slider_attacks(k, 1u64 << (from.0 as u64), offset as int, t));
                        assert(ray.has(t) == (from_attacks.has(t) && !bit(king_bit_board.0, t) && king_view.has(t)));
                    }
                }
            }
        }
        attacks
    }

    /// Returns the squares the enemy sliders attack with the king removed, and adds to the push mask
    /// the squares between each checking slider and the king.
    fn calculate_enemy_sliders(
        sliders: BitBoard,
        king_square: Square,
        push_mask: &mut BitBoard,
        king_bit_board: BitBoard,
        occupied_squares: BitBoard,
        offset: usize,
    ) -> (r: BitBoard)
        requires
            king_square.valid(),
            offset == 0 || offset == 4,
        ensures
            forall|t: int| #[trigger] r.has(t) == (on_board(t) && exists|s: int| on_board(s) && #[trigger] bit(sliders.0, s)
                && slider_attacks(s, occupied_squares.0 ^ king_bit_board.0, offset as int, t)),
            forall|t: int| #[trigger] final(push_mask).has(t) == (old(push_mask).has(t) || exists|s: int| on_board(s)
                && #[trigger] bit(sliders.0, s) && check_ray(s, king_square.0 as int, king_bit_board.0, occupied_squares.0, offset as int, t)),
    {
        let mut remaining = sliders;
        let mut acc = BitBoard::new(0);
        let ghost push_start = *push_mask;
        let ghost k = king_square.0 as int;
        let ghost o = offset as int;
        proof {
            lemma_bit_laws();
        }
        while remaining.is_not_empty()
            invariant
                king_square.valid(),
                offset == 0 || offset == 4,
                k == king_square.0 as int,
                o == offset as int,
                forall|i: int| #[trigger] remaining.has(i) ==> sliders.has(i),
                forall|t: int| #[trigger] acc.has(t) == (on_board(t) && exists|s: int| on_board(s) && #[trigger] bit(sliders.0, s)
                    && !remaining.has(s) && slider_attacks(s, occupied_squares.0 ^ king_bit_board.0, o, t)),
                forall|t: int| #[trigger] push_mask.has(t) == (push_start.has(t) || exists|s: int| on_board(s)
                    && #[trigger] bit(sliders.0, s) && !remaining.has(s) && check_ray(s, k, king_bit_board.0, occupied_squares.0, o, t)),
            decreases remaining.0,
        {
            let ghost before = remaining;
            let ghost push0 = *push_mask;
            let from = remaining.pop_square();
            let attacks = Self::calculate_enemy_slider(from, king_square, push_mask, king_bit_board, occupied_squares, offset);
            let ghost acc0 = acc;
            acc = acc.or(attacks);
            proof {
                lemma_bit_laws();
                let f = from.0 as int;
                assert(before.has(f) && bit(sliders.0, f) && !remaining.has(f));
                assert forall|t: int| #[trigger] acc.has(t) == (on_board(t) && exists|s: int| on_board(s) && #[trigger] bit(sliders.0, s)
                    && !remaining.has(s) && slider_attacks(s, occupied_squares.0 ^ king_bit_board.0, o, t)) by {
                    assert(acc.has(t) == (acc0.has(t) || attacks.has(t)));
                    if acc0.has(t) {
                        let s = choose|s: int| on_board(s) && #[trigger] bit(sliders.0, s) && !before.has(s) && slider_attacks(s, occupied_squares.0 ^ king_bit_board.0, o, t);
                        assert(!remaining.has(s));
                    }
                    if attacks.has(t) {
                        lemma_slider_attacks_on_board(f, occupied_squares.0 ^ king_bit_board.0, o, t);
                    }
                    if on_board(t) && exists|s: int| on_board(s) && #[trigger] bit(sliders.0, s) && !remaining.has(s) && slider_attacks(s, occupied_squares.0 ^ king_bit_board.0, o, t) {
                        let s = choose|s: int| on_board(s) && #[trigger] bit(sliders.0, s) && !remaining.has(s) && slider_attacks(s, occupied_squares.0 ^ king_bit_board.0, o, t);
                        if s != f {
                            assert(!before.has(s));
                        }
                    }
                }
                assert forall|t: int| #[trigger] push_mask.has(t) == (push_start.has(t) || exists|s: int| on_board(s)
                    && #[trigger] bit(sliders.0, s) && !remaining.has(s) && check_ray(s, k, king_bit_board.0, occupied_squares.0, o, t)) by {
                    if push0.has(t) && !push_start.has(t) {
                        let s = choose|s: int| on_board(s) && #[trigger] bit(sliders.0, s) && !before.has(s) && check_ray(s, k, king_bit_board.0, occupied_squares.0, o, t);
                        assert(!remaining.has(s));
                    }
                    if exists|s: int| on_board(s) && #[trigger] bit(sliders.0, s) && !remaining.has(s) && check_ray(s, k, king_bit_board.0, occupied_squares.0, o, t) {
                        let s = choose|s: int| on_board(s) && #[trigger] bit(sliders.0, s) && !remaining.has(s) && check_ray(s, k, king_bit_board.0, occupied_squares.0, o, t);
                        if s != f {
                            assert(!before.has(s));
                        }
                    }
                }
            }
        }
        proof {
            assert forall|i: int| !#[trigger] remaining.has(i) by {
                if on_board(i) {
                    assert((0u64 >> (i as u64)) & 1 == 0);
                }
            }
        }
        acc
    }
}

impl MoveGenerator {
    /// Returns the squares of the rays that pin a friendly piece to the king, for the enemy sliders
    /// of `sliders` moving in the directions from `offset`.
    fn calculate_pin_ray(
        friendly_pieces: BitBoard,
        king_square: Square,
        sliders: BitBoard,
        enemy_pieces: BitBoard,
        offset: usize,
    ) -> (r: BitBoard)
        requires
            king_square.valid(),
            offset == 0 || offset == 4,
        ensures
            forall|t: int| #[trigger] r.has(t) == pin_ray(king_square.0 as int, sliders.0, enemy_pieces.0, friendly_pieces.0, offset as int, t),
    {
        let ghost k = king_square.0 as int;
        let ghost o = offset as int;
        let view = slider_moves(king_square, enemy_pieces, offset);
        let mut attackers = sliders.and(view);
        let mut pins = BitBoard::new(0);
        proof {
            lemma_bit_laws();
            assert forall|i: int| #[trigger] attackers.has(i) == (on_board(i) && bit(sliders.0, i) && slider_attacks(k, enemy_pieces.0, o, i)) by {
                if on_board(i) {
                    assert(view.has(i) == slider_attacks(k, enemy_pieces.0, o, i));
                }
            }
            assert forall|t: int| !#[trigger] pins.has(t) by {
                if on_board(t) {
                    assert((0u64 >> (t as u64)) & 1 == 0);
                }
            }
        }
        while attackers.is_not_empty()
            invariant
                king_square.valid(),
                offset == 0 || offset == 4,
                k == king_square.0 as int,
                o == offset as int,
                forall|i: int| #[trigger] attackers.has(i) ==> bit(sliders.0, i) && slider_attacks(k, enemy_pieces.0, o, i),
                forall|t: int| #[trigger] pins.has(t) == (on_board(t) && exists|a: int| on_board(a) && #[trigger] bit(sliders.0, a)
                    && slider_attacks(k, enemy_pieces.0, o, a) && !attackers.has(a) && lone_friendly(k, a, friendly_pieces.0) && between_ray(k, a, t)),
            decreases attackers.0,
        {
            let ghost before = attackers;
            let attacker = attackers.pop_square();
            let ghost a0 = attacker.0 as int;
            let ray = get_between_rays(king_square, attacker);
            let x = ray.and(friendly_pieces);
            let pinning = x.is_not_empty() && !x.more_than_one_bit_set();
            proof {
                lemma_bit_laws();
                assert(forall|i: int| #[trigger] x.has(i) == (on_board(i) && between_ray(k, a0, i) && bit(friendly_pieces.0, i))) by {
                    assert forall|i: int| #[trigger] x.has(i) == (on_board(i) && between_ray(k, a0, i) && bit(friendly_pieces.0, i)) by {
                        assert(ray.has(i) == (on_board(i) && between_ray(k, a0, i)));
                    }
                }
                if pinning {
                    lemma_nonzero_has(x.0);
                    let p = choose|p: int| on_board(p) && #[trigger] bit(x.0, p);
                    assert(x.has(p));
                    assert forall|p: int, q: int|
                        on_board(p) && on_board(q) && between_ray(k, a0, p) && between_ray(k, a0, q)
                            && #[trigger] bit(friendly_pieces.0, p) && #[trigger] bit(friendly_pieces.0, q) implies p == q by {
                        assert(x.has(p) && x.has(q));
                    }
                    assert(lone_friendly(k, a0, friendly_pieces.0));
                } else {
                    if x.0 == 0 {
                        assert forall|p: int| on_board(p) && between_ray(k, a0, p) implies !#[trigger] bit(friendly_pieces.0, p) by {
                            if bit(friendly_pieces.0, p) {
                                assert(x.has(p));
                                assert((0u64 >> (p as u64)) & 1 == 0);
                            }
                        }
                    } else {
                        let (i, j) = choose|i: int, j: int| i != j && #[trigger] x.has(i) && #[trigger] x.has(j);
                        assert(x.has(i) && x.has(j));
                    }
                    assert(!lone_friendly(k, a0, friendly_pieces.0));
                }
            }
            let ghost pins0 = pins;
            if pinning {
                pins = pins.or(ray);
            }
            proof {
                lemma_bit_laws();
                assert(before.has(a0));
                assert forall|t: int| #[trigger] pins.has(t) == (on_board(t) && exists|a: int| on_board(a) && #[trigger] bit(sliders.0, a)
                    && slider_attacks(k, enemy_pieces.0, o, a) && !attackers.has(a) && lone_friendly(k, a, friendly_pieces.0) && between_ray(k, a, t)) by {
                    if pinning {
                        assert(pins.has(t) == (pins0.has(t) || ray.has(t)));
                        assert(ray.has(t) == (on_board(t) && between_ray(k, a0, t)));
                    }
                    if pins0.has(t) {
                        let a = choose|a: int| on_board(a) && #[trigger] bit(sliders.0, a)
                            && slider_attacks(k, enemy_pieces.0, o, a) && !before.has(a) && lone_friendly(k, a, friendly_pieces.0) && between_ray(k, a, t);
                        assert(!attackers.has(a));
                    }
                    if on_board(t) && exists|a: int| on_board(a) && #[trigger] bit(sliders.0, a)
                        && slider_attacks(k, enemy_pieces.0, o, a) && !attackers.has(a) && lone_friendly(k, a, friendly_pieces.0) && between_ray(k, a, t) {
                        let a = choose|a: int| on_board(a) && #[trigger] bit(sliders.0, a)
                            && slider_attacks(k, enemy_pieces.0, o, a) && !attackers.has(a) && lone_friendly(k, a, friendly_pieces.0) && between_ray(k, a, t);
                        if a != a0 {
                            assert(!before.has(a));
                        } else {
                            assert(ray.has(t));
                        }
                    }
                }
            }
        }
        proof {
            assert forall|t: int| #[trigger] pins.has(t) == pin_ray(k, sliders.0, enemy_pieces.0, friendly_pieces.0, o, t) by {
                if pin_ray(k, sliders.0, enemy_pieces.0, friendly_pieces.0, o, t) {
                    let a = choose|a: int| on_board(a) && #[trigger] bit(sliders.0, a) && slider_attacks(k, enemy_pieces.0, o, a)
                        && lone_friendly(k, a, friendly_pieces.0) && between_ray(k, a, t);
                    assert((0u64 >> (a as u64)) & 1 == 0);
                    assert(!attackers.has(a));
                }
            }
        }
        pins
    }
}

/// The bit board of the pieces of kind `k` (0 pawn, 1 knight, 2 bishop, 3 rook, 4 queen, 5 king) of
/// the given side.
pub open spec fn side_bits(b: Board, white: bool, k: int) -> u64 {
    b.bit_boards@[if white {
        k
    } else {
        k + 6
    }].0
}

/// A piece of the given side stands on `t`.
pub open spec fn side_has(b: Board, white: bool, t: int) -> bool {
    &&& on_board(t)
    &&& {
        ||| bit(side_bits(b, white, 0), t)
        ||| bit(side_bits(b, white, 1), t)
        ||| bit(side_bits(b, white, 2), t)
        ||| bit(side_bits(b, white, 3), t)
        ||| bit(side_bits(b, white, 4), t)
        ||| bit(side_bits(b, white, 5), t)
    }
}

/// A king may not step on `t`: one of the enemy pieces given attacks it, with the blockers
/// `occupied` (from which the king has been removed). The pawns are those of side `enemy_white`.
pub open spec fn king_danger(
    enemy_white: bool,
    pawns: u64,
    knights: u64,
    diagonal: u64,
    orthogonal: u64,
    king: u64,
    occupied: u64,
    t: int,
) -> bool {
    &&& on_board(t)
    &&& {
        ||| exists|s: int| on_board(s) && #[trigger] bit(pawns, s) && leaper_attack(Leaper::Pawn, enemy_white, s, t)
        ||| exists|s: int| on_board(s) && #[trigger] bit(knights, s) && leaper_attack(Leaper::Knight, enemy_white, s, t)
        ||| exists|s: int| on_board(s) && #[trigger] bit(diagonal, s) && slider_attacks(s, occupied, 4, t)
        ||| exists|s: int| on_board(s) && #[trigger] bit(orthogonal, s) && slider_attacks(s, occupied, 0, t)
        ||| exists|s: int| on_board(s) && #[trigger] bit(king, s) && leaper_attack(Leaper::King, enemy_white, s, t)
    }
}

/// `t` lies between the king on `king` (its bit board `king_bits`) and one of the enemy sliders
/// given that checks it.
pub open spec fn push_square(king: int, king_bits: u64, occupied: u64, diagonal: u64, orthogonal: u64, t: int) -> bool {
    ||| exists|s: int| on_board(s) && #[trigger] bit(diagonal, s) && check_ray(s, king, king_bits, occupied, 4, t)
    ||| exists|s: int| on_board(s) && #[trigger] bit(orthogonal, s) && check_ray(s, king, king_bits, occupied, 0, t)
}

/// An enemy piece on `t` attacks the king of the side to move (as the generator `r` places it).
pub open spec fn king_attacker(b: Board, r: MoveGenerator, t: int) -> bool {
    attacker(
        r.friendly_king_square.0 as int,
        b.white_to_move,
        side_bits(b, !b.white_to_move, 0),
        side_bits(b, !b.white_to_move, 1),
        side_bits(b, !b.white_to_move, 2) | side_bits(b, !b.white_to_move, 4),
        side_bits(b, !b.white_to_move, 3) | side_bits(b, !b.white_to_move, 4),
        r.occupied_squares.0,
        t,
    )
}

/// The en passant square, if any, is on a rank from the second to the seventh.
pub open spec fn en_passant_ok(sq: Option<Square>) -> bool {
    sq matches Some(s) ==> 8 <= s.0 < 56
}

impl MoveGenerator {
    /// What move generation needs of the fields: the king on the board and a usable en passant square.
    pub open spec fn wf(self) -> bool {
        &&& self.friendly_king_square.valid()
        &&& en_passant_ok(self.en_passant_square)
    }

    /// Creates a move generator for the current position.
    /// The generator's fields as `new` computes them from the position `b`.
    pub open spec fn describes(self, b: Board) -> bool {
        &&& self.white_to_move == b.white_to_move
        &&& self.en_passant_square == b.game_state.en_passant_square
        &&& self.king_side == has_bit8(b.game_state.castling_rights.0, if b.white_to_move {
                WHITE_KING_SIDE_OFFSET
            } else {
                BLACK_KING_SIDE_OFFSET
            })
        &&& self.queen_side == has_bit8(b.game_state.castling_rights.0, if b.white_to_move {
                WHITE_QUEEN_SIDE_OFFSET
            } else {
                BLACK_QUEEN_SIDE_OFFSET
            })
        &&& self.friendly_pawns.0 == side_bits(b, b.white_to_move, 0)
        &&& self.friendly_knights.0 == side_bits(b, b.white_to_move, 1)
        &&& self.friendly_diagonal.0 == side_bits(b, b.white_to_move, 2) | side_bits(b, b.white_to_move, 4)
        &&& self.friendly_orthogonal.0 == side_bits(b, b.white_to_move, 3) | side_bits(b, b.white_to_move, 4)
        &&& self.enemy_orthogonal.0 == side_bits(b, !b.white_to_move, 3) | side_bits(b, !b.white_to_move, 4)
        &&& self.friendly_king_square.0 == vstd::std_specs::bits::u64_trailing_zeros(side_bits(b, b.white_to_move, 5))
        &&& forall|t: int| #[trigger] self.friendly_piece_bit_board.has(t) == side_has(b, b.white_to_move, t)
        &&& forall|t: int| #[trigger] self.enemy_piece_bit_board.has(t) == side_has(b, !b.white_to_move, t)
        &&& forall|t: int| #[trigger] self.occupied_squares.has(t) == (side_has(b, true, t) || side_has(b, false, t))
        &&& forall|t: int| #[trigger] self.empty_squares.has(t) == (on_board(t) && !self.occupied_squares.has(t))
        &&& self.is_in_check == exists|t: int| #[trigger] king_attacker(b, self, t)
        &&& self.is_in_double_check == exists|s: int, t: int| s != t && #[trigger] king_attacker(b, self, s) && #[trigger] king_attacker(b, self, t)
        &&& self.is_in_check ==> forall|t: int| #[trigger] self.check_mask.has(t) == king_attacker(b, self, t)
        &&& self.is_in_check ==> forall|t: int| #[trigger] self.push_mask.has(t) == push_square(
                self.friendly_king_square.0 as int,
                side_bits(b, b.white_to_move, 5),
                self.occupied_squares.0,
                side_bits(b, !b.white_to_move, 2) | side_bits(b, !b.white_to_move, 4),
                side_bits(b, !b.white_to_move, 3) | side_bits(b, !b.white_to_move, 4),
                t,
            )
        &&& !self.is_in_check ==> self.check_mask.0 == 0xFFFF_FFFF_FFFF_FFFF && self.push_mask.0 == 0xFFFF_FFFF_FFFF_FFFF
        &&& forall|t: int| #[trigger] self.diagonal_pin_rays.has(t) == pin_ray(
                self.friendly_king_square.0 as int,
                side_bits(b, !b.white_to_move, 2) | side_bits(b, !b.white_to_move, 4),
                self.enemy_piece_bit_board.0,
                self.friendly_piece_bit_board.0,
                4,
                t,
            )
        &&& forall|t: int| #[trigger] self.orthogonal_pin_rays.has(t) == pin_ray(
                self.friendly_king_square.0 as int,
                side_bits(b, !b.white_to_move, 3) | side_bits(b, !b.white_to_move, 4),
                self.enemy_piece_bit_board.0,
                self.friendly_piece_bit_board.0,
                0,
                t,
            )
        &&& forall|t: int| #[trigger] self.king_danger_bit_board.has(t) == king_danger(
                !b.white_to_move,
                side_bits(b, !b.white_to_move, 0),
                side_bits(b, !b.white_to_move, 1),
                side_bits(b, !b.white_to_move, 2) | side_bits(b, !b.white_to_move, 4),
                side_bits(b, !b.white_to_move, 3) | side_bits(b, !b.white_to_move, 4),
                side_bits(b, !b.white_to_move, 5),
                self.occupied_squares.0 ^ side_bits(b, b.white_to_move, 5),
                t,
            )
    }

    pub fn new(board: &Board) -> (r: Self)
        requires
            side_bits(*board, board.white_to_move, 5) != 0,
            en_passant_ok(board.game_state.en_passant_square),
        ensures
            r.wf(),
            r.describes(*board),
    {
        let white_to_move = board.white_to_move;
        let en_passant_square = board.game_state.en_passant_square;
        let f: usize = if white_to_move { 0 } else { 6 };
        let e: usize = if white_to_move { 6 } else { 0 };
        let castling_rights = board.game_state.castling_rights;
        let (king_side, queen_side) = if white_to_move {
            (castling_rights.get_white_king_side(), castling_rights.get_white_queen_side())
        } else {
            (castling_rights.get_black_king_side(), castling_rights.get_black_queen_side())
        };
        let friendly_pawns = *board.get_bit_board(Piece::from_index(f));
        let friendly_knights = *board.get_bit_board(Piece::from_index(f + 1));
        let friendly_bishops = *board.get_bit_board(Piece::from_index(f + 2));
        let friendly_rooks = *board.get_bit_board(Piece::from_index(f + 3));
        let friendly_queens = *board.get_bit_board(Piece::from_index(f + 4));
        let friendly_king = *board.get_bit_board(Piece::from_index(f + 5));
        let friendly_diagonal = friendly_bishops.or(friendly_queens);
        let friendly_orthogonal = friendly_rooks.or(friendly_queens);
        let friendly_piece_bit_board = friendly_pawns.or(friendly_knights).or(friendly_bishops).or(
            friendly_rooks,
        ).or(friendly_queens).or(friendly_king);

        let enemy_pawns = *board.get_bit_board(Piece::from_index(e));
        let enemy_knights = *board.get_bit_board(Piece::from_index(e + 1));
        let enemy_bishops = *board.get_bit_board(Piece::from_index(e + 2));
        let enemy_rooks = *board.get_bit_board(Piece::from_index(e + 3));
        let enemy_queens = *board.get_bit_board(Piece::from_index(e + 4));
        let enemy_king = *board.get_bit_board(Piece::from_index(e + 5));
        let enemy_diagonal = enemy_bishops.or(enemy_queens);
        let enemy_orthogonal = enemy_rooks.or(enemy_queens);
        let enemy_piece_bit_board = enemy_pawns.or(enemy_knights).or(enemy_diagonal).or(enemy_orthogonal).or(
            enemy_king,
        );

        let occupied_squares = friendly_piece_bit_board.or(enemy_piece_bit_board);
        let empty_squares = occupied_squares.not();
        let friendly_king_square = friendly_king.first_square();
        proof {
            lemma_bit_laws();
            let b = *board;
            let w = white_to_move;
            assert forall|t: int| #[trigger] friendly_piece_bit_board.has(t) == side_has(b, w, t) by {}
            assert forall|t: int| #[trigger] enemy_piece_bit_board.has(t) == side_has(b, !w, t) by {}
            assert forall|t: int| #[trigger] occupied_squares.has(t) == (side_has(b, true, t) || side_has(b, false, t)) by {
                assert(occupied_squares.has(t) == (friendly_piece_bit_board.has(t) || enemy_piece_bit_board.has(t)));
            }
        }

        let mut push_mask = BitBoard::new(0);
        let king_removed = occupied_squares.xor(friendly_king);
        let pawn_danger = leaper_union(enemy_pawns, Leaper::Pawn, !white_to_move);
        let knight_danger = leaper_union(enemy_knights, Leaper::Knight, !white_to_move);
        let diagonal_danger = Self::calculate_enemy_sliders(enemy_diagonal, friendly_king_square, &mut push_mask, friendly_king, occupied_squares, 4);
        let orthogonal_danger = Self::calculate_enemy_sliders(enemy_orthogonal, friendly_king_square, &mut push_mask, friendly_king, occupied_squares, 0);
        let king_danger_of_king = leaper_union(enemy_king, Leaper::King, !white_to_move);
        let king_danger_bit_board = pawn_danger.or(knight_danger).or(diagonal_danger).or(orthogonal_danger).or(king_danger_of_king);
        proof {
            lemma_bit_laws();
            let b = *board;
            let w = white_to_move;
            assert(enemy_pawns.0 == side_bits(b, !w, 0));
            assert(enemy_knights.0 == side_bits(b, !w, 1));
            assert(enemy_diagonal.0 == side_bits(b, !w, 2) | side_bits(b, !w, 4));
            assert(enemy_orthogonal.0 == side_bits(b, !w, 3) | side_bits(b, !w, 4));
            assert(enemy_king.0 == side_bits(b, !w, 5));
            assert(friendly_king.0 == side_bits(b, w, 5));
            assert forall|t: int| #[trigger] king_danger_bit_board.has(t) == king_danger(!w, enemy_pawns.0, enemy_knights.0,
                enemy_diagonal.0, enemy_orthogonal.0, enemy_king.0, occupied_squares.0 ^ friendly_king.0, t) by {
                assert(king_danger_bit_board.has(t) == (pawn_danger.has(t) || knight_danger.has(t) || diagonal_danger.has(t)
                    || orthogonal_danger.has(t) || king_danger_of_king.has(t)));
            }
        }

        let check_mask = Self::calculate_check(
            white_to_move,
            friendly_king_square,
            enemy_pawns,
            enemy_knights,
            enemy_diagonal,
            enemy_orthogonal,
            occupied_squares,
        );
        let is_in_check = check_mask.is_not_empty();
        let is_in_double_check = check_mask.more_than_one_bit_set();
        let ghost checks = check_mask;
        let ghost pushes = push_mask;
        proof {
            lemma_bit_laws();
            if is_in_check {
                lemma_nonzero_has(check_mask.0);
                let t = choose|t: int| on_board(t) && #[trigger] bit(check_mask.0, t);
                assert(check_mask.has(t));
            } else {
                assert forall|t: int| !#[trigger] check_mask.has(t) by {
                    if on_board(t) {
                        assert((0u64 >> (t as u64)) & 1 == 0);
                    }
                }
            }
        }
        let (check_mask, push_mask) = if is_in_check {
            (check_mask, push_mask)
        } else {
            (BitBoard::new(0xFFFF_FFFF_FFFF_FFFF), BitBoard::new(0xFFFF_FFFF_FFFF_FFFF))
        };
        let orthogonal_pin_rays = Self::calculate_pin_ray(friendly_piece_bit_board, friendly_king_square, enemy_orthogonal, enemy_piece_bit_board, 0);
        let diagonal_pin_rays = Self::calculate_pin_ray(friendly_piece_bit_board, friendly_king_square, enemy_diagonal, enemy_piece_bit_board, 4);

        let r = MoveGenerator {
            white_to_move,
            king_side,
            queen_side,
            en_passant_square,
            friendly_piece_bit_board,
            friendly_pawns,
            friendly_knights,
            friendly_diagonal,
            friendly_orthogonal,
            friendly_king_square,
            king_danger_bit_board,
            enemy_piece_bit_board,
            enemy_orthogonal,
            occupied_squares,
            empty_squares,
            is_in_check,
            is_in_double_check,
            diagonal_pin_rays,
            orthogonal_pin_rays,
            check_mask,
            push_mask,
        };
        proof {
            let b = *board;
            let w = white_to_move;
            let k = friendly_king_square.0 as int;
            assert forall|t: int| #[trigger] checks.has(t) == king_attacker(b, r, t) by {}
            if is_in_check {
                let t = choose|t: int| #[trigger] checks.has(t);
                assert(king_attacker(b, r, t));
            }
            if is_in_double_check {
                let (s, t) = choose|s: int, t: int| s != t && #[trigger] checks.has(s) && #[trigger] checks.has(t);
                assert(king_attacker(b, r, s) && king_attacker(b, r, t));
            }
            if exists|s: int, t: int| s != t && #[trigger] king_attacker(b, r, s) && #[trigger] king_attacker(b, r, t) {
                let (s, t) = choose|s: int, t: int| s != t && #[trigger] king_attacker(b, r, s) && #[trigger] king_attacker(b, r, t);
                assert(checks.has(s) && checks.has(t));
            }
            if exists|t: int| #[trigger] king_attacker(b, r, t) {
                let t = choose|t: int| #[trigger] king_attacker(b, r, t);
                assert(checks.has(t));
            }
            assert forall|t: int| #[trigger] pushes.has(t) == push_square(k, friendly_king.0, occupied_squares.0, enemy_diagonal.0, enemy_orthogonal.0, t) by {
                if on_board(t) {
                    assert((0u64 >> (t as u64)) & 1 == 0);
                }
            }
        }
        r
    }
}

/// `after` is `before` followed by moves no two of which are equal.
pub open spec fn appends_distinct(before: Seq<Move>, after: Seq<Move>) -> bool {
    &&& before.len() <= after.len()
    &&& after.subrange(0, before.len() as int) == before
    &&& forall|i: int, j: int| before.len() <= i < j < after.len() ==> #[trigger] after[i] != #[trigger] after[j]
}

/// Appending nothing appends distinct moves.
pub proof fn lemma_appends_none(s: Seq<Move>)
    ensures
        appends_distinct(s, s),
{
    assert(s.subrange(0, s.len() as int) =~= s);
}

/// Appending a move unlike those appended so far keeps them distinct.
pub proof fn lemma_appends_push(before: Seq<Move>, mid: Seq<Move>, mv: Move)
    requires
        appends_distinct(before, mid),
        forall|i: int| before.len() <= i < mid.len() ==> #[trigger] mid[i] != mv,
    ensures
        appends_distinct(before, mid.push(mv)),
{
    let after = mid.push(mv);
    assert(after.subrange(0, before.len() as int) =~= mid.subrange(0, before.len() as int));
    assert forall|i: int, j: int| before.len() <= i < j < after.len() implies #[trigger] after[i] != #[trigger] after[j] by {
        assert(after[i] == mid[i]);
        if j < mid.len() {
            assert(after[j] == mid[j]);
        }
    }
}

/// Two runs of distinct appended moves, none of the second among the first, make one.
pub proof fn lemma_appends_join(a: Seq<Move>, b: Seq<Move>, c: Seq<Move>)
    requires
        appends_distinct(a, b),
        appends_distinct(b, c),
        forall|i: int, j: int| a.len() <= i < b.len() <= j < c.len() ==> #[trigger] b[i] != #[trigger] c[j],
    ensures
        appends_distinct(a, c),
{
    assert forall|i: int| 0 <= i < b.len() implies #[trigger] c[i] == b[i] by {
        assert(c.subrange(0, b.len() as int)[i] == c[i]);
    }
    assert(c.subrange(0, a.len() as int) =~= a) by {
        assert forall|i: int| 0 <= i < a.len() implies #[trigger] c.subrange(0, a.len() as int)[i] == a[i] by {
            assert(b.subrange(0, a.len() as int)[i] == b[i]);
            assert(c[i] == b[i]);
        }
    }
    assert forall|i: int, j: int| a.len() <= i < j < c.len() implies #[trigger] c[i] != #[trigger] c[j] by {
        assert(c[i] == b[i] || i >= b.len());
        if j < b.len() {
            assert(c[i] == b[i] && c[j] == b[j]);
        } else if i < b.len() {
            assert(c[i] == b[i]);
            assert(b[i] != c[j]);
        }
    }
}

/// Moves appended distinct to nothing are all different.
pub proof fn lemma_appends_from_empty(s: Seq<Move>)
    requires
        appends_distinct(Seq::empty(), s),
    ensures
        s.no_duplicates(),
{
}

/// Adds a move from `from` to every square of `targets`, with the given flag.
pub(crate) fn add_moves_from(moves: &mut Vec<Move>, from: Square, targets: BitBoard, flag: Flag)
    ensures
        forall|m: Move| #[trigger] final(moves)@.contains(m) == (old(moves)@.contains(m) || (m.from == from
            && targets.has(m.to.0 as int) && m.flag == flag)),
        appends_distinct(old(moves)@, final(moves)@),
        forall|i: int| old(moves)@.len() <= i < final(moves)@.len() ==> (#[trigger] final(moves)@[i]).from == from
            && final(moves)@[i].flag == flag && targets.has(final(moves)@[i].to.0 as int),
{
    let mut remaining = targets;
    let ghost start = moves@;
    proof {
        lemma_appends_none(start);
    }
    while remaining.is_not_empty()
        invariant
            appends_distinct(start, moves@),
            forall|i: int| start.len() <= i < moves@.len() ==> (#[trigger] moves@[i]).from == from
                && moves@[i].flag == flag && targets.has(moves@[i].to.0 as int) && !remaining.has(moves@[i].to.0 as int),
            forall|i: int| #[trigger] remaining.has(i) ==> targets.has(i),
            forall|m: Move| #[trigger] moves@.contains(m) == (start.contains(m) || (m.from == from
                && targets.has(m.to.0 as int) && !remaining.has(m.to.0 as int) && m.flag == flag)),
        decreases remaining.0,
    {
        let ghost before = remaining;
        let ghost moves0 = moves@;
        let to = remaining.pop_square();
        let mv = Move { from, to, flag };
        proof {
            assert forall|i: int| start.len() <= i < moves0.len() implies #[trigger] moves0[i] != mv by {
                assert(!before.has(moves0[i].to.0 as int));
            }
            lemma_appends_push(start, moves0, mv);
        }
        moves.push(mv);
        proof {
            assert forall|i: int| start.len() <= i < moves@.len() implies (#[trigger] moves@[i]).from == from
                && moves@[i].flag == flag && targets.has(moves@[i].to.0 as int) && !remaining.has(moves@[i].to.0 as int) by {
                if i < moves0.len() {
                    assert(moves@[i] == moves0[i]);
                }
            }
            assert forall|m: Move| #[trigger] moves@.contains(m) == (start.contains(m) || (m.from == from
                && targets.has(m.to.0 as int) && !remaining.has(m.to.0 as int) && m.flag == flag)) by {
                assert(moves@.contains(m) == (moves0.contains(m) || m == mv)) by {
                    if moves@.contains(m) {
                        let i = choose|i: int| 0 <= i < moves@.len() && moves@[i] == m;
                        if i < moves0.len() {
                            assert(moves0[i] == m);
                        }
                    }
                    if moves0.contains(m) {
                        let i = choose|i: int| 0 <= i < moves0.len() && moves0[i] == m;
                        assert(moves@[i] == m);
                    }
                    if m == mv {
                        assert(moves@[moves0.len() as int] == m);
                    }
                }
            }
        }
    }
    proof {
        lemma_bit_laws();
        assert forall|i: int| !#[trigger] remaining.has(i) by {
            if on_board(i) {
                assert((0u64 >> (i as u64)) & 1 == 0);
            }
        }
    }
}

impl MoveGenerator {
    /// The squares a non-king piece may move to: a checking piece or a square between a checking
    /// slider and the king (any square when not in check), not taken by a friendly piece, and an
    /// enemy piece when only captures are wanted.
    pub open spec fn target_ok(self, captures_only: bool, t: int) -> bool {
        &&& self.check_mask.has(t) || self.push_mask.has(t)
        &&& !self.friendly_piece_bit_board.has(t)
        &&& captures_only ==> self.enemy_piece_bit_board.has(t)
    }

    /// `m` is a move of a knight that no ray pins.
    pub open spec fn knight_move(self, captures_only: bool, m: Move) -> bool {
        let from = m.from.0 as int;
        let to = m.to.0 as int;
        &&& m.flag == Flag::Normal
        &&& self.friendly_knights.has(from)
        &&& !self.diagonal_pin_rays.has(from)
        &&& !self.orthogonal_pin_rays.has(from)
        &&& on_board(to)
        &&& knight_jump(from, to)
        &&& self.target_ok(captures_only, to)
    }

    /// `m` castles the king two squares towards the rook: the right still held, the king not in
    /// check, the squares between king and rook empty and those the king crosses not attacked.
    pub open spec fn castle_move(self, m: Move) -> bool {
        let king = self.friendly_king_square.0 as int;
        let base: int = if self.white_to_move { 0 } else { 56 };
        let free = |s: int| !self.occupied_squares.has(s);
        let safe = |s: int| !self.king_danger_bit_board.has(s);
        &&& m.flag == Flag::Castle
        &&& m.from == self.friendly_king_square
        &&& !self.is_in_check
        &&& {
            ||| self.king_side && m.to.0 == king + 2 && free(base + 5) && free(base + 6) && safe(base + 5) && safe(base + 6)
            ||| self.queen_side && m.to.0 == king - 2 && free(base + 1) && free(base + 2) && free(base + 3)
                && safe(base + 2) && safe(base + 3)
        }
    }

    /// `m` is a king move: a step to a square neither friendly nor attacked, or (unless only
    /// captures are wanted) castling.
    pub open spec fn king_move(self, captures_only: bool, m: Move) -> bool {
        let king = self.friendly_king_square.0 as int;
        let to = m.to.0 as int;
        ||| m.flag == Flag::Normal && m.from == self.friendly_king_square && on_board(to) && king_step(king, to)
            && !self.friendly_piece_bit_board.has(to) && !self.king_danger_bit_board.has(to)
            && (captures_only ==> self.enemy_piece_bit_board.has(to))
        ||| !captures_only && self.castle_move(m)
    }

    /// Adds the moves of the knights that no ray pins.
    fn gen_knights(&self, moves: &mut Vec<Move>, captures_only: bool)
        ensures
            forall|m: Move| #[trigger] final(moves)@.contains(m) == (old(moves)@.contains(m) || self.knight_move(captures_only, m)),
            appends_distinct(old(moves)@, final(moves)@),
            forall|i: int| old(moves)@.len() <= i < final(moves)@.len() ==> self.knight_move(captures_only, #[trigger] final(moves)@[i]),
    {
        let mut non_pinned_knights = self.friendly_knights.and(self.diagonal_pin_rays.or(self.orthogonal_pin_rays).not());
        let mut mask = self.check_mask.or(self.push_mask).and(self.friendly_piece_bit_board.not());
        if captures_only {
            mask = mask.and(self.enemy_piece_bit_board);
        }
        let ghost start = moves@;
        proof {
            lemma_bit_laws();
            assert forall|t: int| #[trigger] mask.has(t) == self.target_ok(captures_only, t) by {}
        }
        proof {
            lemma_appends_none(start);
        }
        while non_pinned_knights.is_not_empty()
            invariant
                appends_distinct(start, moves@),
                forall|i: int| start.len() <= i < moves@.len() ==> self.knight_move(captures_only, #[trigger] moves@[i])
                    && !non_pinned_knights.has(moves@[i].from.0 as int),
                forall|t: int| #[trigger] mask.has(t) == self.target_ok(captures_only, t),
                forall|i: int| #[trigger] non_pinned_knights.has(i) ==> self.friendly_knights.has(i)
                    && !self.diagonal_pin_rays.has(i) && !self.orthogonal_pin_rays.has(i),
                forall|m: Move| #[trigger] moves@.contains(m) == (start.contains(m) || (self.knight_move(captures_only, m)
                    && !non_pinned_knights.has(m.from.0 as int))),
            decreases non_pinned_knights.0,
        {
            let ghost before = non_pinned_knights;
            let from = non_pinned_knights.pop_square();
            let attacks = knight_attack_bit_board(from);
            let targets = attacks.and(mask);
            let ghost moves0 = moves@;
            add_moves_from(moves, from, targets, Flag::Normal);
            proof {
                lemma_bit_laws();
                assert forall|i: int, j: int| start.len() <= i < moves0.len() <= j < moves@.len() implies #[trigger] moves0[i]
                    != #[trigger] moves@[j] by {
                    assert(!before.has(moves0[i].from.0 as int));
                }
                lemma_appends_join(start, moves0, moves@);
                assert forall|i: int| start.len() <= i < moves@.len() implies self.knight_move(captures_only, #[trigger] moves@[i])
                    && !non_pinned_knights.has(moves@[i].from.0 as int) by {
                    if i < moves0.len() {
                        assert(moves@[i] == moves0[i]);
                    } else {
                        let t = moves@[i].to.0 as int;
                        assert(targets.has(t) == (attacks.has(t) && mask.has(t)));
                        assert(before.has(from.0 as int));
                    }
                }
                assert forall|m: Move| #[trigger] moves@.contains(m) == (start.contains(m) || (self.knight_move(captures_only, m)
                    && !non_pinned_knights.has(m.from.0 as int))) by {
                    let t = m.to.0 as int;
                    assert(targets.has(t) == (attacks.has(t) && mask.has(t)));
                    if m.from == from {
                        assert(before.has(from.0 as int));
                    }
                }
            }
        }
        proof {
            assert forall|m: Move| #[trigger] moves@.contains(m) == (start.contains(m) || self.knight_move(captures_only, m)) by {
                let f = m.from.0 as int;
                lemma_bit_laws();
                if self.knight_move(captures_only, m) {
                    assert((0u64 >> (f as u64)) & 1 == 0);
                    assert(on_board(f));
                }
            }
        }
    }
}

impl MoveGenerator {
    /// Adds the moves of the slider on `from`: diagonal for `offset` 4, orthogonal for `offset` 0.
    fn gen_slider(&self, from: Square, moves: &mut Vec<Move>, captures_only: bool, offset: usize)
        requires
            from.valid(),
            offset == 0 || offset == 4,
        ensures
            forall|m: Move| #[trigger] final(moves)@.contains(m) == (old(moves)@.contains(m) || (m.from == from
                && self.slider_move_from(captures_only, offset as int, m))),
            appends_distinct(old(moves)@, final(moves)@),
            forall|i: int| old(moves)@.len() <= i < final(moves)@.len() ==> (#[trigger] final(moves)@[i]).from == from
                && self.slider_move_from(captures_only, offset as int, final(moves)@[i]),
    {
        let possible_moves = slider_moves(from, self.occupied_squares, offset);
        let mut legal_moves = possible_moves.and(self.friendly_piece_bit_board.not()).and(self.check_mask.or(self.push_mask));
        if captures_only {
            legal_moves = legal_moves.and(self.enemy_piece_bit_board);
        }
        let along = if offset == 4 {
            self.diagonal_pin_rays
        } else {
            self.orthogonal_pin_rays
        };
        if along.get(&from) {
            legal_moves = legal_moves.and(along);
        }
        proof {
            lemma_bit_laws();
            assert forall|t: int| #[trigger] legal_moves.has(t) == (slider_attacks(from.0 as int, self.occupied_squares.0, offset as int, t)
                && self.target_ok(captures_only, t) && (along.has(from.0 as int) ==> along.has(t))) by {
                if on_board(t) {
                    assert(possible_moves.has(t) == slider_attacks(from.0 as int, self.occupied_squares.0, offset as int, t));
                } else if slider_attacks(from.0 as int, self.occupied_squares.0, offset as int, t) {
                    lemma_slider_attacks_on_board(from.0 as int, self.occupied_squares.0, offset as int, t);
                }
            }
        }
        add_moves_from(moves, from, legal_moves, Flag::Normal);
    }

    /// `m` moves the slider on its from square as [`MoveGenerator::slider_move`] describes, the
    /// piece itself taken as given.
    pub open spec fn slider_move_from(self, captures_only: bool, offset: int, m: Move) -> bool {
        let from = m.from.0 as int;
        let to = m.to.0 as int;
        let along = if offset == 4 {
            self.diagonal_pin_rays
        } else {
            self.orthogonal_pin_rays
        };
        &&& m.flag == Flag::Normal
        &&& slider_attacks(from, self.occupied_squares.0, offset, to)
        &&& self.target_ok(captures_only, to)
        &&& along.has(from) ==> along.has(to)
    }

    /// Adds the moves of the sliders in `sliders` (diagonal for `offset` 4, orthogonal for 0).
    fn gen_sliders(&self, sliders: BitBoard, moves: &mut Vec<Move>, captures_only: bool, offset: usize)
        requires
            offset == 0 || offset == 4,
        ensures
            forall|m: Move| #[trigger] final(moves)@.contains(m) == (old(moves)@.contains(m) || (sliders.has(m.from.0 as int)
                && self.slider_move_from(captures_only, offset as int, m))),
            appends_distinct(old(moves)@, final(moves)@),
            forall|i: int| old(moves)@.len() <= i < final(moves)@.len() ==> sliders.has((#[trigger] final(moves)@[i]).from.0 as int)
                && self.slider_move_from(captures_only, offset as int, final(moves)@[i]),
    {
        let mut remaining = sliders;
        let ghost start = moves@;
        proof {
            lemma_appends_none(start);
        }
        while remaining.is_not_empty()
            invariant
                offset == 0 || offset == 4,
                appends_distinct(start, moves@),
                forall|i: int| start.len() <= i < moves@.len() ==> sliders.has((#[trigger] moves@[i]).from.0 as int)
                    && self.slider_move_from(captures_only, offset as int, moves@[i]) && !remaining.has(moves@[i].from.0 as int),
                forall|i: int| #[trigger] remaining.has(i) ==> sliders.has(i),
                forall|m: Move| #[trigger] moves@.contains(m) == (start.contains(m) || (sliders.has(m.from.0 as int)
                    && !remaining.has(m.from.0 as int) && self.slider_move_from(captures_only, offset as int, m))),
            decreases remaining.0,
        {
            let ghost before = remaining;
            let from = remaining.pop_square();
            let ghost moves0 = moves@;
            self.gen_slider(from, moves, captures_only, offset);
            proof {
                assert(before.has(from.0 as int));
                assert forall|i: int, j: int| start.len() <= i < moves0.len() <= j < moves@.len() implies #[trigger] moves0[i]
                    != #[trigger] moves@[j] by {
                    assert(!before.has(moves0[i].from.0 as int));
                }
                lemma_appends_join(start, moves0, moves@);
                assert forall|i: int| start.len() <= i < moves@.len() implies sliders.has((#[trigger] moves@[i]).from.0 as int)
                    && self.slider_move_from(captures_only, offset as int, moves@[i]) && !remaining.has(moves@[i].from.0 as int) by {
                    if i < moves0.len() {
                        assert(moves@[i] == moves0[i]);
                    }
                }
            }
        }
        proof {
            lemma_bit_laws();
            assert forall|i: int| !#[trigger] remaining.has(i) by {
                if on_board(i) {
                    assert((0u64 >> (i as u64)) & 1 == 0);
                }
            }
        }
    }

    /// Adds the king moves.
    fn gen_king(&self, moves: &mut Vec<Move>, captures_only: bool)
        requires
            self.wf(),
        ensures
            forall|m: Move| #[trigger] final(moves)@.contains(m) == (old(moves)@.contains(m) || self.king_move(captures_only, m)),
            appends_distinct(old(moves)@, final(moves)@),
            forall|i: int| old(moves)@.len() <= i < final(moves)@.len() ==> self.king_move(captures_only, #[trigger] final(moves)@[i]),
    {
        let king = self.friendly_king_square;
        let steps = king_attack_bit_board(king);
        let mut king_moves = steps.and(self.friendly_piece_bit_board.not()).and(self.king_danger_bit_board.not());
        if captures_only {
            king_moves = king_moves.and(self.enemy_piece_bit_board);
        }
        let ghost start = moves@;
        proof {
            lemma_bit_laws();
            assert forall|t: int| #[trigger] king_moves.has(t) == (on_board(t) && king_step(king.0 as int, t)
                && !self.friendly_piece_bit_board.has(t) && !self.king_danger_bit_board.has(t)
                && (captures_only ==> self.enemy_piece_bit_board.has(t))) by {
                assert(steps.has(t) == (on_board(t) && king_step(king.0 as int, t)));
            }
        }
        add_moves_from(moves, king, king_moves, Flag::Normal);
        proof {
            assert forall|i: int| start.len() <= i < moves@.len() implies self.king_move(captures_only, #[trigger] moves@[i])
                && moves@[i].flag == Flag::Normal by {
                assert(king_moves.has(moves@[i].to.0 as int));
            }
        }
        if self.is_in_check || captures_only {
            return;
        }
        let ghost after_steps = moves@;
        let cannot_castle_into = self.occupied_squares.or(self.king_danger_bit_board);
        let mut king_side_castle = false;
        let mut queen_side_castle = false;
        if self.king_side {
            let to = king.right(2);
            let castle_mask = if self.white_to_move {
                BitBoard::new(0x60)
            } else {
                BitBoard::new(0x6000_0000_0000_0000)
            };
            if !castle_mask.overlaps(&cannot_castle_into) {
                moves.push(Move { from: king, to, flag: Flag::Castle });
                king_side_castle = true;
            }
        }
        let ghost after_king_side = moves@;
        if self.queen_side {
            let to = king.left(2);
            let castle_block_mask = if self.white_to_move {
                BitBoard::new(0x0E)
            } else {
                BitBoard::new(0x0E00_0000_0000_0000)
            };
            if !castle_block_mask.overlaps(&self.occupied_squares) {
                let castle_mask = if self.white_to_move {
                    BitBoard::new(0x0C)
                } else {
                    BitBoard::new(0x0C00_0000_0000_0000)
                };
                if !castle_mask.overlaps(&cannot_castle_into) {
                    moves.push(Move { from: king, to, flag: Flag::Castle });
                    queen_side_castle = true;
                }
            }
        }
        proof {
            lemma_bit_laws();
            lemma_mask_bits();
            let k = king.0 as int;
            let base: int = if self.white_to_move { 0 } else { 56 };
            assert forall|s: int| 0 <= s < 64 implies #[trigger] bit(cannot_castle_into.0, s) == (self.occupied_squares.has(s) || self.king_danger_bit_board.has(s)) by {}
            let ks = Move { from: king, to: Square((k + 2) as i8), flag: Flag::Castle };
            let qs = Move { from: king, to: Square((k - 2) as i8), flag: Flag::Castle };
            assert(king_side_castle == (self.king_side && !self.occupied_squares.has(base + 5) && !self.occupied_squares.has(base + 6)
                && !self.king_danger_bit_board.has(base + 5) && !self.king_danger_bit_board.has(base + 6)));
            assert(queen_side_castle == (self.queen_side && !self.occupied_squares.has(base + 1) && !self.occupied_squares.has(base + 2)
                && !self.occupied_squares.has(base + 3) && !self.king_danger_bit_board.has(base + 2) && !self.king_danger_bit_board.has(base + 3)));
            assert(moves@ == if queen_side_castle { after_king_side.push(qs) } else { after_king_side });
            assert(after_king_side == if king_side_castle { after_steps.push(ks) } else { after_steps });
            assert(king_side_castle ==> self.king_move(captures_only, ks));
            assert(queen_side_castle ==> self.king_move(captures_only, qs));
            if king_side_castle {
                assert forall|i: int| start.len() <= i < after_steps.len() implies #[trigger] after_steps[i] != ks by {}
                lemma_appends_push(start, after_steps, ks);
            }
            assert(appends_distinct(start, after_king_side));
            assert forall|i: int| start.len() <= i < after_king_side.len() implies self.king_move(captures_only, #[trigger] after_king_side[i])
                && (after_king_side[i].flag == Flag::Normal || after_king_side[i] == ks) by {
                if i < after_steps.len() {
                    assert(after_king_side[i] == after_steps[i]);
                }
            }
            if queen_side_castle {
                assert forall|i: int| start.len() <= i < after_king_side.len() implies #[trigger] after_king_side[i] != qs by {}
                lemma_appends_push(start, after_king_side, qs);
            }
            assert forall|i: int| start.len() <= i < moves@.len() implies self.king_move(captures_only, #[trigger] moves@[i]) by {
                if i < after_king_side.len() {
                    assert(moves@[i] == after_king_side[i]);
                }
            }
            assert forall|m: Move| #[trigger] moves@.contains(m) == (start.contains(m) || self.king_move(captures_only, m)) by {
                assert(moves@.contains(m) == (after_steps.contains(m) || (king_side_castle && m == ks) || (queen_side_castle && m == qs))) by {
                    if moves@.contains(m) {
                        let i = choose|i: int| 0 <= i < moves@.len() && moves@[i] == m;
                        if i < after_steps.len() {
                            assert(after_steps[i] == m);
                        } else if king_side_castle && i == after_steps.len() {
                            assert(m == ks);
                        }
                    }
                    if after_steps.contains(m) {
                        let i = choose|i: int| 0 <= i < after_steps.len() && after_steps[i] == m;
                        assert(after_king_side[i] == m);
                        assert(moves@[i] == m);
                    }
                    if king_side_castle && m == ks {
                        assert(after_king_side[after_steps.len() as int] == m);
                        assert(moves@[after_steps.len() as int] == m);
                    }
                    if queen_side_castle && m == qs {
                        assert(moves@[after_king_side.len() as int] == m);
                    }
                }
            }
        }
    }
}

/// The bits of all pieces of a side.
pub open spec fn side_union(b: Board, white: bool) -> u64 {
    side_bits(b, white, 0) | side_bits(b, white, 1) | side_bits(b, white, 2) | side_bits(b, white, 3) | side_bits(b, white, 4)
        | side_bits(b, white, 5)
}

/// An enemy piece on `t` attacks the king of the side to move, on the board as it stands.
pub open spec fn checker(b: Board, t: int) -> bool {
    attacker(
        vstd::std_specs::bits::u64_trailing_zeros(side_bits(b, b.white_to_move, 5)) as int,
        b.white_to_move,
        side_bits(b, !b.white_to_move, 0),
        side_bits(b, !b.white_to_move, 1),
        side_bits(b, !b.white_to_move, 2) | side_bits(b, !b.white_to_move, 4),
        side_bits(b, !b.white_to_move, 3) | side_bits(b, !b.white_to_move, 4),
        side_union(b, true) | side_union(b, false),
        t,
    )
}

impl MoveGenerator {
    /// `m` is a move of a slider as in [`MoveGenerator::slider_move_from`], from a square of a
    /// friendly slider of that kind that no ray across its direction pins.
    pub open spec fn slider_move(self, captures_only: bool, offset: int, m: Move) -> bool {
        let from = m.from.0 as int;
        &&& (if offset == 4 {
            self.friendly_diagonal.has(from) && !self.orthogonal_pin_rays.has(from)
        } else {
            self.friendly_orthogonal.has(from) && !self.diagonal_pin_rays.has(from)
        })
        &&& self.slider_move_from(captures_only, offset, m)
    }

    /// The friendly pieces stand on squares of their own: the king, the pawns, the knights and the
    /// sliders apart (a queen is both a diagonal and an orthogonal slider).
    pub open spec fn pieces_apart(self) -> bool {
        let k = self.friendly_king_square.0 as int;
        &&& !self.friendly_pawns.has(k)
        &&& !self.friendly_knights.has(k)
        &&& !self.friendly_diagonal.has(k)
        &&& !self.friendly_orthogonal.has(k)
        &&& forall|s: int| #[trigger] self.friendly_pawns.has(s) ==> !self.friendly_knights.has(s)
            && !self.friendly_diagonal.has(s) && !self.friendly_orthogonal.has(s)
        &&& forall|s: int| #[trigger] self.friendly_knights.has(s) ==> !self.friendly_diagonal.has(s)
            && !self.friendly_orthogonal.has(s)
    }

    /// The king moves, pawn moves, knight moves, diagonal and orthogonal slider moves appended in
    /// turn are all different when the pieces stand apart.
    proof fn lemma_groups_apart(
        self,
        s0: Seq<Move>,
        s1: Seq<Move>,
        s2: Seq<Move>,
        s3: Seq<Move>,
        s4: Seq<Move>,
        s5: Seq<Move>,
        diagonal: BitBoard,
        orthogonal: BitBoard,
        captures_only: bool,
    )
        requires
            self.pieces_apart(),
            s0.len() == 0,
            forall|t: int| #[trigger] diagonal.has(t) ==> self.friendly_diagonal.has(t),
            forall|t: int| #[trigger] orthogonal.has(t) ==> self.friendly_orthogonal.has(t),
            appends_distinct(s0, s1),
            appends_distinct(s1, s2),
            appends_distinct(s2, s3),
            appends_distinct(s3, s4),
            appends_distinct(s4, s5),
            forall|i: int| s0.len() <= i < s1.len() ==> self.king_move(captures_only, #[trigger] s1[i]),
            forall|i: int| s1.len() <= i < s2.len() ==> self.friendly_pawns.has((#[trigger] s2[i]).from.0 as int),
            forall|i: int| s2.len() <= i < s3.len() ==> self.knight_move(captures_only, #[trigger] s3[i]),
            forall|i: int| s3.len() <= i < s4.len() ==> diagonal.has((#[trigger] s4[i]).from.0 as int)
                && self.slider_move_from(captures_only, 4, s4[i]),
            forall|i: int| s4.len() <= i < s5.len() ==> orthogonal.has((#[trigger] s5[i]).from.0 as int)
                && self.slider_move_from(captures_only, 0, s5[i]),
        ensures
            appends_distinct(s0, s5),
    {
        let k = self.friendly_king_square;
        // What each run's moves start from.
        assert forall|i: int| 0 <= i < s2.len() implies (#[trigger] s2[i]).from == k || self.friendly_pawns.has(s2[i].from.0 as int) by {
            if i < s1.len() {
                assert(s2.subrange(0, s1.len() as int)[i] == s2[i]);
            }
        }
        assert forall|i: int, j: int| s0.len() <= i < s1.len() <= j < s2.len() implies #[trigger] s1[i] != #[trigger] s2[j] by {}
        lemma_appends_join(s0, s1, s2);
        assert forall|i: int, j: int| s0.len() <= i < s2.len() <= j < s3.len() implies #[trigger] s2[i] != #[trigger] s3[j] by {}
        lemma_appends_join(s0, s2, s3);
        assert forall|i: int| 0 <= i < s3.len() implies (#[trigger] s3[i]).from == k || self.friendly_pawns.has(s3[i].from.0 as int)
            || self.friendly_knights.has(s3[i].from.0 as int) by {
            if i < s2.len() {
                assert(s3.subrange(0, s2.len() as int)[i] == s3[i]);
            }
        }
        assert forall|i: int, j: int| s0.len() <= i < s3.len() <= j < s4.len() implies #[trigger] s3[i] != #[trigger] s4[j] by {}
        lemma_appends_join(s0, s3, s4);
        assert forall|i: int| 0 <= i < s4.len() implies (#[trigger] s4[i]).from == k || self.friendly_pawns.has(s4[i].from.0 as int)
            || self.friendly_knights.has(s4[i].from.0 as int) || (self.friendly_diagonal.has(s4[i].from.0 as int)
            && self.slider_move_from(captures_only, 4, s4[i])) by {
            if i < s3.len() {
                assert(s4.subrange(0, s3.len() as int)[i] == s4[i]);
            }
        }
        assert forall|i: int, j: int| s0.len() <= i < s4.len() <= j < s5.len() implies #[trigger] s4[i] != #[trigger] s5[j] by {
            if s4[i] == s5[j] && s4[i].from != k && !self.friendly_pawns.has(s4[i].from.0 as int)
                && !self.friendly_knights.has(s4[i].from.0 as int) {
                let f = s4[i].from.0 as int;
                lemma_diagonal_orthogonal_apart(f, self.occupied_squares.0, s4[i].to.0 as int);
            }
        }
        lemma_appends_join(s0, s4, s5);
    }

    /// The moves generated: king moves, and unless in double check those of the other pieces.
    pub open spec fn generates(self, captures_only: bool, m: Move) -> bool {
        ||| self.king_move(captures_only, m)
        ||| !self.is_in_double_check && {
            ||| self.pawn_move(captures_only, m)
            ||| self.knight_move(captures_only, m)
            ||| self.slider_move(captures_only, 4, m)
            ||| self.slider_move(captures_only, 0, m)
        }
    }

    /// Generates all friendly piece moves; only captures when `captures_only`.
    pub fn gen(&self, captures_only: bool) -> (r: Vec<Move>)
        requires
            self.wf(),
        ensures
            forall|m: Move| #[trigger] r@.contains(m) == self.generates(captures_only, m),
            self.pieces_apart() ==> r@.no_duplicates(),
    {
        let mut moves: Vec<Move> = Vec::new();
        let ghost s0 = moves@;
        self.gen_king(&mut moves, captures_only);
        if self.is_in_double_check {
            proof {
                lemma_appends_from_empty(moves@);
            }
            return moves;
        }
        let ghost s1 = moves@;
        pawn_move_generator::generate(self, &mut moves, captures_only);
        let ghost s2 = moves@;
        self.gen_knights(&mut moves, captures_only);
        let ghost s3 = moves@;
        let friendly_diagonal = self.friendly_diagonal.and(self.orthogonal_pin_rays.not());
        self.gen_sliders(friendly_diagonal, &mut moves, captures_only, 4);
        let ghost s4 = moves@;
        let friendly_orthogonal = self.friendly_orthogonal.and(self.diagonal_pin_rays.not());
        self.gen_sliders(friendly_orthogonal, &mut moves, captures_only, 0);
        proof {
            lemma_bit_laws();
            if self.pieces_apart() {
                self.lemma_groups_apart(s0, s1, s2, s3, s4, moves@, friendly_diagonal, friendly_orthogonal, captures_only);
                lemma_appends_from_empty(moves@);
            }
        }
        proof {
            lemma_bit_laws();
            assert forall|m: Move| #[trigger] moves@.contains(m) == self.generates(captures_only, m) by {
                let f = m.from.0 as int;
                assert(friendly_diagonal.has(f) == (self.friendly_diagonal.has(f) && !self.orthogonal_pin_rays.has(f)));
                assert(friendly_orthogonal.has(f) == (self.friendly_orthogonal.has(f) && !self.diagonal_pin_rays.has(f)));
            }
        }
        moves
    }

    /// Calculates whether the side to move is in check.
    pub fn calculate_is_in_check(board: &Board) -> (r: bool)
        requires
            side_bits(*board, board.white_to_move, 5) != 0,
        ensures
            r == exists|t: int| #[trigger] checker(*board, t),
    {
        let w = board.white_to_move;
        let f: usize = if w { 0 } else { 6 };
        let e: usize = if w { 6 } else { 0 };
        let friendly_king = *board.get_bit_board(Piece::from_index(f + 5));
        let king_square = friendly_king.first_square();
        let enemy_pawns = *board.get_bit_board(Piece::from_index(e));
        let enemy_knights = *board.get_bit_board(Piece::from_index(e + 1));
        let enemy_bishops = *board.get_bit_board(Piece::from_index(e + 2));
        let enemy_rooks = *board.get_bit_board(Piece::from_index(e + 3));
        let enemy_queens = *board.get_bit_board(Piece::from_index(e + 4));
        let enemy_king = *board.get_bit_board(Piece::from_index(e + 5));
        let enemy_diagonal = enemy_bishops.or(enemy_queens);
        let enemy_orthogonal = enemy_rooks.or(enemy_queens);
        let white_pieces = board.get_bit_board(Piece::from_index(0)).or(*board.get_bit_board(Piece::from_index(1))).or(
            *board.get_bit_board(Piece::from_index(2)),
        ).or(*board.get_bit_board(Piece::from_index(3))).or(*board.get_bit_board(Piece::from_index(4))).or(
            *board.get_bit_board(Piece::from_index(5)),
        );
        let black_pieces = board.get_bit_board(Piece::from_index(6)).or(*board.get_bit_board(Piece::from_index(7))).or(
            *board.get_bit_board(Piece::from_index(8)),
        ).or(*board.get_bit_board(Piece::from_index(9))).or(*board.get_bit_board(Piece::from_index(10))).or(
            *board.get_bit_board(Piece::from_index(11)),
        );
        let occupied_squares = white_pieces.or(black_pieces);
        let attackers = Self::calculate_check(w, king_square, enemy_pawns, enemy_knights, enemy_diagonal, enemy_orthogonal, occupied_squares);
        let r = attackers.is_not_empty();
        proof {
            lemma_bit_laws();
            let k = king_square.0 as int;
            let b = *board;
            assert(occupied_squares.0 == side_union(b, true) | side_union(b, false));
            if r {
                lemma_nonzero_has(attackers.0);
                let t = choose|t: int| on_board(t) && #[trigger] bit(attackers.0, t);
                assert(attackers.has(t));
                assert(checker(b, t));
            } else {
                assert forall|t: int| !#[trigger] attacker(k, w, enemy_pawns.0, enemy_knights.0, enemy_diagonal.0, enemy_orthogonal.0,
                    occupied_squares.0, t) by {
                    if on_board(t) {
                        assert(attackers.has(t) == attacker(k, w, enemy_pawns.0, enemy_knights.0, enemy_diagonal.0, enemy_orthogonal.0,
                            occupied_squares.0, t));
                        assert((0u64 >> (t as u64)) & 1 == 0);
                    }
                }
                assert forall|t: int| !#[trigger] checker(b, t) by {
                    assert(!attacker(k, w, enemy_pawns.0, enemy_knights.0, enemy_diagonal.0, enemy_orthogonal.0, occupied_squares.0, t));
                }
            }
        }
        r
    }

    /// Returns whether the side to move is in check.
    pub fn is_in_check(&self) -> (r: bool)
        ensures
            r == self.is_in_check,
    {
        self.is_in_check
    }

    /// Returns the enemy piece bit board.
    pub fn enemy_piece_bit_board(&self) -> (r: BitBoard)
        ensures
            r == self.enemy_piece_bit_board,
    {
        self.enemy_piece_bit_board
    }

    /// Returns the friendly pawns bit board.
    pub fn friendly_pawns(&self) -> (r: BitBoard)
        ensures
            r == self.friendly_pawns,
    {
        self.friendly_pawns
    }

    /// Returns the friendly piece bit board.
    pub fn friendly_pieces(&self) -> (r: BitBoard)
        ensures
            r == self.friendly_piece_bit_board,
    {
        self.friendly_piece_bit_board
    }
}


/// Bit boards holding the same squares are equal.
pub proof fn lemma_same_squares(a: BitBoard, c: BitBoard)
    requires
        forall|t: int| #[trigger] a.has(t) == c.has(t),
    ensures
        a == c,
{
    assert forall|i: int| 0 <= i < 64 implies #[trigger] bit(a.0, i) == bit(c.0, i) by {
        assert(a.has(i) == c.has(i));
    }
    lemma_bits_equal(a.0, c.0);
}

/// A position has one generator: two generators describing the same position are equal.
pub proof fn lemma_describes_unique(b: Board, g1: MoveGenerator, g2: MoveGenerator)
    requires
        g1.describes(b),
        g2.describes(b),
    ensures
        g1 == g2,
{
    assert(g1.friendly_pawns == g2.friendly_pawns);
    assert(g1.friendly_knights == g2.friendly_knights);
    assert(g1.friendly_diagonal == g2.friendly_diagonal);
    assert(g1.friendly_orthogonal == g2.friendly_orthogonal);
    assert(g1.enemy_orthogonal == g2.enemy_orthogonal);
    assert(g1.friendly_king_square == g2.friendly_king_square);
    lemma_same_squares(g1.friendly_piece_bit_board, g2.friendly_piece_bit_board);
    lemma_same_squares(g1.enemy_piece_bit_board, g2.enemy_piece_bit_board);
    lemma_same_squares(g1.occupied_squares, g2.occupied_squares);
    lemma_same_squares(g1.empty_squares, g2.empty_squares);
    lemma_same_squares(g1.king_danger_bit_board, g2.king_danger_bit_board);
    lemma_same_squares(g1.diagonal_pin_rays, g2.diagonal_pin_rays);
    lemma_same_squares(g1.orthogonal_pin_rays, g2.orthogonal_pin_rays);
    assert forall|t: int| #[trigger] king_attacker(b, g1, t) == king_attacker(b, g2, t) by {}
    assert(g1.is_in_check == g2.is_in_check) by {
        if g1.is_in_check {
            let t = choose|t: int| #[trigger] king_attacker(b, g1, t);
            assert(king_attacker(b, g2, t));
        }
        if g2.is_in_check {
            let t = choose|t: int| #[trigger] king_attacker(b, g2, t);
            assert(king_attacker(b, g1, t));
        }
    }
    assert(g1.is_in_double_check == g2.is_in_double_check) by {
        if g1.is_in_double_check {
            let (s, t) = choose|s: int, t: int| s != t && #[trigger] king_attacker(b, g1, s) && #[trigger] king_attacker(b, g1, t);
            assert(king_attacker(b, g2, s) && king_attacker(b, g2, t));
        }
        if g2.is_in_double_check {
            let (s, t) = choose|s: int, t: int| s != t && #[trigger] king_attacker(b, g2, s) && #[trigger] king_attacker(b, g2, t);
            assert(king_attacker(b, g1, s) && king_attacker(b, g1, t));
        }
    }
    if g1.is_in_check {
        lemma_same_squares(g1.check_mask, g2.check_mask);
        lemma_same_squares(g1.push_mask, g2.push_mask);
    }
    assert(g1.check_mask == g2.check_mask);
    assert(g1.push_mask == g2.push_mask);
}


/// The generator of a position says it is in check exactly when [`MoveGenerator::calculate_is_in_check`]
/// finds an enemy piece attacking the king, and holds the side's pieces, the other side's pieces
/// and the side's pawns as the board does.
pub proof fn lemma_in_check_agrees(b: Board, g: MoveGenerator)
    requires
        g.describes(b),
    ensures
        g.is_in_check == exists|t: int| #[trigger] checker(b, t),
        g.friendly_piece_bit_board.0 == side_union(b, b.white_to_move),
        g.enemy_piece_bit_board.0 == side_union(b, !b.white_to_move),
        g.friendly_pawns.0 == side_bits(b, b.white_to_move, 0),
{
    lemma_bit_laws();
    assert forall|i: int| 0 <= i < 64 implies #[trigger] bit(g.friendly_piece_bit_board.0, i) == bit(side_union(b, b.white_to_move), i) by {
        assert(g.friendly_piece_bit_board.has(i) == side_has(b, b.white_to_move, i));
    }
    lemma_bits_equal(g.friendly_piece_bit_board.0, side_union(b, b.white_to_move));
    assert forall|i: int| 0 <= i < 64 implies #[trigger] bit(g.enemy_piece_bit_board.0, i) == bit(side_union(b, !b.white_to_move), i) by {
        assert(g.enemy_piece_bit_board.has(i) == side_has(b, !b.white_to_move, i));
    }
    lemma_bits_equal(g.enemy_piece_bit_board.0, side_union(b, !b.white_to_move));
    let occupied = side_union(b, true) | side_union(b, false);
    assert forall|i: int| 0 <= i < 64 implies #[trigger] bit(g.occupied_squares.0, i) == bit(occupied, i) by {
        assert(g.occupied_squares.has(i) == (side_has(b, true, i) || side_has(b, false, i)));
    }
    lemma_bits_equal(g.occupied_squares.0, occupied);
    assert forall|t: int| #[trigger] king_attacker(b, g, t) == checker(b, t) by {}
    if g.is_in_check {
        let t = choose|t: int| #[trigger] king_attacker(b, g, t);
        assert(checker(b, t));
    }
    if exists|t: int| #[trigger] checker(b, t) {
        let t = choose|t: int| #[trigger] checker(b, t);
        assert(king_attacker(b, g, t));
    }
}

} // verus!
