//! Finding magic numbers for slider move lookup tables: a magic maps every set of relevant
//! blockers of a square to a table slot, and works when blocker sets with different moves never
//! share a slot.
use vstd::prelude::*;
use rand_chacha::ChaCha20Rng;
use rand_chacha::rand_core::RngCore;
use bitvec::vec::BitVec;
use crate::board::bit_board::{BitBoard, bit, lemma_bit_laws};
use crate::board::square::{Square, direction};
use crate::move_generator::precomputed::{file_of, rank_of};
use crate::text::{decimal, push_decimal, push_str, string_push};
use crate::move_generator::slider_lookup::{
    slider_attacks, slides_to, edge_distance, is_subset, iterate_combinations, get_rook_moves, get_bishop_moves,
    relevant_rook_blockers, relevant_bishop_blockers, relevant_blocker,
};

verus! {

/// A ChaCha random number generator, seeded once and drawn from.
#[verifier::external_type_specification]
#[verifier::external_body]
pub struct ExChaCha20Rng(ChaCha20Rng);

/// `RngCore::next_u64` of a ChaCha20 generator: the next 64 bits of its stream. The bits depend
/// on the generator's hidden state, so nothing is stated of them.
#[verifier::external_body]
fn next_random(random: &mut ChaCha20Rng) -> (r: u64) {
    random.next_u64()
}

/// The slot of a blocker set in a table of `2^index_bits` slots: the set times the magic,
/// wrapping, keeping the top `index_bits` bits.
pub open spec fn magic_slot(blockers: u64, magic: u64, index_bits: u8) -> int {
    (blockers.wrapping_mul(magic) >> ((64 - index_bits) as u64)) as int
}

/// The moves of a rook (offset 0) or bishop (offset 4) on `square` blocked by `blockers`, as the
/// bits of a bit board.
pub open spec fn holds_moves(b: BitBoard, square: int, blockers: u64, offset: int) -> bool {
    forall|t: int| #[trigger] b.has(t) == slider_attacks(square, blockers, offset, t)
}

/// A magic works for a square and its relevant blockers: two blocker sets that share a slot have
/// the same moves.
pub open spec fn magic_works(square: int, blockers: u64, magic: u64, index_bits: u8, offset: int) -> bool {
    forall|m1: u64, m2: u64|
        #![trigger is_subset(m1, blockers), is_subset(m2, blockers)]
        is_subset(m1, blockers) && is_subset(m2, blockers) && magic_slot(m1, magic, index_bits) == magic_slot(
            m2,
            magic,
            index_bits,
        ) ==> forall|t: int| slider_attacks(square, m1, offset, t) == slider_attacks(square, m2, offset, t)
}

/// A slider always attacks some square, whatever blocks it: a neighbour on the board in one of
/// its directions.
pub proof fn lemma_attacks_some_square(square: int, blockers: u64, offset: int)
    requires
        0 <= square < 64,
        offset == 0 || offset == 4,
    ensures
        exists|t: int| slider_attacks(square, blockers, offset, t),
{
    let f = file_of(square);
    let r = rank_of(square);
    let d: int = if offset == 0 {
        if f < 7 { 0 } else { 2 }
    } else if r < 7 {
        if f > 0 { 4 } else { 5 }
    } else {
        if f > 0 { 6 } else { 7 }
    };
    assert(edge_distance(square, d) >= 1);
    let t = square + direction(d);
    assert(slides_to(square, d, edge_distance(square, d), blockers, t));
    assert(slider_attacks(square, blockers, offset, t));
}

/// The slot of a blocker set is below the table's size.
proof fn lemma_slot_in_table(blockers: u64, magic: u64, index_bits: u8)
    requires
        1 <= index_bits <= 32,
    ensures
        0 <= magic_slot(blockers, magic, index_bits) < (1u64 << (index_bits as u64)),
        (1u64 << (index_bits as u64)) <= 0x1_0000_0000,
        ((blockers.wrapping_mul(magic) >> ((64 - index_bits) as u64)) as usize) as int == magic_slot(blockers, magic, index_bits),
{
    let x = blockers.wrapping_mul(magic);
    let k = index_bits as u64;
    let s = (64 - k) as u64;
    assert(1 <= k <= 32 && s == 64 - k ==> (x >> s) < (1u64 << k) && (1u64 << k) <= 0x1_0000_0000) by (bit_vector);
}

/// The moves of a rook (offset 0) or bishop (offset 4) on `square` blocked by `blockers`.
fn slider_moves_for(square: Square, blockers: BitBoard, direction_offset: usize) -> (r: BitBoard)
    requires
        square.valid(),
        direction_offset == 0 || direction_offset == 4,
    ensures
        holds_moves(r, square.0 as int, blockers.0, direction_offset as int),
        r.0 != 0,
{
    let moves = if direction_offset == 0 {
        get_rook_moves(square, blockers)
    } else {
        get_bishop_moves(square, blockers)
    };
    proof {
        lemma_attacks_some_square(square.0 as int, blockers.0, direction_offset as int);
        let t = choose|t: int| slider_attacks(square.0 as int, blockers.0, direction_offset as int, t);
        assert(moves.has(t));
        lemma_bit_laws();
        if moves.0 == 0 {
            assert(bit(moves.0, t));
        }
    }
    moves
}

/// Fills `table` with the moves of every blocker set of `blockers`, each at its slot for
/// `magic`; fails, with the highest slot used so far, where a slot already holds other moves.
/// Gives the highest slot used.
pub fn fill_magic_table(
    table: &mut Vec<BitBoard>,
    square: Square,
    blockers: BitBoard,
    magic: u64,
    index_bits: u8,
    direction_offset: usize,
) -> (r: Result<usize, usize>)
    requires
        square.valid(),
        direction_offset == 0 || direction_offset == 4,
        1 <= index_bits <= 32,
        old(table)@.len() >= (1u64 << (index_bits as u64)),
    ensures
        final(table)@.len() == old(table)@.len(),
        r matches Ok(h) ==> forall|m: u64| #[trigger] is_subset(m, blockers.0) ==> magic_slot(m, magic, index_bits) <= h
            && holds_moves(final(table)@[magic_slot(m, magic, index_bits)], square.0 as int, m, direction_offset as int),
        r matches Ok(h) ==> h < old(table)@.len(),
        r matches Err(h) ==> h < old(table)@.len(),
        exists|m: u64| #[trigger] is_subset(m, blockers.0) && magic_slot(m, magic, index_bits) == (match r {
            Ok(h) => h,
            Err(h) => h,
        }),
        forall|x: int| 0 <= x < old(table)@.len() && #[trigger] final(table)@[x] != old(table)@[x] ==> x <= (match r {
            Ok(h) => h,
            Err(h) => h,
        }),
        (forall|i: int| 0 <= i < old(table)@.len() ==> #[trigger] old(table)@[i].0 == 0) && r is Err ==> !magic_works(
            square.0 as int,
            blockers.0,
            magic,
            index_bits,
            direction_offset as int,
        ),
{
    let combinations = iterate_combinations(blockers);
    let ghost sq = square.0 as int;
    let ghost off = direction_offset as int;
    let ghost all_empty = forall|i: int| 0 <= i < old(table)@.len() ==> #[trigger] old(table)@[i].0 == 0;
    let mut highest_used_index: usize = 0;
    let mut i: usize = 0;
    while i < combinations.len()
        invariant
            i <= combinations@.len(),
            square.valid(),
            sq == square.0 as int,
            off == direction_offset as int,
            direction_offset == 0 || direction_offset == 4,
            1 <= index_bits <= 32,
            table@.len() == old(table)@.len(),
            table@.len() >= (1u64 << (index_bits as u64)),
            forall|k: int| 0 <= k < combinations@.len() ==> is_subset(#[trigger] combinations@[k].0, blockers.0),
            i > 0 ==> highest_used_index < table@.len(),
            i > 0 ==> exists|j: int| 0 <= j < i && magic_slot(#[trigger] combinations@[j].0, magic, index_bits) == highest_used_index,
            forall|x: int| 0 <= x < table@.len() && #[trigger] table@[x] != old(table)@[x] ==> i > 0 && x <= highest_used_index,
            forall|j: int| 0 <= j < i ==> magic_slot(#[trigger] combinations@[j].0, magic, index_bits) <= highest_used_index,
            forall|j: int| 0 <= j < i ==> holds_moves(
                table@[magic_slot(#[trigger] combinations@[j].0, magic, index_bits)],
                sq,
                combinations@[j].0,
                off,
            ),
            all_empty ==> forall|x: int| 0 <= x < table@.len() && #[trigger] table@[x].0 != 0 ==> exists|j: int|
                0 <= j < i && magic_slot(combinations@[j].0, magic, index_bits) == x && holds_moves(
                    table@[x],
                    sq,
                    combinations@[j].0,
                    off,
                ),
            all_empty == forall|k: int| 0 <= k < old(table)@.len() ==> #[trigger] old(table)@[k].0 == 0,
        decreases combinations@.len() - i,
    {
        let blocker_combination = combinations[i];
        let moves = slider_moves_for(square, blocker_combination, direction_offset);
        let magic_index = blocker_combination.magic_index(magic, 64 - index_bits);
        proof {
            lemma_slot_in_table(blocker_combination.0, magic, index_bits);
            assert(magic_index as int == magic_slot(blocker_combination.0, magic, index_bits));
        }
        if i == 0 || highest_used_index < magic_index {
            highest_used_index = magic_index;
        }
        proof {
            assert(is_subset(combinations@[i as int].0, blockers.0));
            let j = if highest_used_index == magic_index {
                i as int
            } else {
                choose|j: int| 0 <= j < i && magic_slot(#[trigger] combinations@[j].0, magic, index_bits) == highest_used_index
            };
            assert(0 <= j <= i && magic_slot(combinations@[j].0, magic, index_bits) == highest_used_index);
            assert(is_subset(combinations@[j].0, blockers.0));
        }
        let table_entry = table[magic_index];
        if table_entry.is_empty() {
            let ghost before = table@;
            table.set(magic_index, moves);
            proof {
                assert forall|j: int| 0 <= j < i implies magic_slot(#[trigger] combinations@[j].0, magic, index_bits)
                    != magic_index as int by {
                    let s = magic_slot(combinations@[j].0, magic, index_bits);
                    if s == magic_index as int {
                        lemma_attacks_some_square(sq, combinations@[j].0, off);
                        let t = choose|t: int| slider_attacks(sq, combinations@[j].0, off, t);
                        assert(before[s].has(t));
                        lemma_bit_laws();
                        assert(bit(before[s].0, t));
                    }
                }
            }
        } else if table_entry != moves {
            proof {
                if all_empty {
                    let x = magic_index as int;
                    let j = choose|j: int| 0 <= j < i && magic_slot(combinations@[j].0, magic, index_bits) == x && holds_moves(
                        table@[x],
                        sq,
                        combinations@[j].0,
                        off,
                    );
                    let m1 = combinations@[j].0;
                    let m2 = blocker_combination.0;
                    assert(is_subset(m1, blockers.0));
                    assert(is_subset(m2, blockers.0));
                    assert(exists|t: int| table_entry.has(t) != moves.has(t)) by {
                        lemma_bit_laws();
                        let a = table_entry.0;
                        let b = moves.0;
                        assert(a != b ==> a ^ b != 0) by (bit_vector);
                        let d = table_entry.0 ^ moves.0;
                        crate::move_generator::lemma_nonzero_has(d);
                        let t = choose|t: int| crate::board::square::on_board(t) && #[trigger] bit(d, t);
                        assert(table_entry.has(t) != moves.has(t));
                    }
                    let t = choose|t: int| table_entry.has(t) != moves.has(t);
                    assert(slider_attacks(sq, m1, off, t) != slider_attacks(sq, m2, off, t));
                }
            }
            return Err(highest_used_index);
        }
        i = i + 1;
    }
    proof {
        assert forall|m: u64| #[trigger] is_subset(m, blockers.0) implies magic_slot(m, magic, index_bits) <= highest_used_index
            && holds_moves(table@[magic_slot(m, magic, index_bits)], sq, m, off) by {
            let k = choose|k: int| 0 <= k < combinations@.len() && #[trigger] combinations@[k].0 == m;
            assert(magic_slot(combinations@[k].0, magic, index_bits) <= highest_used_index);
        }
    }
    Ok(highest_used_index)
}

/// Which slider the tables are for.
#[derive(Clone, Copy, PartialEq, Eq, Structural)]
pub enum RookOrBishop {
    /// Rook tables: 12 index bits, directions from 0.
    Rook,
    /// Bishop tables: 9 index bits, directions from 4.
    Bishop,
}

/// The first direction of a slider: 0 for a rook, 4 for a bishop.
pub open spec fn piece_offset(piece_type: RookOrBishop) -> int {
    match piece_type {
        RookOrBishop::Rook => 0,
        RookOrBishop::Bishop => 4,
    }
}

/// The index bits of bishop tables.
pub const BISHOP_INDEX_BITS: u8 = 9;

/// The index bits of rook tables.
pub const ROOK_INDEX_BITS: u8 = 12;

/// A table of `size` empty bit boards.
fn empty_table(size: usize) -> (r: Vec<BitBoard>)
    ensures
        r@.len() == size,
        forall|i: int| 0 <= i < size ==> #[trigger] r@[i].0 == 0,
{
    let mut table: Vec<BitBoard> = Vec::new();
    let mut i: usize = 0;
    while i < size
        invariant
            i <= size,
            table@.len() == i,
            forall|j: int| 0 <= j < i ==> #[trigger] table@[j].0 == 0,
        decreases size - i,
    {
        table.push(BitBoard::new(0));
        i = i + 1;
    }
    table
}

/// Empties the slots up to `highest` of a table whose later slots are empty.
fn clear_up_to(table: &mut Vec<BitBoard>, highest: usize)
    requires
        highest < old(table)@.len(),
        forall|i: int| highest < i < old(table)@.len() ==> #[trigger] old(table)@[i].0 == 0,
    ensures
        final(table)@.len() == old(table)@.len(),
        forall|i: int| 0 <= i < final(table)@.len() ==> #[trigger] final(table)@[i].0 == 0,
{
    let len = table.len();
    let mut i: usize = 0;
    while i <= highest
        invariant
            i <= highest + 1,
            len == table@.len(),
            highest < table@.len(),
            table@.len() == old(table)@.len(),
            forall|j: int| 0 <= j < i ==> #[trigger] table@[j].0 == 0,
            forall|j: int| highest < j < table@.len() ==> #[trigger] table@[j].0 == 0,
        decreases highest + 1 - i,
    {
        table.set(i, BitBoard::new(0));
        i = i + 1;
    }
}

/// Every clash-free fill shows a working magic.
proof fn lemma_filled_magic_works(table: Seq<BitBoard>, square: int, blockers: u64, magic: u64, index_bits: u8, offset: int)
    requires
        forall|m: u64| #[trigger] is_subset(m, blockers) ==> holds_moves(table[magic_slot(m, magic, index_bits)], square, m, offset),
    ensures
        magic_works(square, blockers, magic, index_bits, offset),
{
    assert forall|m1: u64, m2: u64|
        #![trigger is_subset(m1, blockers), is_subset(m2, blockers)]
        is_subset(m1, blockers) && is_subset(m2, blockers) && magic_slot(m1, magic, index_bits) == magic_slot(
            m2,
            magic,
            index_bits,
        ) implies forall|t: int| slider_attacks(square, m1, offset, t) == slider_attacks(square, m2, offset, t) by {
        let b = table[magic_slot(m1, magic, index_bits)];
        assert(holds_moves(b, square, m1, offset));
        assert(holds_moves(b, square, m2, offset));
        assert forall|t: int| slider_attacks(square, m1, offset, t) == slider_attacks(square, m2, offset, t) by {
            assert(b.has(t) == slider_attacks(square, m1, offset, t));
        }
    }
}

/// Of the best magic so far, whose table's highest used slot is `best_highest`, and a working
/// `magic` whose highest used slot is `highest`: the one with the lower highest slot, the earlier
/// one on a tie.
pub fn keep_better_magic(best_magic: u64, best_highest: usize, magic: u64, highest: usize) -> (r: (u64, usize))
    ensures
        r == (if highest < best_highest { (magic, highest) } else { (best_magic, best_highest) }),
{
    if highest < best_highest {
        (magic, highest)
    } else {
        (best_magic, best_highest)
    }
}

/// For each square, tries random magics (each the AND of three random numbers) until 9000 have
/// worked, and keeps the one whose highest slot is lowest; a square keeps 0 if none worked.
pub fn find_magics(
    random: &mut ChaCha20Rng,
    relevant_blockers: &Vec<BitBoard>,
    direction_offset: usize,
    index_bits: u8,
) -> (r: Vec<u64>)
    requires
        relevant_blockers@.len() == 64,
        direction_offset == 0 || direction_offset == 4,
        1 <= index_bits <= 24,
    ensures
        r@.len() == 64,
        forall|s: int| 0 <= s < 64 ==> #[trigger] r@[s] == 0 || magic_works(
            s,
            relevant_blockers@[s].0,
            r@[s],
            index_bits,
            direction_offset as int,
        ),
{
    let size: usize = 1usize << index_bits;
    proof {
        let k = index_bits;
        assert(1 <= k <= 24 ==> (1usize << k) == (1u64 << (k as u64)) && (1usize << k) >= 2) by (bit_vector);
    }
    let mut table = empty_table(size);
    let mut magics: Vec<u64> = Vec::new();
    let mut square_index: usize = 0;
    while square_index < 64
        invariant
            square_index <= 64,
            magics@.len() == square_index,
            relevant_blockers@.len() == 64,
            direction_offset == 0 || direction_offset == 4,
            1 <= index_bits <= 24,
            size == (1u64 << (index_bits as u64)),
            table@.len() == size,
            forall|i: int| 0 <= i < table@.len() ==> #[trigger] table@[i].0 == 0,
            forall|s: int| 0 <= s < square_index ==> #[trigger] magics@[s] == 0 || magic_works(
                s,
                relevant_blockers@[s].0,
                magics@[s],
                index_bits,
                direction_offset as int,
            ),
        decreases 64 - square_index,
    {
        let square = Square::from_index(square_index as i8);
        let blockers = relevant_blockers[square_index];
        let mut best_magic: u64 = 0;
        let mut best_highest_used_index: usize = usize::MAX;
        let mut retries: u32 = 0;
        let mut attempts: u64 = 0;
        while retries < 9000 && attempts < u64::MAX
            invariant
                square.valid(),
                square.0 == square_index,
                direction_offset == 0 || direction_offset == 4,
                1 <= index_bits <= 24,
                size == (1u64 << (index_bits as u64)),
                table@.len() == size,
                forall|i: int| 0 <= i < table@.len() ==> #[trigger] table@[i].0 == 0,
                best_magic == 0 || magic_works(square_index as int, blockers.0, best_magic, index_bits, direction_offset as int),
            decreases u64::MAX - attempts,
        {
            attempts = attempts + 1;
            let magic = next_random(random) & next_random(random) & next_random(random);
            let ghost before = table@;
            let filled = fill_magic_table(&mut table, square, blockers, magic, index_bits, direction_offset);
            match filled {
                Ok(highest_used_index) => {
                    proof {
                        lemma_filled_magic_works(table@, square_index as int, blockers.0, magic, index_bits, direction_offset as int);
                        assert forall|i: int| highest_used_index < i < table@.len() implies #[trigger] table@[i].0 == 0 by {
                            assert(before[i].0 == 0);
                        }
                    }
                    clear_up_to(&mut table, highest_used_index);
                    retries = retries + 1;
                    let (kept_magic, kept_highest) = keep_better_magic(best_magic, best_highest_used_index, magic, highest_used_index);
                    best_magic = kept_magic;
                    best_highest_used_index = kept_highest;
                },
                Err(highest_used_index) => {
                    proof {
                        assert forall|i: int| highest_used_index < i < table@.len() implies #[trigger] table@[i].0 == 0 by {
                            assert(before[i].0 == 0);
                        }
                    }
                    clear_up_to(&mut table, highest_used_index);
                },
            }
        }
        magics.push(best_magic);
        square_index = square_index + 1;
    }
    magics
}

/// The relevant blockers of every square for a rook or a bishop.
pub fn relevant_blockers_of(piece_type: RookOrBishop) -> (r: Vec<BitBoard>)
    ensures
        r@.len() == 64,
        forall|s: int, t: int| 0 <= s < 64 ==> #[trigger] r@[s].has(t) == relevant_blocker(s, piece_offset(piece_type), t),
{
    let mut blockers: Vec<BitBoard> = Vec::new();
    let mut s: usize = 0;
    while s < 64
        invariant
            s <= 64,
            blockers@.len() == s,
            forall|j: int, t: int| 0 <= j < s ==> #[trigger] blockers@[j].has(t) == relevant_blocker(j, piece_offset(piece_type), t),
        decreases 64 - s,
    {
        let square = Square::from_index(s as i8);
        let b = match piece_type {
            RookOrBishop::Rook => relevant_rook_blockers(square),
            RookOrBishop::Bishop => relevant_bishop_blockers(square),
        };
        blockers.push(b);
        s = s + 1;
    }
    blockers
}

/// The index bits of a slider's tables.
pub open spec fn piece_index_bits(piece_type: RookOrBishop) -> u8 {
    match piece_type {
        RookOrBishop::Rook => ROOK_INDEX_BITS,
        RookOrBishop::Bishop => BISHOP_INDEX_BITS,
    }
}

/// `b` holds the relevant blockers of square `s` for the slider.
pub open spec fn relevant_for(b: BitBoard, s: int, piece_type: RookOrBishop) -> bool {
    forall|t: int| #[trigger] b.has(t) == relevant_blocker(s, piece_offset(piece_type), t)
}

/// Some bit board holds the relevant blockers of square `s` for the slider.
pub open spec fn has_relevant(s: int, piece_type: RookOrBishop) -> bool {
    exists|b: BitBoard| #[trigger] relevant_for(b, s, piece_type)
}

/// `len` is the length a table needs for the blocker subsets of `blockers` with `magic`: one past
/// the highest slot one of them takes.
pub open spec fn table_length(blockers: u64, magic: u64, index_bits: u8, len: int) -> bool {
    &&& forall|m: u64| #[trigger] is_subset(m, blockers) ==> magic_slot(m, magic, index_bits) < len
    &&& exists|m: u64| #[trigger] is_subset(m, blockers) && magic_slot(m, magic, index_bits) + 1 == len
}

/// Appends, for each square in order, the length its table needs with its magic (the highest
/// slot used plus one), the square and the slider.
pub fn process_tables(all_tables: &mut Vec<(usize, usize, RookOrBishop)>, piece_type: RookOrBishop, magics: &Vec<u64>)
    requires
        magics@.len() == 64,
        forall|s: int, b: BitBoard| 0 <= s < 64 && #[trigger] relevant_for(b, s, piece_type) ==> magic_works(
            s,
            b.0,
            magics@[s],
            piece_index_bits(piece_type),
            piece_offset(piece_type),
        ),
    ensures
        final(all_tables)@.len() == old(all_tables)@.len() + 64,
        forall|i: int| 0 <= i < old(all_tables)@.len() ==> #[trigger] final(all_tables)@[i] == old(all_tables)@[i],
        forall|s: int| 0 <= s < 64 ==> {
            let entry = #[trigger] final(all_tables)@[old(all_tables)@.len() + s];
            &&& entry.1 == s
            &&& entry.2 == piece_type
            &&& 1 <= entry.0 <= (1u64 << (piece_index_bits(piece_type) as u64))
        },
        forall|s: int, b: BitBoard| 0 <= s < 64 && #[trigger] relevant_for(b, s, piece_type) ==> table_length(
            b.0,
            magics@[s],
            piece_index_bits(piece_type),
            final(all_tables)@[old(all_tables)@.len() + s].0 as int,
        ),
        forall|s: int| 0 <= s < 64 ==> #[trigger] has_relevant(s, piece_type),
{
    let relevant_blockers = relevant_blockers_of(piece_type);
    let index_bits = match piece_type {
        RookOrBishop::Rook => ROOK_INDEX_BITS,
        RookOrBishop::Bishop => BISHOP_INDEX_BITS,
    };
    let direction_offset: usize = match piece_type {
        RookOrBishop::Rook => 0,
        RookOrBishop::Bishop => 4,
    };
    let size: usize = 1usize << index_bits;
    proof {
        let k = index_bits;
        assert(1 <= k <= 24 ==> (1usize << k) == (1u64 << (k as u64)) && (1usize << k) >= 2) by (bit_vector);
    }
    let ghost start = all_tables@;
    proof {
        assert forall|s: int| 0 <= s < 64 implies #[trigger] has_relevant(s, piece_type) by {
            assert(relevant_for(relevant_blockers@[s], s, piece_type));
        }
    }
    let mut square_index: usize = 0;
    while square_index < 64
        invariant
            square_index <= 64,
            relevant_blockers@.len() == 64,
            forall|s: int| 0 <= s < 64 ==> relevant_for(#[trigger] relevant_blockers@[s], s, piece_type),
            forall|s: int, b: BitBoard| 0 <= s < 64 && #[trigger] relevant_for(b, s, piece_type) ==> magic_works(
                s,
                b.0,
                magics@[s],
                piece_index_bits(piece_type),
                piece_offset(piece_type),
            ),
            magics@.len() == 64,
            index_bits == piece_index_bits(piece_type),
            direction_offset == piece_offset(piece_type),
            size == (1u64 << (index_bits as u64)),
            all_tables@.len() == start.len() + square_index,
            forall|i: int| 0 <= i < start.len() ==> #[trigger] all_tables@[i] == start[i],
            forall|s: int| 0 <= s < square_index ==> {
                let entry = #[trigger] all_tables@[start.len() + s];
                &&& entry.1 == s
                &&& entry.2 == piece_type
                &&& 1 <= entry.0 <= size
            },
            forall|s: int, b: BitBoard| 0 <= s < square_index && #[trigger] relevant_for(b, s, piece_type) ==> table_length(
                b.0,
                magics@[s],
                index_bits,
                all_tables@[start.len() + s].0 as int,
            ),
        decreases 64 - square_index,
    {
        let square = Square::from_index(square_index as i8);
        let blockers = relevant_blockers[square_index];
        let magic = magics[square_index];
        let mut table = empty_table(size);
        proof {
            assert(relevant_for(blockers, square_index as int, piece_type));
        }
        match fill_magic_table(&mut table, square, blockers, magic, index_bits, direction_offset) {
            Ok(highest_used_index) => {
                let ghost before = all_tables@;
                all_tables.push((highest_used_index + 1, square_index, piece_type));
                proof {
                    assert forall|s: int, b: BitBoard| 0 <= s <= square_index && #[trigger] relevant_for(b, s, piece_type)
                        implies table_length(b.0, magics@[s], index_bits, all_tables@[start.len() + s].0 as int) by {
                        if s < square_index {
                            assert(all_tables@[start.len() + s] == before[start.len() + s]);
                        } else {
                            lemma_relevant_unique(b, blockers, s, piece_type);
                        }
                    }
                }
            },
            Err(_) => {
                proof {
                    assert(false);
                }
            },
        }
        square_index = square_index + 1;
    }
}

/// Which slots of the combined lookup table are taken, one bit per slot.
#[verifier::external_body]
pub struct Occupancy {
    bits: BitVec,
}

/// The slots of an occupancy, `true` where taken.
pub uninterp spec fn occupancy_bits(occupied: Occupancy) -> Seq<bool>;

/// `BitVec::repeat`: `len` free slots. The bits live in machine words, so there are at most
/// `usize::MAX / 8` of them.
#[verifier::external_body]
pub fn new_occupancy(len: usize) -> (r: Occupancy)
    requires
        len <= usize::MAX / 8,
    ensures
        occupancy_bits(r) == Seq::new(len as nat, |i: int| false),
{
    Occupancy { bits: BitVec::repeat(false, len) }
}

/// `BitVec::len`: the number of slots.
#[verifier::external_body]
fn occupancy_len(occupied: &Occupancy) -> (r: usize)
    ensures
        r == occupancy_bits(*occupied).len(),
{
    occupied.bits.len()
}

/// `BitSlice::fill` on all slots: each slot becomes `value`.
#[verifier::external_body]
fn fill_occupancy(occupied: &mut Occupancy, value: bool)
    ensures
        occupancy_bits(*final(occupied)) == Seq::new(occupancy_bits(*old(occupied)).len(), |i: int| value),
{
    occupied.bits.fill(value);
}

/// `BitVec::resize`: keeps the first `new_len` slots, adding slots of `value` at the end if it
/// grows.
#[verifier::external_body]
fn resize_occupancy(occupied: &mut Occupancy, new_len: usize, value: bool)
    requires
        new_len <= usize::MAX / 8,
    ensures
        occupancy_bits(*final(occupied)) == Seq::new(
            new_len as nat,
            |i: int| if i < occupancy_bits(*old(occupied)).len() { occupancy_bits(*old(occupied))[i] } else { value },
        ),
{
    occupied.bits.resize(new_len, value);
}

/// `BitSlice::fill` on the slots from `start` to `end`: they become taken.
#[verifier::external_body]
fn mark_taken(occupied: &mut Occupancy, start: usize, end: usize)
    requires
        start <= end <= occupancy_bits(*old(occupied)).len(),
    ensures
        occupancy_bits(*final(occupied)) == Seq::new(
            occupancy_bits(*old(occupied)).len(),
            |i: int| if start <= i < end { true } else { occupancy_bits(*old(occupied))[i] },
        ),
{
    occupied.bits[start..end].fill(true);
}

/// `BitSlice::not_any` on the slots from `start` to `end`: whether none is taken.
#[verifier::external_body]
fn range_is_free(occupied: &Occupancy, start: usize, end: usize) -> (r: bool)
    requires
        start <= end <= occupancy_bits(*occupied).len(),
    ensures
        r == range_free(occupancy_bits(*occupied), start as int, end as int),
{
    occupied.bits[start..end].not_any()
}

/// No slot from `start` to `end` is taken.
pub open spec fn range_free(bits: Seq<bool>, start: int, end: int) -> bool {
    forall|k: int| start <= k < end ==> !#[trigger] bits[k]
}

/// The `size` slots from `start` on are free.
pub open spec fn free_run(bits: Seq<bool>, start: int, size: int) -> bool {
    range_free(bits, start, start + size)
}

/// The first position of `size` free slots in a row, if any.
pub fn find_closest_zero_range(occupied: &Occupancy, size: usize) -> (r: Option<usize>)
    requires
        size > 0,
    ensures
        r matches Some(i) ==> i + size <= occupancy_bits(*occupied).len() && range_free(
            occupancy_bits(*occupied),
            i as int,
            i + size,
        ),
        r matches Some(i) ==> forall|j: int| 0 <= j < i ==> !#[trigger] free_run(occupancy_bits(*occupied), j, size as int),
        r is None ==> forall|j: int| 0 <= j && j + size <= occupancy_bits(*occupied).len() ==> !#[trigger] free_run(
            occupancy_bits(*occupied),
            j,
            size as int,
        ),
{
    let len = occupancy_len(occupied);
    if size > len {
        return None;
    }
    let mut i: usize = 0;
    while i <= len - size
        invariant
            len == occupancy_bits(*occupied).len(),
            size <= len,
            i <= len - size + 1,
            forall|j: int| 0 <= j < i ==> !#[trigger] free_run(occupancy_bits(*occupied), j, size as int),
        decreases len - i,
    {
        if range_is_free(occupied, i, i + size) {
            return Some(i);
        }
        if i == len - size {
            proof {
                assert forall|j: int| 0 <= j && j + size <= len implies !#[trigger] free_run(occupancy_bits(*occupied), j, size as int) by {
                    assert(j <= i);
                }
            }
            return None;
        }
        i = i + 1;
    }
    None
}

/// The slots in use once the tables have been placed at `ps` (table `k` of `tables` at `ps[k]`):
/// the first 300 000, and up to the end of each table placed.
pub open spec fn used_length(tables: Seq<(usize, usize, RookOrBishop)>, ps: Seq<usize>) -> int
    decreases ps.len(),
{
    if ps.len() == 0 {
        300_000
    } else {
        let n = ps.len() - 1;
        let before = used_length(tables, ps.drop_last());
        if before >= ps[n] + tables[n].0 {
            before
        } else {
            ps[n] + tables[n].0
        }
    }
}

/// The end of the last slot of the tables placed at `ps`, 0 when none is.
pub open spec fn placed_end(tables: Seq<(usize, usize, RookOrBishop)>, ps: Seq<usize>) -> int
    decreases ps.len(),
{
    if ps.len() == 0 {
        0
    } else {
        let n = ps.len() - 1;
        let before = placed_end(tables, ps.drop_last());
        if before >= ps[n] + tables[n].0 {
            before
        } else {
            ps[n] + tables[n].0
        }
    }
}

/// Slot `t` belongs to one of the tables placed at `ps`.
pub open spec fn slot_taken(tables: Seq<(usize, usize, RookOrBishop)>, ps: Seq<usize>, t: int) -> bool {
    exists|k: int| 0 <= k < ps.len() && #[trigger] ps[k] <= t < ps[k] + tables[k].0
}

/// A table of `size` slots can go at `s` once the tables have been placed at `ps`: its slots are
/// all free, and it ends within the slots in use or starts right after them.
pub open spec fn fits_at(tables: Seq<(usize, usize, RookOrBishop)>, ps: Seq<usize>, s: int, size: int) -> bool {
    &&& 0 <= s
    &&& s + size <= used_length(tables, ps) || s == used_length(tables, ps)
    &&& forall|t: int| s <= t < s + size ==> !#[trigger] slot_taken(tables, ps, t)
}

/// The slots in use reach past every table placed and past the end of the last slot.
pub proof fn lemma_used_length_bounds(tables: Seq<(usize, usize, RookOrBishop)>, ps: Seq<usize>)
    ensures
        used_length(tables, ps) >= 300_000,
        placed_end(tables, ps) <= used_length(tables, ps),
        forall|k: int| 0 <= k < ps.len() ==> #[trigger] ps[k] + tables[k].0 <= placed_end(tables, ps),
    decreases ps.len(),
{
    if ps.len() > 0 {
        let rest = ps.drop_last();
        lemma_used_length_bounds(tables, rest);
        assert forall|k: int| 0 <= k < ps.len() implies #[trigger] ps[k] + tables[k].0 <= placed_end(tables, ps) by {
            if k < rest.len() {
                assert(rest[k] == ps[k]);
            }
        }
    }
}

/// Placing one more table takes its slots as well.
pub proof fn lemma_slot_taken_push(tables: Seq<(usize, usize, RookOrBishop)>, ps: Seq<usize>, x: usize, t: int)
    ensures
        slot_taken(tables, ps.push(x), t) == (slot_taken(tables, ps, t) || x <= t < x + tables[ps.len() as int].0),
{
    let qs = ps.push(x);
    if slot_taken(tables, ps, t) {
        let k = choose|k: int| 0 <= k < ps.len() && #[trigger] ps[k] <= t < ps[k] + tables[k].0;
        assert(qs[k] == ps[k]);
    }
    if x <= t < x + tables[ps.len() as int].0 {
        assert(qs[ps.len() as int] == x);
    }
    if slot_taken(tables, qs, t) {
        let k = choose|k: int| 0 <= k < qs.len() && #[trigger] qs[k] <= t < qs[k] + tables[k].0;
        if k < ps.len() {
            assert(qs[k] == ps[k]);
        }
    }
}

/// Places the tables in order into the combined table after clearing it to `300_000` free slots:
/// each at the first free run long enough, else at the end, and records each offset for its
/// square and slider. Gives the rook offsets, the bishop offsets, the length used and where each
/// table was placed; no two tables overlap.
pub fn place_tables(all_tables: &Vec<(usize, usize, RookOrBishop)>, occupied: &mut Occupancy) -> (r: (
    Vec<u32>,
    Vec<u32>,
    usize,
    Vec<usize>,
))
    requires
        all_tables@.len() <= 128,
        forall|i: int| 0 <= i < all_tables@.len() ==> 1 <= (#[trigger] all_tables@[i]).0 <= 4096 && all_tables@[i].1 < 64,
    ensures
        r.0@.len() == 64,
        r.1@.len() == 64,
        r.3@.len() == all_tables@.len(),
        forall|i: int| 0 <= i < all_tables@.len() ==> #[trigger] r.3@[i] + all_tables@[i].0 <= r.2,
        forall|i: int, j: int| 0 <= i < j < all_tables@.len() ==> #[trigger] r.3@[i] + all_tables@[i].0 <= #[trigger] r.3@[j]
            || r.3@[j] + all_tables@[j].0 <= r.3@[i],
        forall|i: int| 0 <= i < all_tables@.len() ==> (if (#[trigger] all_tables@[i]).2 == RookOrBishop::Rook {
            r.0@[all_tables@[i].1 as int]
        } else {
            r.1@[all_tables@[i].1 as int]
        }) == r.3@[i] || exists|j: int| i < j < all_tables@.len() && all_tables@[j].1 == all_tables@[i].1 && all_tables@[j].2
            == all_tables@[i].2,
        r.2 == placed_end(all_tables@, r.3@),
        forall|i: int|
            0 <= i < all_tables@.len() ==> fits_at(all_tables@, r.3@.take(i), #[trigger] r.3@[i] as int, all_tables@[i].0 as int),
        forall|i: int, s: int|
            0 <= i < all_tables@.len() && 0 <= s < r.3@[i] ==> !#[trigger] fits_at(
                all_tables@,
                r.3@.take(i),
                s,
                all_tables@[i].0 as int,
            ),
{
    let mut rook_offsets: Vec<u32> = Vec::new();
    let mut bishop_offsets: Vec<u32> = Vec::new();
    let mut k: usize = 0;
    while k < 64
        invariant
            k <= 64,
            rook_offsets@.len() == k,
            bishop_offsets@.len() == k,
        decreases 64 - k,
    {
        rook_offsets.push(0);
        bishop_offsets.push(0);
        k = k + 1;
    }
    fill_occupancy(occupied, false);
    resize_occupancy(occupied, 300_000, false);
    let mut placements: Vec<usize> = Vec::new();
    let mut max_offset: usize = 0;
    let mut i: usize = 0;
    while i < all_tables.len()
        invariant
            i <= all_tables@.len(),
            all_tables@.len() <= 128,
            forall|j: int| 0 <= j < all_tables@.len() ==> 1 <= (#[trigger] all_tables@[j]).0 <= 4096 && all_tables@[j].1 < 64,
            rook_offsets@.len() == 64,
            bishop_offsets@.len() == 64,
            placements@.len() == i,
            occupancy_bits(*occupied).len() <= 300_000 + 4096 * i,
            max_offset <= occupancy_bits(*occupied).len(),
            forall|j: int| 0 <= j < i ==> #[trigger] placements@[j] + all_tables@[j].0 <= max_offset,
            forall|j: int, t: int| 0 <= j < i && #[trigger] placements@[j] <= t < placements@[j] + all_tables@[j].0
                ==> #[trigger] occupancy_bits(*occupied)[t],
            forall|a: int, b: int| 0 <= a < b < i ==> #[trigger] placements@[a] + all_tables@[a].0 <= #[trigger] placements@[b]
                || placements@[b] + all_tables@[b].0 <= placements@[a],
            forall|j: int| 0 <= j < i ==> (if (#[trigger] all_tables@[j]).2 == RookOrBishop::Rook {
                rook_offsets@[all_tables@[j].1 as int]
            } else {
                bishop_offsets@[all_tables@[j].1 as int]
            }) == placements@[j] || exists|l: int| j < l < i && all_tables@[l].1 == all_tables@[j].1 && all_tables@[l].2
                == all_tables@[j].2,
            occupancy_bits(*occupied).len() == used_length(all_tables@, placements@),
            forall|t: int| 0 <= t < occupancy_bits(*occupied).len() ==> #[trigger] occupancy_bits(*occupied)[t]
                == slot_taken(all_tables@, placements@, t),
            max_offset == placed_end(all_tables@, placements@),
            forall|j: int|
                0 <= j < i ==> fits_at(all_tables@, placements@.take(j), #[trigger] placements@[j] as int, all_tables@[j].0 as int),
            forall|j: int, s: int|
                0 <= j < i && 0 <= s < placements@[j] ==> !#[trigger] fits_at(
                    all_tables@,
                    placements@.take(j),
                    s,
                    all_tables@[j].0 as int,
                ),
        decreases all_tables@.len() - i,
    {
        let (required_size, square_index, piece_type) = all_tables[i];
        let ghost before_bits = occupancy_bits(*occupied);
        let ghost before_rook = rook_offsets@;
        let ghost before_bishop = bishop_offsets@;
        let ghost ps = placements@;
        let ghost size = required_size as int;
        proof {
            lemma_used_length_bounds(all_tables@, ps);
        }
        let index = match find_closest_zero_range(occupied, required_size) {
            Some(index) => {
                proof {
                    assert forall|t: int| index <= t < index + size implies !#[trigger] slot_taken(all_tables@, ps, t) by {
                        assert(!before_bits[t]);
                    }
                    assert(fits_at(all_tables@, ps, index as int, size));
                    assert forall|s: int| 0 <= s < index implies !#[trigger] fits_at(all_tables@, ps, s, size) by {
                        if fits_at(all_tables@, ps, s, size) {
                            assert(free_run(before_bits, s, size));
                        }
                    }
                }
                mark_taken(occupied, index, index + required_size);
                if index + required_size > max_offset {
                    max_offset = index + required_size;
                }
                index
            },
            None => {
                let start = occupancy_len(occupied);
                proof {
                    assert forall|t: int| start <= t < start + size implies !#[trigger] slot_taken(all_tables@, ps, t) by {
                        if slot_taken(all_tables@, ps, t) {
                            let k = choose|k: int| 0 <= k < ps.len() && #[trigger] ps[k] <= t < ps[k] + all_tables@[k].0;
                            assert(ps[k] + all_tables@[k].0 <= placed_end(all_tables@, ps));
                        }
                    }
                    assert(fits_at(all_tables@, ps, start as int, size));
                    assert forall|s: int| 0 <= s < start implies !#[trigger] fits_at(all_tables@, ps, s, size) by {
                        if fits_at(all_tables@, ps, s, size) {
                            assert(free_run(before_bits, s, size));
                        }
                    }
                }
                resize_occupancy(occupied, start + required_size, false);
                mark_taken(occupied, start, start + required_size);
                max_offset = start + required_size;
                start
            },
        };
        match piece_type {
            RookOrBishop::Rook => rook_offsets.set(square_index, index as u32),
            RookOrBishop::Bishop => bishop_offsets.set(square_index, index as u32),
        }
        placements.push(index);
        proof {
            assert(placements@.drop_last() =~= ps);
            assert(placements@[i as int] == index);
            assert(occupancy_bits(*occupied).len() == used_length(all_tables@, placements@));
            assert forall|t: int| 0 <= t < occupancy_bits(*occupied).len() implies #[trigger] occupancy_bits(*occupied)[t]
                == slot_taken(all_tables@, placements@, t) by {
                lemma_slot_taken_push(all_tables@, ps, index, t);
            }
            assert(placements@.take(i as int) =~= ps);
            assert forall|j: int| 0 <= j <= i implies fits_at(all_tables@, placements@.take(j), #[trigger] placements@[j] as int,
                all_tables@[j].0 as int) by {
                if j < i {
                    assert(placements@.take(j) =~= ps.take(j));
                    assert(placements@[j] == ps[j]);
                }
            }
            assert forall|j: int, s: int| 0 <= j <= i && 0 <= s < placements@[j] implies !#[trigger] fits_at(
                all_tables@,
                placements@.take(j),
                s,
                all_tables@[j].0 as int,
            ) by {
                if j < i {
                    assert(placements@.take(j) =~= ps.take(j));
                    assert(placements@[j] == ps[j]);
                }
            }
            assert forall|j: int| 0 <= j < i implies #[trigger] placements@[j] + all_tables@[j].0 <= index
                || index + required_size <= placements@[j] by {
                let x = placements@[j] as int;
                if !(x + all_tables@[j].0 <= index || index + required_size <= x) {
                    let t = if x >= index { x } else { index as int };
                    assert(before_bits[t]);
                    assert(t < before_bits.len());
                }
            }
            assert forall|j: int| 0 <= j <= i implies (if (#[trigger] all_tables@[j]).2 == RookOrBishop::Rook {
                rook_offsets@[all_tables@[j].1 as int]
            } else {
                bishop_offsets@[all_tables@[j].1 as int]
            }) == placements@[j] || exists|l: int| j < l < i + 1 && all_tables@[l].1 == all_tables@[j].1 && all_tables@[l].2
                == all_tables@[j].2 by {
                if j < i {
                    if all_tables@[j].1 == all_tables@[i as int].1 && all_tables@[j].2 == all_tables@[i as int].2 {
                        assert(j < i < i + 1);
                    }
                }
            }
        }
        i = i + 1;
    }
    (rook_offsets, bishop_offsets, max_offset, placements)
}

/// Sorts the tables by length, longest first, keeping the order of tables of equal length.
pub fn sort_tables_by_length(all_tables: &mut Vec<(usize, usize, RookOrBishop)>)
    ensures
        final(all_tables)@.len() == old(all_tables)@.len(),
        final(all_tables)@.to_multiset() == old(all_tables)@.to_multiset(),
        forall|i: int, j: int| 0 <= i < j < final(all_tables)@.len() ==> (#[trigger] final(all_tables)@[i]).0 >= (
        #[trigger] final(all_tables)@[j]).0,
{
    let mut sorted: Vec<(usize, usize, RookOrBishop)> = Vec::new();
    let mut i: usize = 0;
    proof {
        assert(all_tables@.take(0) =~= Seq::<(usize, usize, RookOrBishop)>::empty());
        assert(sorted@ =~= Seq::<(usize, usize, RookOrBishop)>::empty());
    }
    while i < all_tables.len()
        invariant
            i <= all_tables@.len(),
            sorted@.len() == i,
            sorted@.to_multiset() == all_tables@.take(i as int).to_multiset(),
            forall|a: int, b: int| 0 <= a < b < sorted@.len() ==> (#[trigger] sorted@[a]).0 >= (#[trigger] sorted@[b]).0,
        decreases all_tables@.len() - i,
    {
        let entry = all_tables[i];
        let mut p: usize = 0;
        while p < sorted.len() && sorted[p].0 >= entry.0
            invariant
                p <= sorted@.len(),
                forall|k: int| 0 <= k < p ==> (#[trigger] sorted@[k]).0 >= entry.0,
            decreases sorted@.len() - p,
        {
            p = p + 1;
        }
        let ghost before = sorted@;
        sorted.insert(p, entry);
        proof {
            assert(all_tables@.take(i + 1) =~= all_tables@.take(i as int).push(entry));
            vstd::seq_lib::to_multiset_insert(before, p as int, entry);
            vstd::seq_lib::to_multiset_build(all_tables@.take(i as int), entry);
            assert forall|a: int, b: int| 0 <= a < b < sorted@.len() implies (#[trigger] sorted@[a]).0 >= (
            #[trigger] sorted@[b]).0 by {
                if p < before.len() {
                    assert(before[p as int].0 < entry.0);
                }
                if a < p && b == p {
                } else if a == p && b > p {
                    assert(before[b - 1].0 <= before[p as int].0);
                } else if a < p && b > p {
                    assert(before[a].0 >= before[b - 1].0);
                } else if b < p {
                } else {
                    assert(before[a - 1].0 >= before[b - 1].0);
                }
            }
        }
        i = i + 1;
    }
    proof {
        assert(all_tables@.take(i as int) =~= all_tables@);
    }
    *all_tables = sorted;
}

/// Two bit boards holding the relevant blockers of the same square are the same.
proof fn lemma_relevant_unique(b1: BitBoard, b2: BitBoard, s: int, piece_type: RookOrBishop)
    requires
        relevant_for(b1, s, piece_type),
        relevant_for(b2, s, piece_type),
    ensures
        b1.0 == b2.0,
{
    assert forall|t: int| #[trigger] b1.has(t) == b2.has(t) by {
        assert(b1.has(t) == relevant_blocker(s, piece_offset(piece_type), t));
    }
    crate::move_generator::lemma_same_squares(b1, b2);
}

/// What one round of the search for magics found.
pub struct TableLayout {
    /// The bishop magic of each square.
    pub bishop_magics: Vec<u64>,
    /// The rook magic of each square.
    pub rook_magics: Vec<u64>,
    /// Where each square's bishop table starts in the combined table.
    pub bishop_offsets: Vec<u32>,
    /// Where each square's rook table starts in the combined table.
    pub rook_offsets: Vec<u32>,
    /// The length of the combined table.
    pub length: usize,
}

/// Every magic works for its square's relevant blockers.
pub open spec fn magics_work(magics: Seq<u64>, piece_type: RookOrBishop) -> bool {
    &&& magics.len() == 64
    &&& forall|s: int, b: BitBoard| 0 <= s < 64 && #[trigger] relevant_for(b, s, piece_type) ==> magic_works(
        s,
        b.0,
        magics[s],
        piece_index_bits(piece_type),
        piece_offset(piece_type),
    )
}

/// The magics of one slider, if every square got one that works.
fn magics_for(random: &mut ChaCha20Rng, piece_type: RookOrBishop) -> (r: Option<Vec<u64>>)
    ensures
        r matches Some(magics) ==> magics_work(magics@, piece_type),
{
    let relevant_blockers = relevant_blockers_of(piece_type);
    let (direction_offset, index_bits): (usize, u8) = match piece_type {
        RookOrBishop::Rook => (0, ROOK_INDEX_BITS),
        RookOrBishop::Bishop => (4, BISHOP_INDEX_BITS),
    };
    let magics = find_magics(random, &relevant_blockers, direction_offset, index_bits);
    checked_magics(magics, &relevant_blockers, piece_type)
}

/// The magics found, if every square got one: a square keeps 0 when none worked.
pub fn checked_magics(magics: Vec<u64>, relevant_blockers: &Vec<BitBoard>, piece_type: RookOrBishop) -> (r: Option<Vec<u64>>)
    requires
        magics@.len() == 64,
        relevant_blockers@.len() == 64,
        forall|s: int, t: int| 0 <= s < 64 ==> #[trigger] relevant_blockers@[s].has(t) == relevant_blocker(
            s,
            piece_offset(piece_type),
            t,
        ),
        forall|s: int| 0 <= s < 64 ==> #[trigger] magics@[s] == 0 || magic_works(
            s,
            relevant_blockers@[s].0,
            magics@[s],
            piece_index_bits(piece_type),
            piece_offset(piece_type),
        ),
    ensures
        r is Some <==> forall|s: int| 0 <= s < 64 ==> #[trigger] magics@[s] != 0,
        r matches Some(found) ==> found@ == magics@ && magics_work(found@, piece_type),
{
    let mut s: usize = 0;
    while s < 64
        invariant
            s <= 64,
            magics@.len() == 64,
            forall|j: int| 0 <= j < s ==> #[trigger] magics@[j] != 0,
        decreases 64 - s,
    {
        if magics[s] == 0 {
            return None;
        }
        s = s + 1;
    }
    proof {
        assert forall|q: int, b: BitBoard| 0 <= q < 64 && #[trigger] relevant_for(b, q, piece_type) implies magic_works(
            q,
            b.0,
            magics@[q],
            piece_index_bits(piece_type),
            piece_offset(piece_type),
        ) by {
            assert(magics@[q] != 0);
            assert(relevant_for(relevant_blockers@[q], q, piece_type));
            lemma_relevant_unique(b, relevant_blockers@[q], q, piece_type);
        }
    }
    Some(magics)
}

/// The magic of slider `p` on square `s` in the layout.
pub open spec fn layout_magic(layout: TableLayout, s: int, p: RookOrBishop) -> u64 {
    match p {
        RookOrBishop::Rook => layout.rook_magics@[s],
        RookOrBishop::Bishop => layout.bishop_magics@[s],
    }
}

/// Where the table of slider `p` on square `s` starts in the layout.
pub open spec fn layout_offset(layout: TableLayout, s: int, p: RookOrBishop) -> int {
    match p {
        RookOrBishop::Rook => layout.rook_offsets@[s] as int,
        RookOrBishop::Bishop => layout.bishop_offsets@[s] as int,
    }
}

/// The table of slider `p` on square `s` takes `len` slots with the layout's magic.
pub open spec fn layout_table(layout: TableLayout, s: int, p: RookOrBishop, len: int) -> bool {
    exists|b: BitBoard| #[trigger] relevant_for(b, s, p) && table_length(b.0, layout_magic(layout, s, p), piece_index_bits(p), len)
}

/// The table of slider `p` on square `s` has a length.
pub open spec fn has_table(layout: TableLayout, s: int, p: RookOrBishop) -> bool {
    exists|len: int| #[trigger] layout_table(layout, s, p, len)
}

/// Every square's table of each slider lies within the combined table, and no two overlap.
pub open spec fn tables_apart(layout: TableLayout) -> bool {
    &&& forall|s: int, p: RookOrBishop| 0 <= s < 64 ==> #[trigger] has_table(layout, s, p)
    &&& forall|s: int, p: RookOrBishop, len: int|
        0 <= s < 64 && #[trigger] layout_table(layout, s, p, len) ==> 0 <= layout_offset(layout, s, p)
            && layout_offset(layout, s, p) + len <= layout.length
    &&& forall|s1: int, p1: RookOrBishop, l1: int, s2: int, p2: RookOrBishop, l2: int|
        0 <= s1 < 64 && 0 <= s2 < 64 && (s1 != s2 || p1 != p2) && #[trigger] layout_table(layout, s1, p1, l1)
            && #[trigger] layout_table(layout, s2, p2, l2) ==> layout_offset(layout, s1, p1) + l1 <= layout_offset(
            layout,
            s2,
            p2,
        ) || layout_offset(layout, s2, p2) + l2 <= layout_offset(layout, s1, p1)
}

/// A table has one length: one past its highest slot.
pub proof fn lemma_table_length_unique(blockers: u64, magic: u64, index_bits: u8, l1: int, l2: int)
    requires
        table_length(blockers, magic, index_bits, l1),
        table_length(blockers, magic, index_bits, l2),
    ensures
        l1 == l2,
{
    let m1 = choose|m: u64| #[trigger] is_subset(m, blockers) && magic_slot(m, magic, index_bits) + 1 == l1;
    let m2 = choose|m: u64| #[trigger] is_subset(m, blockers) && magic_slot(m, magic, index_bits) + 1 == l2;
    assert(magic_slot(m1, magic, index_bits) < l2);
    assert(magic_slot(m2, magic, index_bits) < l1);
}

/// Where the table of slider `p` on square `s` stands in the tables as `process_tables` lists
/// them: the rook tables first, then the bishop tables.
pub open spec fn listed_index(s: int, p: RookOrBishop) -> int {
    match p {
        RookOrBishop::Rook => s,
        RookOrBishop::Bishop => 64 + s,
    }
}

/// The tables listed once per square and slider, sorted, and placed apart give a layout whose
/// tables are apart.
proof fn lemma_tables_apart(
    unsorted: Seq<(usize, usize, RookOrBishop)>,
    sorted: Seq<(usize, usize, RookOrBishop)>,
    layout: TableLayout,
    placements: Seq<usize>,
)
    requires
        unsorted.len() == 128,
        forall|k: int| 0 <= k < 128 ==> #[trigger] listed_index((unsorted[k]).1 as int, unsorted[k].2) == k
            && unsorted[k].1 < 64,
        forall|s: int, p: RookOrBishop, b: BitBoard| 0 <= s < 64 && #[trigger] relevant_for(b, s, p) ==> table_length(
            b.0,
            layout_magic(layout, s, p),
            piece_index_bits(p),
            unsorted[listed_index(s, p)].0 as int,
        ),
        forall|s: int, p: RookOrBishop| 0 <= s < 64 ==> #[trigger] has_relevant(s, p),
        sorted.to_multiset() == unsorted.to_multiset(),
        placements.len() == sorted.len(),
        forall|i: int| 0 <= i < sorted.len() ==> #[trigger] placements[i] + sorted[i].0 <= layout.length,
        forall|i: int, j: int| 0 <= i < j < sorted.len() ==> #[trigger] placements[i] + sorted[i].0 <= #[trigger] placements[j]
            || placements[j] + sorted[j].0 <= placements[i],
        forall|i: int| 0 <= i < sorted.len() ==> layout_offset(layout, (#[trigger] sorted[i]).1 as int, sorted[i].2)
            == placements[i] || exists|j: int| i < j < sorted.len() && sorted[j].1 == sorted[i].1 && sorted[j].2 == sorted[i].2,
    ensures
        tables_apart(layout),
{
    assert(unsorted.no_duplicates()) by {
        assert forall|i: int, j: int| 0 <= i < unsorted.len() && 0 <= j < unsorted.len() && i != j implies unsorted[i]
            != unsorted[j] by {
            assert(listed_index(unsorted[i].1 as int, unsorted[i].2) == i);
            assert(listed_index(unsorted[j].1 as int, unsorted[j].2) == j);
        }
    }
    unsorted.lemma_multiset_has_no_duplicates();
    sorted.lemma_multiset_has_no_duplicates_conv();
    vstd::seq_lib::to_multiset_len(sorted);
    vstd::seq_lib::to_multiset_len(unsorted);
    // Each sorted entry is the listed entry of its square and slider.
    assert forall|i: int| 0 <= i < sorted.len() implies #[trigger] sorted[i] == unsorted[listed_index(
        sorted[i].1 as int,
        sorted[i].2,
    )] && sorted[i].1 < 64 by {
        vstd::seq_lib::to_multiset_contains(sorted, sorted[i]);
        assert(sorted.contains(sorted[i]));
        vstd::seq_lib::to_multiset_contains(unsorted, sorted[i]);
        let k = choose|k: int| 0 <= k < unsorted.len() && unsorted[k] == sorted[i];
        assert(listed_index(unsorted[k].1 as int, unsorted[k].2) == k);
    }
    // Each square and slider has its entry somewhere in the sorted tables.
    assert forall|s: int, p: RookOrBishop| 0 <= s < 64 implies #[trigger] sorted.contains(unsorted[listed_index(s, p)]) by {
        let k = listed_index(s, p);
        vstd::seq_lib::to_multiset_contains(unsorted, unsorted[k]);
        assert(unsorted.contains(unsorted[k]));
        vstd::seq_lib::to_multiset_contains(sorted, unsorted[k]);
    }
    // No two sorted entries are of the same square and slider.
    assert forall|i: int, j: int| 0 <= i < sorted.len() && 0 <= j < sorted.len() && (#[trigger] sorted[i]).1 == (
    #[trigger] sorted[j]).1 && sorted[i].2 == sorted[j].2 implies i == j by {}
    // The offset of each square and slider is where its entry was placed.
    assert forall|i: int| 0 <= i < sorted.len() implies layout_offset(layout, (#[trigger] sorted[i]).1 as int, sorted[i].2)
        == placements[i] by {
        if exists|j: int| i < j < sorted.len() && sorted[j].1 == sorted[i].1 && sorted[j].2 == sorted[i].2 {
            let j = choose|j: int| i < j < sorted.len() && sorted[j].1 == sorted[i].1 && sorted[j].2 == sorted[i].2;
            assert(sorted[j].1 == sorted[i].1 && sorted[j].2 == sorted[i].2);
        }
    }
    assert forall|s: int, p: RookOrBishop, len: int| 0 <= s < 64 && #[trigger] layout_table(layout, s, p, len) implies {
        let i = choose|i: int| 0 <= i < sorted.len() && #[trigger] sorted[i] == unsorted[listed_index(s, p)];
        &&& 0 <= i < sorted.len()
        &&& sorted[i] == unsorted[listed_index(s, p)]
        &&& len == sorted[i].0
        &&& layout_offset(layout, s, p) == placements[i]
    } by {
        assert(sorted.contains(unsorted[listed_index(s, p)]));
        let i = choose|i: int| 0 <= i < sorted.len() && #[trigger] sorted[i] == unsorted[listed_index(s, p)];
        let b = choose|b: BitBoard| #[trigger] relevant_for(b, s, p) && table_length(
            b.0,
            layout_magic(layout, s, p),
            piece_index_bits(p),
            len,
        );
        lemma_table_length_unique(b.0, layout_magic(layout, s, p), piece_index_bits(p), len, unsorted[listed_index(s, p)].0 as int);
        let k = listed_index(s, p);
        assert(listed_index(unsorted[k].1 as int, unsorted[k].2) == k);
        assert(unsorted[k].1 == s && unsorted[k].2 == p) by {
            if p == RookOrBishop::Rook {
                if unsorted[k].2 == RookOrBishop::Bishop {
                    assert(false);
                }
            } else {
                if unsorted[k].2 == RookOrBishop::Rook {
                    assert(false);
                }
            }
        }
        assert(layout_offset(layout, sorted[i].1 as int, sorted[i].2) == placements[i]);
    }
    assert forall|s: int, p: RookOrBishop| 0 <= s < 64 implies #[trigger] has_table(layout, s, p) by {
        let b = choose|b: BitBoard| #[trigger] relevant_for(b, s, p);
        assert(has_relevant(s, p));
        assert(layout_table(layout, s, p, unsorted[listed_index(s, p)].0 as int));
    }
}

/// One round of the search for magics: bishop then rook magics; None if a square got no magic
/// that works, else the layout of their tables that [`layout_from_magics`] gives.
pub fn find_table_layout(random: &mut ChaCha20Rng, occupied: &mut Occupancy) -> (r: Option<TableLayout>)
    ensures
        r matches Some(layout) ==> magics_work(layout.bishop_magics@, RookOrBishop::Bishop) && magics_work(
            layout.rook_magics@,
            RookOrBishop::Rook,
        ) && layout.bishop_offsets@.len() == 64 && layout.rook_offsets@.len() == 64,
        r matches Some(layout) ==> tables_apart(layout),
{
    let bishop_magics = match magics_for(random, RookOrBishop::Bishop) {
        Some(magics) => magics,
        None => {
            return None;
        },
    };
    let rook_magics = match magics_for(random, RookOrBishop::Rook) {
        Some(magics) => magics,
        None => {
            return None;
        },
    };
    Some(layout_from_magics(bishop_magics, rook_magics, occupied))
}

/// The layout of the tables of working magics: each square's table length with its magic, the
/// tables longest first placed into `occupied`, each at the first place it fits.
pub fn layout_from_magics(bishop_magics: Vec<u64>, rook_magics: Vec<u64>, occupied: &mut Occupancy) -> (r: TableLayout)
    requires
        magics_work(bishop_magics@, RookOrBishop::Bishop),
        magics_work(rook_magics@, RookOrBishop::Rook),
    ensures
        r.bishop_magics@ == bishop_magics@,
        r.rook_magics@ == rook_magics@,
        r.bishop_offsets@.len() == 64,
        r.rook_offsets@.len() == 64,
        tables_apart(r),
{
    let mut all_tables: Vec<(usize, usize, RookOrBishop)> = Vec::new();
    process_tables(&mut all_tables, RookOrBishop::Rook, &rook_magics);
    process_tables(&mut all_tables, RookOrBishop::Bishop, &bishop_magics);
    let ghost unsorted = all_tables@;
    proof {
        assert(1u64 << (ROOK_INDEX_BITS as u64) == 4096) by (bit_vector);
        assert(1u64 << (BISHOP_INDEX_BITS as u64) == 512) by (bit_vector);
        assert forall|i: int| 0 <= i < unsorted.len() implies 1 <= (#[trigger] unsorted[i]).0 <= 4096 && unsorted[i].1 < 64 by {
            if i < 64 {
                assert(unsorted[0 + i].1 == i);
            } else {
                assert(unsorted[64 + (i - 64)].1 == i - 64);
            }
        }
    }
    sort_tables_by_length(&mut all_tables);
    proof {
        assert forall|i: int| 0 <= i < all_tables@.len() implies 1 <= (#[trigger] all_tables@[i]).0 <= 4096 && all_tables@[i].1
            < 64 by {
            let e = all_tables@[i];
            assert(all_tables@.to_multiset().count(e) > 0) by {
                vstd::seq_lib::to_multiset_contains(all_tables@, e);
                assert(all_tables@.contains(e));
            }
            vstd::seq_lib::to_multiset_contains(unsorted, e);
            let j = choose|j: int| 0 <= j < unsorted.len() && unsorted[j] == e;
            assert(unsorted[j] == e);
        }
    }
    let (rook_offsets, bishop_offsets, length, placements) = place_tables(&all_tables, occupied);
    let layout = TableLayout { bishop_magics, rook_magics, bishop_offsets, rook_offsets, length };
    proof {
        assert forall|k: int| 0 <= k < 128 implies #[trigger] listed_index((unsorted[k]).1 as int, unsorted[k].2) == k
            && unsorted[k].1 < 64 by {
            if k < 64 {
                assert(unsorted[0 + k].1 == k);
            } else {
                assert(unsorted[64 + (k - 64)].1 == k - 64);
            }
        }
        assert forall|s: int, p: RookOrBishop, b: BitBoard| 0 <= s < 64 && #[trigger] relevant_for(b, s, p) implies table_length(
            b.0,
            layout_magic(layout, s, p),
            piece_index_bits(p),
            unsorted[listed_index(s, p)].0 as int,
        ) by {
            if p == RookOrBishop::Rook {
                assert(unsorted[0 + s] == unsorted[listed_index(s, p)]);
            } else {
                assert(unsorted[64 + s] == unsorted[listed_index(s, p)]);
            }
        }
        assert forall|s: int, p: RookOrBishop| 0 <= s < 64 implies #[trigger] has_relevant(s, p) by {
            if p == RookOrBishop::Rook {
                assert(has_relevant(s, RookOrBishop::Rook));
            } else {
                assert(has_relevant(s, RookOrBishop::Bishop));
            }
        }
        lemma_tables_apart(unsorted, all_tables@, layout, placements@);
    }
    layout
}

/// The hexadecimal digit of a value below 16, in upper case.
pub open spec fn hex_digit(d: int) -> char {
    if d < 10 {
        ((48 + d) as u32) as char
    } else {
        ((55 + d) as u32) as char
    }
}

/// The four hexadecimal digits of the 16 bits of `magic` from bit `16 * group` on.
pub open spec fn hex_group(magic: u64, group: int) -> Seq<char> {
    seq![
        hex_digit(((magic >> ((16 * group + 12) as u64)) & 15) as int),
        hex_digit(((magic >> ((16 * group + 8) as u64)) & 15) as int),
        hex_digit(((magic >> ((16 * group + 4) as u64)) & 15) as int),
        hex_digit(((magic >> ((16 * group) as u64)) & 15) as int),
    ]
}

/// A magic in hexadecimal: `0x`, then sixteen digits in groups of four joined by `_`.
pub open spec fn magic_hex(magic: u64) -> Seq<char> {
    seq!['0', 'x'] + hex_group(magic, 3) + seq!['_'] + hex_group(magic, 2) + seq!['_'] + hex_group(magic, 1) + seq!['_']
        + hex_group(magic, 0)
}

/// The line of a key: `Key {magic: 0x..., offset: N},` and a new line.
pub open spec fn key_line(magic: u64, offset: u32) -> Seq<char> {
    "Key {magic: "@ + magic_hex(magic) + ", offset: "@ + decimal(offset as nat) + "},\n"@
}

/// The key lines of the squares from `i` on.
pub open spec fn key_lines_from(magics: Seq<u64>, offsets: Seq<u32>, i: int) -> Seq<char>
    decreases magics.len() - i,
{
    if i >= magics.len() || i >= offsets.len() || i < 0 {
        Seq::empty()
    } else {
        key_line(magics[i], offsets[i]) + key_lines_from(magics, offsets, i + 1)
    }
}

/// The hexadecimal digit character of a value below 16.
fn hex_digit_char(d: u64) -> (c: char)
    requires
        d < 16,
    ensures
        c == hex_digit(d as int),
{
    if d < 10 {
        ((48 + d) as u8) as char
    } else {
        ((55 + d) as u8) as char
    }
}

/// Appends the four digits of a group of `magic`.
fn push_hex_group(text: &mut String, magic: u64, group: u64)
    requires
        group < 4,
    ensures
        final(text)@ == old(text)@ + hex_group(magic, group as int),
{
    let base = 16 * group;
    proof {
        assert(forall|x: u64| #[trigger] (x & 15) < 16) by (bit_vector);
    }
    string_push(text, hex_digit_char((magic >> (base + 12)) & 15));
    string_push(text, hex_digit_char((magic >> (base + 8)) & 15));
    string_push(text, hex_digit_char((magic >> (base + 4)) & 15));
    string_push(text, hex_digit_char((magic >> base) & 15));
    proof {
        assert(text@ =~= old(text)@ + hex_group(magic, group as int));
    }
}

/// The key lines of the squares: each magic in hexadecimal with its offset.
pub fn key_lines(magics: &Vec<u64>, offsets: &Vec<u32>) -> (r: String)
    ensures
        r@ == key_lines_from(magics@, offsets@, 0),
{
    let mut text = String::new();
    let mut i: usize = 0;
    let n = if magics.len() < offsets.len() { magics.len() } else { offsets.len() };
    while i < n
        invariant
            i <= n,
            n <= magics@.len(),
            n <= offsets@.len(),
            n == magics@.len() || n == offsets@.len(),
            text@ + key_lines_from(magics@, offsets@, i as int) == key_lines_from(magics@, offsets@, 0),
        decreases n - i,
    {
        let ghost before = text@;
        push_str(&mut text, "Key {magic: ");
        string_push(&mut text, '0');
        string_push(&mut text, 'x');
        push_hex_group(&mut text, magics[i], 3);
        string_push(&mut text, '_');
        push_hex_group(&mut text, magics[i], 2);
        string_push(&mut text, '_');
        push_hex_group(&mut text, magics[i], 1);
        string_push(&mut text, '_');
        push_hex_group(&mut text, magics[i], 0);
        push_str(&mut text, ", offset: ");
        push_decimal(&mut text, offsets[i] as u64);
        push_str(&mut text, "},\n");
        proof {
            assert(text@ =~= before + key_line(magics@[i as int], offsets@[i as int]));
            assert(before + key_lines_from(magics@, offsets@, i as int) =~= text@ + key_lines_from(magics@, offsets@, i + 1));
        }
        i = i + 1;
    }
    proof {
        assert(key_lines_from(magics@, offsets@, i as int) == Seq::<char>::empty());
        assert(text@ + Seq::<char>::empty() =~= text@);
    }
    text
}

} // verus!
