use encrustant::board::bit_board::BitBoard;
use encrustant::board::square::Square;
use encrustant::magic::{
    checked_magics, fill_magic_table, find_closest_zero_range, keep_better_magic, key_lines, new_occupancy, place_tables, process_tables,
    relevant_blockers_of, sort_tables_by_length, RookOrBishop,
};
use encrustant::move_generator::slider_lookup::{get_rook_moves, iterate_combinations, relevant_rook_blockers};

const A1_ROOK_MAGIC: u64 = 0x8A80_1040_0080_0020;

#[test]
fn a_known_magic_fills_its_table() {
    let a1 = Square::from_notation("a1").unwrap();
    let blockers = relevant_rook_blockers(a1);
    let mut table = vec![BitBoard::new(0); 1 << 12];
    let highest = fill_magic_table(&mut table, a1, blockers, A1_ROOK_MAGIC, 12, 0).unwrap();
    assert!(highest < 4096);
    for combination in iterate_combinations(blockers) {
        let slot = combination.magic_index(A1_ROOK_MAGIC, 52);
        assert!(slot <= highest);
        assert_eq!(table[slot], get_rook_moves(a1, combination));
    }
}

#[test]
fn a_useless_magic_clashes() {
    let a1 = Square::from_notation("a1").unwrap();
    let blockers = relevant_rook_blockers(a1);
    let mut table = vec![BitBoard::new(0); 1 << 12];
    assert_eq!(fill_magic_table(&mut table, a1, blockers, 0, 12, 0), Err(0));
}

#[test]
fn free_runs_are_found() {
    let mut occupied = new_occupancy(10);
    assert_eq!(find_closest_zero_range(&occupied, 4), Some(0));
    assert_eq!(find_closest_zero_range(&occupied, 11), None);
    let tables = vec![(3, 0, RookOrBishop::Rook), (2, 0, RookOrBishop::Bishop)];
    let (rook_offsets, bishop_offsets, length, placements) = place_tables(&tables, &mut occupied);
    assert_eq!(placements, vec![0, 3]);
    assert_eq!(rook_offsets[0], 0);
    assert_eq!(bishop_offsets[0], 3);
    assert_eq!(length, 5);
    assert_eq!(find_closest_zero_range(&occupied, 4), Some(5));
}

#[test]
fn tables_sort_longest_first_and_keep_ties() {
    let mut tables = vec![
        (2, 0, RookOrBishop::Rook),
        (5, 1, RookOrBishop::Rook),
        (2, 2, RookOrBishop::Bishop),
        (7, 3, RookOrBishop::Bishop),
    ];
    sort_tables_by_length(&mut tables);
    let order: Vec<(usize, usize)> = tables.iter().map(|(len, square, _)| (*len, *square)).collect();
    assert_eq!(order, vec![(7, 3), (5, 1), (2, 0), (2, 2)]);
}

#[test]
fn table_lengths_of_known_magics() {
    let rook_blockers = relevant_blockers_of(RookOrBishop::Rook);
    assert_eq!(rook_blockers.len(), 64);
    assert_eq!(rook_blockers[0], relevant_rook_blockers(Square::from_index(0)));
    let mut table = vec![BitBoard::new(0); 1 << 12];
    let highest = fill_magic_table(&mut table, Square::from_index(0), rook_blockers[0], A1_ROOK_MAGIC, 12, 0).unwrap();
    let _ = process_tables;
    assert!(highest + 1 <= 4096);
}

#[test]
fn keys_are_written_in_hexadecimal() {
    assert_eq!(
        key_lines(&vec![A1_ROOK_MAGIC, 0xAB], &vec![5, 4096]),
        "Key {magic: 0x8A80_1040_0080_0020, offset: 5},\nKey {magic: 0x0000_0000_0000_00AB, offset: 4096},\n"
    );
}

#[test]
fn the_lower_table_is_kept() {
    assert_eq!(keep_better_magic(0, usize::MAX, 7, 300), (7, 300));
    assert_eq!(keep_better_magic(7, 300, 9, 200), (9, 200));
    assert_eq!(keep_better_magic(9, 200, 11, 200), (9, 200));
    assert_eq!(keep_better_magic(9, 200, 13, 250), (9, 200));
}

#[test]
fn a_square_without_magic_gives_none() {
    let blockers = relevant_blockers_of(RookOrBishop::Bishop);
    assert!(checked_magics(vec![0; 64], &blockers, RookOrBishop::Bishop).is_none());
}
