use encrustant::board::Board;
use encrustant::board::bit_board::BitBoard;
use encrustant::board::square::Square;
use encrustant::move_generator::MoveGenerator;
use encrustant::move_generator::move_data::{Flag, Move};
use encrustant::move_generator::playable::is_playable;
use encrustant::move_generator::slider_lookup::{
    gen_rook_or_bishop, get_bishop_moves, get_rook_moves, iterate_combinations, relevant_bishop_blockers,
    relevant_rook_blockers, rook_or_bishop_blockers,
};
use encrustant::perft::{perft, perft_root};
use encrustant::search::encoded_move::EncodedMove;

#[test]
fn blocker_combinations() {
    let d4 = Square::from_notation("d4").unwrap();
    let rook_blockers = rook_or_bishop_blockers(d4, 0);
    let bishop_blockers = rook_or_bishop_blockers(d4, 4);

    let blockers = rook_blockers.or(bishop_blockers);

    let expected_number_of_combinations = 1u64 << blockers.count();

    let mut number_of_combinations = 0u64;
    for _ in iterate_combinations(blockers) {
        number_of_combinations += 1;
    }
    assert_eq!(number_of_combinations, expected_number_of_combinations);
}

#[test]
fn move_lookup_slow() {
    let d4 = Square::from_notation("d4").unwrap();
    let mut blockers = BitBoard::new(0);
    blockers.set(&Square::from_notation("h8").unwrap());

    let _ = blockers.last_square();
    let _ = blockers.first_square();

    let _ = gen_rook_or_bishop(d4, &blockers, 4);
}

#[test]
fn move_lookup() {
    let d4 = Square::from_notation("d4").unwrap();
    let mut blockers = BitBoard::new(0);
    blockers.set(&Square::from_notation("f4").unwrap());

    let rook_moves = get_rook_moves(d4, blockers.and(relevant_rook_blockers(d4)));
    let bishop_moves = get_bishop_moves(d4, blockers.and(relevant_bishop_blockers(d4)));

    let legal_moves = rook_moves.or(bishop_moves);
    assert_eq!(legal_moves.count(), 25);
}

#[test]
fn rook_moves_stop_at_blockers() {
    let a1 = Square::from_notation("a1").unwrap();
    let mut blockers = BitBoard::new(0);
    blockers.set(&Square::from_notation("a3").unwrap());
    blockers.set(&Square::from_notation("c1").unwrap());
    let moves = gen_rook_or_bishop(a1, &blockers, 0);
    assert_eq!(moves.count(), 4);
    assert!(moves.get(&Square::from_notation("a3").unwrap()));
    assert!(!moves.get(&Square::from_notation("a4").unwrap()));
}

#[test]
fn combinations_are_distinct_subsets() {
    let squares = BitBoard::new(0b1011_0000_0101);
    let all = iterate_combinations(squares);
    assert_eq!(all.len(), 1 << 5);
    for (i, a) in all.iter().enumerate() {
        assert_eq!(a.and(squares), *a);
        for b in all.iter().skip(i + 1) {
            assert_ne!(a, b);
        }
    }
}

#[test]
fn move_encoded_correctly() {
    let test_moves = [
        (Square::from_coords(2, 2), Square::from_coords(3, 2), Flag::Normal),
        (Square::from_coords(5, 5), Square::from_coords(7, 7), Flag::Normal),
    ];
    for test_move in test_moves {
        let (from, to, flag) = test_move;
        let encoded = EncodedMove::new(Move { from, to, flag });
        assert_eq!(encoded.from(), from);
        assert_eq!(encoded.to(), to);
        assert_eq!(*encoded.flag(), flag);
    }
}

#[test]
fn every_flag_survives_encoding() {
    let flags = [
        Flag::Normal,
        Flag::QueenPromotion,
        Flag::RookPromotion,
        Flag::BishopPromotion,
        Flag::KnightPromotion,
        Flag::EnPassant,
        Flag::PawnTwoUp,
        Flag::Castle,
    ];
    for flag in flags {
        let m = Move { from: Square::from_index(12), to: Square::from_index(60), flag };
        let encoded = EncodedMove::new(m);
        assert_eq!(encoded.decode(), m);
        assert_eq!(encoded.without_flag(), 12 + 60 * 64);
    }
    assert!(EncodedMove(EncodedMove::NONE).is_none());
}

#[test]
fn perft_from_the_start_position() {
    let mut board = Board::from_fen(Board::START_POSITION_FEN).unwrap();
    assert_eq!(perft(&mut board, 0), 1);
    assert_eq!(perft(&mut board, 1), 20);
    assert_eq!(perft(&mut board, 2), 400);
    assert_eq!(perft(&mut board, 3), 8902);
    assert_eq!(board.to_fen(), Board::START_POSITION_FEN);
}

#[test]
fn perft_of_tricky_positions() {
    let mut kiwipete = Board::from_fen("r3k2r/p1ppqpb1/bn2pnp1/3PN3/1p2P3/2N2Q1p/PPPBBPPP/R3K2R w KQkq - 0 1").unwrap();
    assert_eq!(perft(&mut kiwipete, 1), 48);
    assert_eq!(perft(&mut kiwipete, 2), 2039);
    let mut endgame = Board::from_fen("8/2p5/3p4/KP5r/1R3p1k/8/4P1P1/8 w - - 0 1").unwrap();
    assert_eq!(perft(&mut endgame, 1), 14);
    assert_eq!(perft(&mut endgame, 2), 191);
    assert_eq!(perft(&mut endgame, 3), 2812);
    let mut promotions = Board::from_fen("r3k2r/Pppp1ppp/1b3nbN/nP6/BBP1P3/q4N2/Pp1P2PP/R2Q1RK1 w kq - 0 1").unwrap();
    assert_eq!(perft(&mut promotions, 1), 6);
    assert_eq!(perft(&mut promotions, 2), 264);
    let mut position_five = Board::from_fen("rnbq1k1r/pp1Pbppp/2p5/8/2B5/8/PPP1NnPP/RNBQK2R w KQ - 1 8").unwrap();
    assert_eq!(perft(&mut position_five, 1), 44);
    assert_eq!(perft(&mut position_five, 2), 1486);
}

#[test]
fn perft_root_counts_each_first_move() {
    let mut board = Board::from_fen(Board::START_POSITION_FEN).unwrap();
    let (total, counts) = perft_root(&mut board, 2);
    assert_eq!(total, 400);
    assert_eq!(counts.len(), 20);
    for (_, count) in counts {
        assert_eq!(count, 20);
    }
}

#[test]
fn no_king_is_not_playable() {
    let board = Board::from_fen("8/8/8/8/8/8/8/4K3 b - - 0 1").unwrap();
    assert!(!is_playable(&board));
    let mut board = board;
    assert_eq!(perft(&mut board, 2), 0);
    assert!(is_playable(&Board::from_fen(Board::START_POSITION_FEN).unwrap()));
}

#[test]
fn check_and_checkmate_are_seen() {
    let mated = Board::from_fen("R5k1/5ppp/8/8/8/8/8/6K1 b - - 0 1").unwrap();
    assert!(MoveGenerator::calculate_is_in_check(&mated));
    let generator = MoveGenerator::new(&mated);
    assert!(generator.is_in_check());
    assert_eq!(generator.gen(false).len(), 0);
    let quiet = Board::from_fen(Board::START_POSITION_FEN).unwrap();
    assert!(!MoveGenerator::calculate_is_in_check(&quiet));
}

#[test]
fn captures_only_are_captures() {
    let board = Board::from_fen("r3k2r/p1ppqpb1/bn2pnp1/3PN3/1p2P3/2N2Q1p/PPPBBPPP/R3K2R w KQkq - 0 1").unwrap();
    let generator = MoveGenerator::new(&board);
    let captures = generator.gen(true);
    assert_eq!(captures.len(), 8);
    for m in captures {
        assert!(board.enemy_piece_at(m.to).is_some());
    }
}

#[test]
fn every_generated_move_is_listed_once() {
    for fen in [
        "rnbqkbnr/pppppppp/8/8/8/8/PPPPPPPP/RNBQKBNR w KQkq - 0 1",
        "r3k2r/p1ppqpb1/bn2pnp1/3PN3/1p2P3/2N2Q1p/PPPBBPPP/R3K2R w KQkq - 0 1",
        "8/2p5/3p4/KP5r/1R3p1k/8/4P1P1/8 w - - 0 1",
        "r2q1rk1/pP1p2pp/Q4n2/bbp1p3/Np6/1B3NBn/pPPP1PPP/R3K2R b KQ - 0 1",
    ] {
        let board = Board::from_fen(fen).unwrap();
        let moves = MoveGenerator::new(&board).gen(false);
        for (i, a) in moves.iter().enumerate() {
            for b in &moves[i + 1..] {
                assert!(a != b);
            }
        }
    }
}

#[test]
fn generator_check_agrees_with_calculated_check() {
    for fen in [
        "rnbqkbnr/pppppppp/8/8/8/8/PPPPPPPP/RNBQKBNR w KQkq - 0 1",
        "rnb1kbnr/pppp1ppp/8/4p3/6Pq/5P2/PPPPP2P/RNBQKBNR w KQkq - 1 3",
        "4k3/8/8/8/8/8/4r3/4K3 w - - 0 1",
        "4k3/8/8/8/8/5n2/8/4K3 w - - 0 1",
    ] {
        let board = Board::from_fen(fen).unwrap();
        let generator = MoveGenerator::new(&board);
        assert_eq!(generator.is_in_check(), MoveGenerator::calculate_is_in_check(&board));
    }
}

#[test]
fn king_steps_are_generated_exactly_when_legal() {
    let board = Board::from_fen("4k3/8/8/8/8/8/4r3/4K3 w - - 0 1").unwrap();
    let generator = MoveGenerator::new(&board);
    let moves = generator.gen(false);
    let king = Square::from_index(4);
    let mut legal_steps = 0;
    for to in [3i8, 5, 11, 12, 13] {
        let m = Move { from: king, to: Square::from_index(to), flag: Flag::Normal };
        let mut after = board;
        after.make_move(&m);
        after.white_to_move = !after.white_to_move;
        let legal = !MoveGenerator::calculate_is_in_check(&after);
        assert_eq!(moves.contains(&m), legal);
        if legal {
            legal_steps += 1;
        }
    }
    assert_eq!(legal_steps, 3);
}

#[test]
fn captures_only_gives_the_capturing_moves() {
    let board = Board::from_fen("rnbqkbnr/ppp1p1pp/8/3pPp2/8/8/PPPP1PPP/RNBQKBNR w KQkq f6 0 3").unwrap();
    let generator = MoveGenerator::new(&board);
    let full = generator.gen(false);
    let captures = generator.gen(true);
    for m in &captures {
        assert!(full.contains(m));
    }
    let mut capturing = 0;
    for m in &full {
        let takes = board.enemy_piece_at(m.to).is_some() || m.flag == Flag::EnPassant;
        assert_eq!(captures.contains(m), takes);
        if takes {
            capturing += 1;
        }
    }
    assert_eq!(captures.len(), capturing);
    assert!(captures.contains(&Move { from: Square::from_index(36), to: Square::from_index(45), flag: Flag::EnPassant }));
}
