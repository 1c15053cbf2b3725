use encrustant::board::Board;
use encrustant::board::fen::FenParseErr;
use encrustant::board::square::Square;
use encrustant::board::zobrist::Zobrist;
use encrustant::move_generator::MoveGenerator;

const TEST_FENS: [&str; 8] = [
    "rnbqkbnr/pppppppp/8/8/8/8/PPPPPPPP/RNBQKBNR w KQkq - 0 1",
    "r3k2r/p1ppqpb1/bn2pnp1/3PN3/1p2P3/2N2Q1p/PPPBBPPP/R3K2R w KQkq - 0 1",
    "8/2p5/3p4/KP5r/1R3p1k/8/4P1P1/8 w - - 0 1",
    "r3k2r/Pppp1ppp/1b3nbN/nP6/BBP1P3/q4N2/Pp1P2PP/R2Q1RK1 w kq - 0 1",
    "rnbq1k1r/pp1Pbppp/2p5/8/2B5/8/PPP1NnPP/RNBQK2R w KQ - 1 8",
    "r4rk1/1pp1qppp/p1np1n2/2b1p1B1/2B1P1b1/P1NP1N2/1PP1QPPP/R4RK1 w - - 0 10",
    "rnbqkbnr/pp1ppppp/8/2p5/4P3/8/PPPP1PPP/RNBQKBNR w KQkq c6 0 2",
    "4k3/8/8/8/8/8/8/4K2R b K - 12 40",
];

#[test]
fn fen_test_fen_encoding() {
    for fen in TEST_FENS {
        let board = Board::from_fen(fen).unwrap();
        assert_eq!(fen, board.to_fen());
    }
}

#[test]
fn fen_errors_are_reported() {
    assert_eq!(Board::from_fen("").err(), Some(FenParseErr::MissingPosition));
    assert_eq!(Board::from_fen("rnbqkbnx/8/8/8/8/8/8/8 w - - 0 1").err(), Some(FenParseErr::InvalidPiece));
    assert_eq!(Board::from_fen("rnbqkbnr/pppppppp/8/8/8/8/PPPPPPPP/RNBQKBNR").err(), Some(FenParseErr::MissingSideToMove));
    assert_eq!(Board::from_fen("rnbqkbnr/pppppppp/8/8/8/8/PPPPPPPP/RNBQKBNR x KQkq - 0 1").err(), Some(FenParseErr::InvalidSideToMove));
}

#[test]
fn start_position_constant_parses() {
    let board = Board::from_fen(Board::START_POSITION_FEN).unwrap();
    assert!(board.white_to_move);
    assert_eq!(board.to_fen(), Board::START_POSITION_FEN);
}

#[test]
fn key_from_fen_is_computed_key() {
    for fen in TEST_FENS {
        let board = Board::from_fen(fen).unwrap();
        assert_eq!(board.position_zobrist_key(), Zobrist::compute(&board));
    }
}

#[test]
fn make_then_unmake_restores_the_position() {
    for fen in TEST_FENS {
        let mut board = Board::from_fen(fen).unwrap();
        let before = board.to_fen();
        let key = board.position_zobrist_key();
        let moves = MoveGenerator::new(&board).gen(false);
        assert!(!moves.is_empty());
        for m in moves {
            let old_state = board.make_move(&m);
            assert_eq!(board.position_zobrist_key(), Zobrist::compute(&board));
            board.unmake_move(&m, &old_state);
            assert_eq!(board.to_fen(), before);
            assert_eq!(board.position_zobrist_key(), key);
        }
    }
}

#[test]
fn square_notation_round_trip() {
    for index in 0..64i8 {
        let square = Square::from_index(index);
        assert_eq!(Square::from_notation(&square.to_notation()).unwrap(), square);
    }
    assert_eq!(Square::from_notation("d4").unwrap(), Square::from_coords(3, 3));
    assert!(Square::from_notation("i1").is_err());
    assert!(Square::from_notation("a9").is_err());
}

#[test]
fn fen_text_reads_back_as_the_same_board() {
    let fen = "rnbqkbnr/pppp1ppp/8/4p3/4P3/8/PPPP1PPP/RNBQKBNR w Kq e6 0 2";
    let board = Board::from_fen(fen).unwrap();
    let text = board.to_fen();
    assert_eq!(text, fen);
    let again = Board::from_fen(&text).unwrap();
    assert_eq!(again.to_fen(), fen);
    assert_eq!(again.bit_boards, board.bit_boards);
    assert_eq!(again.white_to_move, board.white_to_move);
    assert_eq!(again.full_move_counter, board.full_move_counter);
    assert_eq!(again.game_state.half_move_clock, board.game_state.half_move_clock);
}
