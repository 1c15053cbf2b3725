use std::sync::Arc;
use std::sync::atomic::{AtomicBool, Ordering};

use encrustant::board::Board;
use encrustant::board::square::Square;
use encrustant::move_generator::move_data::{Flag, Move};
use encrustant::search::Search;
use encrustant::search::time_manager::IMMEDIATE_CHECKMATE_SCORE;
use encrustant::search::transposition::megabytes_to_capacity;
use encrustant::timer::Time;
use encrustant::uci::go_params::{GoParameters, GoParseError, SearchTime, SearchType};
use encrustant::uci::move_encoding::{decode_move, encode_move};
use encrustant::uci::{
    play_moves, play_moves_in_search, time_manager_for, uci_score, GoCommand, SpinU16, UCIProcessor, UciError,
};

fn processor() -> UCIProcessor {
    UCIProcessor::new(SpinU16::new(8..2049, 32))
}

fn square(notation: &str) -> Square {
    Square::from_notation(notation).unwrap()
}

fn parsed(args: &str) -> Result<Option<SearchType>, GoParseError> {
    let mut parameters = GoParameters::empty();
    parameters.parse(args).map(|()| parameters.search_type())
}

#[test]
fn go_limits_are_read() {
    match parsed("wtime 1000 btime 2000 winc 10 binc 0 movestogo 5 depth 7 nodes 900 mate 3 ponder") {
        Ok(Some(SearchType::Normal(t))) => {
            assert_eq!(t.white_time(), Some(1000));
            assert_eq!(t.black_time(), Some(2000));
            assert_eq!(t.white_increment(), Some(10));
            assert_eq!(t.black_increment(), None);
            assert_eq!(t.moves_to_go, Some(5));
            assert_eq!(t.depth(), Some(7));
            assert_eq!(t.nodes(), Some(900));
            assert_eq!(t.mate_in_moves(), Some(3));
            assert_eq!(t.pondering(), Some(true));
            assert!(!t.infinite());
            assert_eq!(t.fixed_time(), None);
        },
        _ => panic!("expected a normal search"),
    }
    match parsed("movetime 250 infinite") {
        Ok(Some(SearchType::Normal(t))) => {
            assert_eq!(t.fixed_time(), Some(250));
            assert!(t.infinite());
        },
        _ => panic!("expected a normal search"),
    }
    match parsed("perft 4") {
        Ok(Some(SearchType::Perft(4))) => {},
        _ => panic!("expected perft"),
    }
    match parsed("depth 2 perft 3") {
        Ok(Some(SearchType::Perft(3))) => {},
        _ => panic!("perft replaces search limits"),
    }
    assert!(matches!(parsed(""), Ok(None)));
    assert!(matches!(parsed("winc x"), Ok(Some(SearchType::Normal(SearchTime { white_increment: None, .. })))));
}

#[test]
fn go_errors_are_reported() {
    assert_eq!(parsed("depth").err(), Some(GoParseError::MissingValue));
    assert_eq!(parsed("depth x").err(), Some(GoParseError::InvalidNumber));
    assert_eq!(parsed("depth 300").err(), Some(GoParseError::InvalidNumber));
    assert_eq!(parsed("perft 3 depth 2").err(), Some(GoParseError::SearchTypeDetermined));
    assert_eq!(parsed("perft 3 perft 2").err(), Some(GoParseError::SearchTypeDetermined));
    assert_eq!(parsed("mate 128").err(), Some(GoParseError::MateTooFar));
    assert_eq!(parsed("ponder ponder").err(), Some(GoParseError::Repeated));
    assert_eq!(parsed("movestogo 0").err(), Some(GoParseError::InvalidNumber));
    assert_eq!(parsed("searchmoves e2e4").err(), Some(GoParseError::SearchMoves));
    assert_eq!(parsed("fast").err(), Some(GoParseError::UnknownParameter));
    assert_eq!(parsed("winc").err(), Some(GoParseError::MissingValue));
}

#[test]
fn moves_in_uci_notation() {
    let m = Move { from: square("e2"), to: square("e4"), flag: Flag::PawnTwoUp };
    assert_eq!(encode_move(m), "e2e4");
    let promotion = Move { from: square("e7"), to: square("e8"), flag: Flag::KnightPromotion };
    assert_eq!(encode_move(promotion), "e7e8n");
    let none = Move { from: Square::from_index(0), to: Square::from_index(0), flag: Flag::Normal };
    assert_eq!(encode_move(none), "0000");
}

#[test]
fn moves_get_their_flags() {
    let board = Board::from_fen("r3k2r/8/8/3pP3/8/8/4P3/R3K2R w KQkq d6 0 1").unwrap();
    assert_eq!(decode_move(&board, square("e2"), square("e4"), Flag::Normal).flag, Flag::PawnTwoUp);
    assert_eq!(decode_move(&board, square("e5"), square("d6"), Flag::Normal).flag, Flag::EnPassant);
    assert_eq!(decode_move(&board, square("e1"), square("g1"), Flag::Normal).flag, Flag::Castle);
    assert_eq!(decode_move(&board, square("e1"), square("f1"), Flag::Normal).flag, Flag::Normal);
    assert_eq!(decode_move(&board, square("a1"), square("a8"), Flag::Normal).flag, Flag::Normal);
}

#[test]
fn options_are_set() {
    let mut uci = processor();
    assert_eq!(uci.transposition_capacity, megabytes_to_capacity(32));
    assert_eq!(uci.setoption("name Hash value 64"), Ok(()));
    assert_eq!(uci.transposition_capacity, megabytes_to_capacity(64));
    assert_eq!(uci.setoption("  name HASH value 16  "), Ok(()));
    assert_eq!(uci.transposition_capacity, megabytes_to_capacity(16));
    assert_eq!(uci.setoption("name Hash value 4096"), Err(UciError::HashOutOfRange));
    assert_eq!(uci.setoption("name Hash value lots"), Err(UciError::InvalidValue));
    assert_eq!(uci.setoption("name Hash"), Err(UciError::MissingValue));
    assert_eq!(uci.transposition_capacity, megabytes_to_capacity(16));
    assert_eq!(uci.setoption("name Threads value 1"), Ok(()));
    assert_eq!(uci.setoption("name Threads value 2"), Err(UciError::UnsupportedThreads));
    assert_eq!(uci.setoption("name Ponder value true"), Ok(()));
    assert!(uci.ponder_info.ponder_allowed);
    assert_eq!(uci.setoption("name Ponder value maybe"), Err(UciError::InvalidValue));
    assert_eq!(uci.setoption("name Ponder value false"), Ok(()));
    assert!(!uci.ponder_info.ponder_allowed);
    assert_eq!(uci.setoption("name Style value risky"), Err(UciError::UnknownOption));
    assert_eq!(uci.setoption("name Style"), Err(UciError::UnknownOptionWithoutValue));
    assert_eq!(uci.setoption("Hash value 3"), Err(UciError::MissingOptionName));
    assert_eq!(uci.setoption("x value 3 name Hash"), Err(UciError::ValueBeforeName));
}

#[test]
fn uci_and_isready_answers() {
    let uci = processor();
    assert_eq!(
        uci.uci("encrustant", "0.1.0"),
        "id name encrustant 0.1.0\nid author someone\noption name Hash type spin default 32 min 8 max 2048\noption name Ponder type check default false\noption name Threads type spin default 1 min 1 max 1\nuciok"
    );
    assert_eq!(uci.isready(), "readyok");
}

#[test]
fn positions_are_read() {
    let mut uci = processor();
    assert_eq!(uci.position("startpos moves e2e4 e7e5 e7e8q"), Ok(()));
    assert_eq!(uci.fen.as_deref(), Some(Board::START_POSITION_FEN));
    assert_eq!(
        uci.moves,
        vec![
            (square("e2"), square("e4"), Flag::Normal),
            (square("e7"), square("e5"), Flag::Normal),
            (square("e7"), square("e8"), Flag::QueenPromotion),
        ]
    );
    assert_eq!(uci.position("fen 8/8/8/8/8/8/8/K6k w - - 0 1"), Ok(()));
    assert_eq!(uci.fen.as_deref(), Some("8/8/8/8/8/8/8/K6k w - - 0 1 "));
    assert!(uci.moves.is_empty());
    assert_eq!(uci.position("startpos moves e2e4 e7e8x"), Err(UciError::InvalidPromotion));
    assert_eq!(uci.fen, None);
    assert_eq!(uci.position("startpos moves e2"), Err(UciError::InvalidMoveNotation));
    assert_eq!(uci.position("startpos moves z2e4"), Err(UciError::InvalidMoveNotation));
}

#[test]
fn go_runs_perft_on_the_played_position() {
    let mut uci = processor();
    let mut parameters = GoParameters::empty();
    assert_eq!(uci.go(GoParameters::empty()).err(), Some(UciError::NoPosition));
    uci.position("startpos moves e2e4").unwrap();
    parameters.parse("perft 2").unwrap();
    match uci.go(parameters) {
        Ok(GoCommand::Perft(board, depth)) => {
            assert_eq!(depth, 2);
            assert!(!board.white_to_move);
            assert_eq!(board.to_fen(), "rnbqkbnr/pppppppp/8/8/4P3/8/PPPP1PPP/RNBQKBNR b KQkq e3 0 1");
        },
        _ => panic!("expected perft"),
    }
    assert_eq!(uci.go(GoParameters::empty()).err(), Some(UciError::NoSearchType));
    uci.position("fen 8/8/8/8/8/8/8/8 w - - 0 1").unwrap();
    let mut parameters = GoParameters::empty();
    parameters.parse("depth 1").unwrap();
    assert!(matches!(uci.go(parameters), Ok(GoCommand::Search(_, _))));
    uci.position("fen nonsense").unwrap();
    let mut parameters = GoParameters::empty();
    parameters.parse("depth 1").unwrap();
    assert!(matches!(uci.go(parameters), Err(UciError::InvalidFen(_))));
}

#[test]
fn go_sets_the_flags() {
    let mut uci = processor();
    uci.position("startpos").unwrap();
    uci.setoption("name Ponder value true").unwrap();
    uci.stop();
    assert!(uci.stopped.load(Ordering::SeqCst));
    let mut parameters = GoParameters::empty();
    parameters.parse("ponder infinite").unwrap();
    assert!(uci.go(parameters).is_ok());
    assert!(!uci.stopped.load(Ordering::SeqCst));
    assert!(uci.ponder_info.is_pondering.load(Ordering::SeqCst));
    uci.ponderhit();
    assert!(!uci.ponder_info.is_pondering.load(Ordering::SeqCst));
}

#[test]
fn illegal_moves_are_refused() {
    let mut board = Board::from_fen(Board::START_POSITION_FEN).unwrap();
    assert_eq!(play_moves(&mut board, &vec![(square("e3"), square("e4"), Flag::Normal)]), Err(UciError::IllegalMove));
    let mut board = Board::from_fen(Board::START_POSITION_FEN).unwrap();
    assert_eq!(play_moves(&mut board, &vec![(square("g1"), square("f3"), Flag::Normal), (square("g8"), square("f6"), Flag::Normal)]), Ok(()));
    assert_eq!(board.to_fen(), "rnbqkb1r/pppppppp/5n2/8/8/5N2/PPPPPPPP/RNBQKB1R w KQkq - 0 1");
}

#[test]
fn search_plays_moves_with_repetitions() {
    let board = Board::from_fen(Board::START_POSITION_FEN).unwrap();
    let mut search = Search::new(board, 64);
    let moves = vec![
        (square("g1"), square("f3"), Flag::Normal),
        (square("g8"), square("f6"), Flag::Normal),
        (square("f3"), square("g1"), Flag::Normal),
        (square("f6"), square("g8"), Flag::Normal),
    ];
    assert_eq!(play_moves_in_search(&mut search, &moves), Ok(()));
    assert_eq!(search.repetition_table.positions.len(), 4);
    assert!(search.repetition_table.contains_anywhere(search.board().position_zobrist_key()));
}

#[test]
fn time_manager_limits() {
    let stopped = Arc::new(AtomicBool::new(false));
    let pondering = Arc::new(AtomicBool::new(false));
    let timer = Time::now();
    let mut parameters = GoParameters::empty();
    parameters.parse("wtime 60000 btime 30000 binc 1000 depth 9 nodes 500 mate 2").unwrap();
    let search_time = match parameters.search_type() {
        Some(SearchType::Normal(t)) => t,
        _ => panic!("expected a normal search"),
    };
    let white = time_manager_for(&search_time, true, stopped.clone(), pondering.clone(), &timer);
    assert_eq!(white.depth_limit, Some(9));
    assert_eq!(white.mated_in, Some(3));
    let limit = white.node_limit.as_ref().unwrap();
    assert_eq!((limit.hard_limit, limit.soft_limit), (500, 500));
    let real_time = white.real_time.as_ref().unwrap();
    assert_eq!((real_time.hard_time_limit, real_time.soft_time_limit), (15_000, 2_000));
    let black = time_manager_for(&search_time, false, stopped.clone(), pondering.clone(), &timer);
    let real_time = black.real_time.as_ref().unwrap();
    assert_eq!((real_time.hard_time_limit, real_time.soft_time_limit), (7_500, 2_000));
    assert!(!white.hard_stop_decision(false, false, 499, 0));
    assert!(white.hard_stop_decision(false, false, 500, 0));
    assert!(white.hard_stop_decision(true, false, 0, 0));
    assert!(!white.hard_stop_decision(false, true, 10_000, 100_000));
    assert!(white.hard_stop_decision(false, false, 0, 15_001));
    assert!(white.hard_stop_iterative_deepening_decision(false, false, 10, 0, 0));
    assert!(!white.hard_stop_iterative_deepening_decision(false, false, 9, 0, 0));
}

#[test]
fn scores_as_uci_gives_them() {
    assert_eq!(uci_score(35), (false, 35));
    assert_eq!(uci_score(IMMEDIATE_CHECKMATE_SCORE + 3), (true, -3));
    assert_eq!(uci_score(-35), (false, -35));
}

#[test]
fn uci_notation_reads_back() {
    let capture = Move { from: square("b7"), to: square("a8"), flag: Flag::RookPromotion };
    let castle = Move { from: square("e1"), to: square("g1"), flag: Flag::Castle };
    let mut uci = processor();
    let args = format!("startpos moves {} {}", encode_move(capture), encode_move(castle));
    assert_eq!(uci.position(&args), Ok(()));
    assert_eq!(
        uci.moves,
        vec![(square("b7"), square("a8"), Flag::RookPromotion), (square("e1"), square("g1"), Flag::Normal)]
    );
}
