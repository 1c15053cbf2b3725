use std::sync::Arc;
use std::sync::atomic::AtomicBool;

use encrustant::board::Board;
use encrustant::board::square::Square;
use encrustant::board::zobrist::Zobrist;
use encrustant::move_generator::MoveGenerator;
use encrustant::move_generator::move_data::{Flag, Move};
use encrustant::search::Search;
use encrustant::search::alpha_beta::{depth_outcome, may_go_deeper, track_best_line, Deepening, DepthOutcome, MAX_SCORE};
use encrustant::search::encoded_move::EncodedMove;
use encrustant::search::eval::Eval;
use encrustant::search::eval_data::{END_GAME_PIECE_SQUARE_TABLES, MIDDLE_GAME_PIECE_SQUARE_TABLES, PHASES};
use encrustant::search::heuristics::history_gravity;
use encrustant::search::move_ordering::MoveOrderer;
use encrustant::search::pv::Pv;
use encrustant::search::repetition_table::RepetitionTable;
use encrustant::search::time_manager::{
    calculate_time, NodeLimit, TimeManager, CHECKMATE_SCORE, IMMEDIATE_CHECKMATE_SCORE,
};
use encrustant::search::transposition::megabytes_to_capacity;

fn flags() -> (Arc<AtomicBool>, Arc<AtomicBool>) {
    (Arc::new(AtomicBool::new(false)), Arc::new(AtomicBool::new(false)))
}

#[test]
fn mod_advanced_pawn_worth_more() {
    let starting_rank_pawn = Board::from_fen("7k/8/8/8/8/8/4P3/K7 w - - 0 1").unwrap();
    let one_step_from_promoting_pawn = Board::from_fen("7k/4P3/8/8/8/8/8/K7 w - - 0 1").unwrap();
    assert!(Eval::evaluate(&one_step_from_promoting_pawn) > Eval::evaluate(&starting_rank_pawn));
}

#[test]
fn mod_centralised_knight_worth_more() {
    let centralised_knight = Board::from_fen("7k/8/8/4n3/8/8/8/K7 b - - 0 1").unwrap();
    let knight_on_the_edge = Board::from_fen("7k/8/8/8/7n/8/8/K7 b - - 0 1").unwrap();
    assert!(Eval::evaluate(&centralised_knight) > Eval::evaluate(&knight_on_the_edge));
}

#[test]
fn eval_advanced_pawn_worth_more() {
    let starting_rank_pawn = Board::from_fen("7k/8/8/8/8/8/4P3/K7 w - - 0 1").unwrap();
    let one_step_from_promoting_pawn = Board::from_fen("7k/4P3/8/8/8/8/8/K7 w - - 0 1").unwrap();
    assert!(
        Eval::evaluate_with_parameters(
            &MIDDLE_GAME_PIECE_SQUARE_TABLES,
            &END_GAME_PIECE_SQUARE_TABLES,
            &PHASES,
            &one_step_from_promoting_pawn
        ) > Eval::evaluate_with_parameters(
            &MIDDLE_GAME_PIECE_SQUARE_TABLES,
            &END_GAME_PIECE_SQUARE_TABLES,
            &PHASES,
            &starting_rank_pawn
        )
    );
}

#[test]
fn eval_centralised_knight_worth_more() {
    let centralised_knight = Board::from_fen("7k/8/8/4n3/8/8/8/K7 b - - 0 1").unwrap();
    let knight_on_the_edge = Board::from_fen("7k/8/8/8/7n/8/8/K7 b - - 0 1").unwrap();
    assert!(
        Eval::evaluate_with_parameters(
            &MIDDLE_GAME_PIECE_SQUARE_TABLES,
            &END_GAME_PIECE_SQUARE_TABLES,
            &PHASES,
            &centralised_knight
        ) > Eval::evaluate_with_parameters(
            &MIDDLE_GAME_PIECE_SQUARE_TABLES,
            &END_GAME_PIECE_SQUARE_TABLES,
            &PHASES,
            &knight_on_the_edge
        )
    );
}

#[test]
fn start_position_is_balanced_and_mirrored() {
    let white = Board::from_fen(Board::START_POSITION_FEN).unwrap();
    let black = Board::from_fen("rnbqkbnr/pppppppp/8/8/8/8/PPPPPPPP/RNBQKBNR b KQkq - 0 1").unwrap();
    assert_eq!(Eval::evaluate(&white), 0);
    assert_eq!(Eval::evaluate(&white), -Eval::evaluate(&black));
}

#[test]
fn quiescence_search_works() {
    let board = Board::from_fen("rnbqkb1r/pppp1ppp/5n2/4p2Q/4P3/8/PPPPBPPP/RNB1K1NR b KQkq - 3 3").unwrap();
    let quiet = Board::from_fen("rnbqkb1r/pppp1ppp/8/4p2B/4P3/8/PPPP1PPP/RNB1K1NR b KQkq - 0 4").unwrap();
    assert_eq!(
        Search::new(board, megabytes_to_capacity(8)).quiescence_search(-MAX_SCORE, MAX_SCORE),
        Eval::evaluate(&quiet)
    );
}

#[test]
fn quiescence_never_below_standing_pat() {
    let board = Board::from_fen("r3k2r/p1ppqpb1/bn2pnp1/3PN3/1p2P3/2N2Q1p/PPPBBPPP/R3K2R w KQkq - 0 1").unwrap();
    let mut search = Search::new(board, 1024);
    let score = search.quiescence_search(-MAX_SCORE, MAX_SCORE);
    assert!(score >= Eval::evaluate(&board));
    assert_eq!(search.board().to_fen(), board.to_fen());
    let mut cut = Search::new(board, 1024);
    let stand_pat = Eval::evaluate(&board);
    assert_eq!(cut.quiescence_search(stand_pat - 1, stand_pat), stand_pat);
    assert!(cut.quiescence_call_count() >= 1);
}

#[test]
fn move_ordering_works() {
    let board = Board::from_fen("8/P6p/6r1/1q1n4/2P3R1/8/2K2k2/8 w - - 0 1").unwrap();
    let move_generator = MoveGenerator::new(&board);

    let mut move_guesses = MoveOrderer::get_move_guesses(
        &Search::new(board, megabytes_to_capacity(8)),
        &move_generator,
        EncodedMove(EncodedMove::NONE),
        EncodedMove(EncodedMove::NONE),
    );
    let move_count = move_guesses.len();

    let mut index = 0;
    let mut next_move = || {
        let move_guess = MoveOrderer::put_highest_guessed_move(&mut move_guesses, index, move_count);
        index += 1;
        (move_guess.move_data, index != move_count)
    };

    assert!(
        next_move().0.decode()
            == Move {
                from: Square::from_notation("c4").unwrap(),
                to: Square::from_notation("b5").unwrap(),
                flag: Flag::Normal
            }
    );
    while next_move().1 {}
}

#[test]
fn guesses_come_out_highest_first() {
    let board = Board::from_fen("r3k2r/p1ppqpb1/bn2pnp1/3PN3/1p2P3/2N2Q1p/PPPBBPPP/R3K2R w KQkq - 0 1").unwrap();
    let move_generator = MoveGenerator::new(&board);
    let search = Search::new(board, 16);
    let mut guesses = MoveOrderer::get_move_guesses(&search, &move_generator, EncodedMove(EncodedMove::NONE), EncodedMove(EncodedMove::NONE));
    let count = guesses.len();
    assert_eq!(count, 48);
    let mut previous = i32::MAX;
    for index in 0..count {
        let guess = MoveOrderer::put_highest_guessed_move(&mut guesses, index, count);
        assert!(guess.guess <= previous);
        previous = guess.guess;
    }
}

#[test]
fn search_finds_mate_in_one() {
    let board = Board::from_fen("6k1/5ppp/8/8/8/8/8/R5K1 w - - 0 1").unwrap();
    let mut search = Search::new(board, 4096);
    let (stopped, pondering) = flags();
    let time_manager = TimeManager::depth_limited(stopped, pondering, None, 4);
    let (depth, score, reports) = search.iterative_deepening(&time_manager);
    assert!(depth >= 1);
    assert!(Search::score_is_checkmate(score));
    assert_eq!(score, -(IMMEDIATE_CHECKMATE_SCORE + 1));
    let best = search.pv.root_best_move().decode();
    assert_eq!(best.from, Square::from_notation("a1").unwrap());
    assert_eq!(best.to, Square::from_notation("a8").unwrap());
    for (i, report) in reports.iter().enumerate() {
        assert_eq!(report.depth as usize, i + 1);
    }
    assert_eq!(search.board().to_fen(), board.to_fen());
}

#[test]
fn search_wins_material() {
    let board = Board::from_fen("4k3/8/8/3q4/8/8/8/3RK3 w - - 0 1").unwrap();
    let mut search = Search::new(board, 4096);
    let (stopped, pondering) = flags();
    let time_manager = TimeManager::depth_limited(stopped, pondering, None, 3);
    let (_, score, reports) = search.iterative_deepening(&time_manager);
    assert!(!reports.is_empty());
    assert!(score > 0);
    let best = search.pv.root_best_move().decode();
    assert_eq!(best.to, Square::from_notation("d5").unwrap());
}

#[test]
fn stalemate_and_checkmate_scores() {
    let stalemate = Board::from_fen("7k/5Q2/6K1/8/8/8/8/8 b - - 0 1").unwrap();
    let mut search = Search::new(stalemate, 64);
    let (stopped, pondering) = flags();
    let (_, score, reports) = search.iterative_deepening(&TimeManager::depth_limited(stopped, pondering, None, 2));
    assert_eq!(score, 0);
    assert!(reports.is_empty());
    let mated = Board::from_fen("R5k1/5ppp/8/8/8/8/8/6K1 b - - 0 1").unwrap();
    let mut search = Search::new(mated, 64);
    let (stopped, pondering) = flags();
    let (_, score, _) = search.iterative_deepening(&TimeManager::depth_limited(stopped, pondering, None, 2));
    assert_eq!(score, IMMEDIATE_CHECKMATE_SCORE);
}

#[test]
fn stopped_search_stops_after_first_depth() {
    let board = Board::from_fen(Board::START_POSITION_FEN).unwrap();
    let mut search = Search::new(board, 1024);
    let stopped = Arc::new(AtomicBool::new(true));
    let pondering = Arc::new(AtomicBool::new(false));
    let (depth, _, reports) = search.iterative_deepening(&TimeManager::infinite(stopped, pondering, None));
    assert_eq!(depth, 1);
    assert!(reports.is_empty());
}

#[test]
fn node_limit_ends_the_search() {
    let board = Board::from_fen(Board::START_POSITION_FEN).unwrap();
    let mut search = Search::new(board, 1024);
    let (stopped, pondering) = flags();
    let (depth, _, _) = search.iterative_deepening(&TimeManager::node_limited(stopped, pondering, None, NodeLimit::new(2000, 1000)));
    assert!(depth < 20);
}

#[test]
fn repeated_position_scores_zero() {
    let board = Board::from_fen("4k3/8/8/8/8/8/8/3QK3 w - - 0 1").unwrap();
    let mut search = Search::new(board, 1024);
    let d1 = Move { from: Square::from_notation("d1").unwrap(), to: Square::from_notation("d2").unwrap(), flag: Flag::Normal };
    let e8 = Move { from: Square::from_notation("e8").unwrap(), to: Square::from_notation("e7").unwrap(), flag: Flag::Normal };
    let state = search.make_move(&d1);
    assert_eq!(search.repetition_table.positions.len(), 1);
    let state2 = search.make_move(&e8);
    search.unmake_move(&e8, &state2);
    search.unmake_move(&d1, &state);
    assert_eq!(search.repetition_table.positions.len(), 0);
    assert_eq!(search.board().to_fen(), board.to_fen());
}

#[test]
fn repetition_table_finds_earlier_positions() {
    let mut table = RepetitionTable::new();
    for key in [1u64, 2, 3, 4, 5, 6] {
        table.push(Zobrist(key));
    }
    assert!(table.contains_anywhere(Zobrist(3)));
    assert!(!table.contains_anywhere(Zobrist(9)));
    assert!(table.contains(Zobrist(3), 10));
    assert!(!table.contains(Zobrist(4), 10));
    assert!(!table.contains(Zobrist(3), 3));
    assert_eq!(table.pop(), Zobrist(6));
    table.clear();
    assert!(!table.contains_anywhere(Zobrist(1)));
}

#[test]
fn score_checkmate_bounds() {
    assert!(Search::score_is_checkmate(CHECKMATE_SCORE));
    assert!(Search::score_is_checkmate(-CHECKMATE_SCORE));
    assert!(!Search::score_is_checkmate(CHECKMATE_SCORE - 1));
    assert!(Search::score_is_checkmate(IMMEDIATE_CHECKMATE_SCORE));
    assert!(!Search::score_is_checkmate(0));
}

#[test]
fn history_is_pulled_toward_zero() {
    assert_eq!(history_gravity(0, 100), 100);
    assert_eq!(history_gravity(8192, 16384), 8192);
    assert_eq!(history_gravity(16384, 16384), 0);
    assert_eq!(history_gravity(-16384, 16384), -32768);
    assert_eq!(history_gravity(100, -16384), -16284);
}

#[test]
fn time_split() {
    assert_eq!(calculate_time(60_000, 0), (15_000, 2_000));
    assert_eq!(calculate_time(60_000, 1_000), (15_000, 3_000));
    assert_eq!(calculate_time(1_000, 5_000), (250, 250));
}

#[test]
fn pv_keeps_the_best_line() {
    let mut pv = Pv::new();
    let a = EncodedMove::new(Move { from: Square::from_index(12), to: Square::from_index(28), flag: Flag::PawnTwoUp });
    let b = EncodedMove::new(Move { from: Square::from_index(52), to: Square::from_index(36), flag: Flag::PawnTwoUp });
    pv.set_pv_length(1, 1);
    pv.set_pv_length(2, 2);
    pv.update_move(1, b);
    pv.update_move(0, a);
    assert_eq!(pv.root_best_move(), a);
    assert_eq!(pv.best_line(), vec![a, b]);
}

#[test]
fn clearing_for_a_new_search() {
    let board = Board::from_fen(Board::START_POSITION_FEN).unwrap();
    let mut search = Search::new(board, 64);
    search.quiet_history[5] = 90;
    search.quiet_history[6] = -95;
    search.clear_for_new_search();
    assert_eq!(search.quiet_history[5], 10);
    assert_eq!(search.quiet_history[6], -10);
    assert_eq!(search.quiescence_call_count(), 0);
    search.clear_cache_for_new_game();
    assert_eq!(search.quiet_history[5], 0);
    assert!(search.transposition_table.iter().all(|slot| slot.is_none()));
}

#[test]
fn capacity_of_megabytes() {
    let entry = std::mem::size_of::<Option<encrustant::search::transposition::NodeValue>>();
    assert_eq!(megabytes_to_capacity(1), 1_000_000 / entry);
    assert_eq!(megabytes_to_capacity(8), 8_000_000 / entry);
    assert_eq!(megabytes_to_capacity(0), 0);
}

#[test]
fn depth_limited_search_ends_at_its_depth() {
    let board = Board::from_fen(Board::START_POSITION_FEN).unwrap();
    let mut search = Search::new(board, 1024);
    let (stopped, pondering) = flags();
    let (depth, score, reports) = search.iterative_deepening(&TimeManager::depth_limited(stopped, pondering, None, 3));
    assert_eq!(depth, 3);
    assert_eq!(reports.len(), 3);
    assert_eq!(reports[2].depth, 3);
    assert_eq!(reports[2].best.1, score);
}

#[test]
fn evaluation_is_for_the_side_to_move() {
    let white = Board::from_fen("r1bqkb1r/pppp1ppp/2n2n2/4p3/2B1P3/5N2/PPPP1PPP/RNBQK2R w KQkq - 4 4").unwrap();
    let black = Board::from_fen("r1bqkb1r/pppp1ppp/2n2n2/4p3/2B1P3/5N2/PPPP1PPP/RNBQK2R b KQkq - 4 4").unwrap();
    assert_eq!(Eval::evaluate(&black), -Eval::evaluate(&white));
    let phases = [-10, 81, 114, 174, 430];
    let w = Eval::evaluate_with_parameters(&MIDDLE_GAME_PIECE_SQUARE_TABLES, &END_GAME_PIECE_SQUARE_TABLES, &phases, &white);
    let b = Eval::evaluate_with_parameters(&MIDDLE_GAME_PIECE_SQUARE_TABLES, &END_GAME_PIECE_SQUARE_TABLES, &phases, &black);
    assert_eq!(b, -w);
}

#[test]
fn deepening_steps() {
    let start = Deepening::start();
    assert_eq!(start.depth, 0);
    let e2e4 = EncodedMove(12 | (28 << 6));
    let first = match depth_outcome(start, 30, false, e2e4) {
        DepthOutcome::Completed(next) => next,
        DepthOutcome::Stopped(_) => panic!("expected a completed depth"),
    };
    assert_eq!((first.depth, first.score, first.stability), (1, 30, 0));
    let second = match depth_outcome(first, 25, false, e2e4) {
        DepthOutcome::Completed(next) => next,
        DepthOutcome::Stopped(_) => panic!("expected a completed depth"),
    };
    assert_eq!((second.depth, second.score, second.stability), (2, 25, 1));
    match depth_outcome(second, 99, true, e2e4) {
        DepthOutcome::Stopped(end) => assert_eq!((end.depth, end.score), (3, 25)),
        DepthOutcome::Completed(_) => panic!("expected a stop"),
    }
    match depth_outcome(second, 7, false, EncodedMove(0)) {
        DepthOutcome::Stopped(end) => assert_eq!((end.depth, end.score), (3, 7)),
        DepthOutcome::Completed(_) => panic!("expected a stop"),
    }
    assert!(may_go_deeper(&second, Some(3)));
    assert!(!may_go_deeper(&second, Some(2)));
    assert!(may_go_deeper(&second, None));
}

#[test]
fn best_line_tracking() {
    let a = EncodedMove(12 | (28 << 6));
    let b = EncodedMove(52 | (36 << 6));
    let c = EncodedMove(6 | (21 << 6));
    let none = EncodedMove(0);
    assert_eq!(track_best_line(none, none, &vec![a, b]), (a, b));
    assert_eq!(track_best_line(a, b, &vec![a]), (a, b));
    assert_eq!(track_best_line(a, b, &vec![c]), (c, none));
    assert_eq!(track_best_line(a, b, &vec![]), (none, none));
}

#[test]
fn mirrored_colours_negate_the_table_score() {
    let white_pawn = Board::from_fen("7k/8/8/8/8/8/4P3/K7 w - - 0 1").unwrap();
    let black_pawn = Board::from_fen("k7/4p3/8/8/8/8/8/7K b - - 0 1").unwrap();
    let (middle_game, end_game) = Eval::raw_evaluate(&white_pawn);
    assert_eq!(Eval::raw_evaluate(&black_pawn), (-middle_game, -end_game));
    assert!(middle_game != 0 || end_game != 0);
}

#[test]
fn mirrored_colours_with_the_other_side_to_move_evaluate_the_same() {
    let white_pawn = Board::from_fen("7k/8/8/8/8/8/4P3/K7 w - - 0 1").unwrap();
    let black_pawn = Board::from_fen("k7/4p3/8/8/8/8/8/7K b - - 0 1").unwrap();
    assert_eq!(Eval::evaluate(&white_pawn), Eval::evaluate(&black_pawn));
    let start = Board::from_fen("rnbqkbnr/pppppppp/8/8/4P3/8/PPPP1PPP/RNBQKBNR b KQkq e3 0 1").unwrap();
    let mirrored = Board::from_fen("rnbqkbnr/pppp1ppp/8/4p3/8/8/PPPPPPPP/RNBQKBNR w KQkq e6 0 1").unwrap();
    assert_eq!(Eval::evaluate(&start), Eval::evaluate(&mirrored));
}
