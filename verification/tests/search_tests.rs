use rust_chess_engine::board::{Board, ChessMove};
use rust_chess_engine::board::pieces::Piece;
use rust_chess_engine::evaluation::Evaluator;
use rust_chess_engine::search::optimization::futility::{FutilityPruning, ReverseFutilityPruning};
use rust_chess_engine::search::optimization::lmr::LateMoveReductions;
use rust_chess_engine::search::optimization::null_move::NullMovePruning;

use rust_chess_engine::search::optimization::see::StaticExchangeEvaluation;
use rust_chess_engine::search::qnode::{QNode, QSearch};
use rust_chess_engine::search::optimization::quiescence::QuiescenceSearch;
use rust_chess_engine::transposition_table::TranspositionTable;
use rust_chess_engine::move_ordering::MoveOrderer;
use rust_chess_engine::search::optimization::alphabeta::AlphaBeta;
use rust_chess_engine::search::optimization::aspiration::AspirationWindows;
use rust_chess_engine::search::optimization::pvs::PrincipalVariationSearch;
use rust_chess_engine::search::optimization::IterativeDeepening;
use rust_chess_engine::search::optimization::iterative::merge_thread_results;
use rust_chess_engine::search::Searcher;
use rust_chess_engine::nnue::selfplay::{adjudicate, game_over, GameOutcome, MatchTally};
use rust_chess_engine::nnue::selfplay::{game_action, random_pick, search_verdict, GameAction, SearchVerdict};
use std::sync::atomic::AtomicBool;
use std::sync::Arc;

#[test]
fn test_qnode_creation() {
    let qnode = QNode::new(-1000, 1000, 0);
    assert_eq!(qnode.alpha, -1000);
    assert_eq!(qnode.beta, 1000);
    assert_eq!(qnode.ply, 0);
}

#[test]
fn test_qsearch_starting_position() {
    let board = Board::new();
    let evaluator = Evaluator::new();
    let mut tt = TranspositionTable::new(1);
    let mut nodes = 0;

    let qsearch = QSearch::new();
    let score = qsearch.search(&board, -10000, 10000, &evaluator, &mut tt, &mut nodes);

    assert!(score.abs() < 10000);
    assert!(nodes > 0);
}

#[test]
fn test_qnode_capture_generation() {
    let board = Board::from_fen("rnbqkbnr/pppp1ppp/8/4p3/4P3/8/PPPP1PPP/RNBQKBNR w KQkq - 0 2")
        .expect("Valid FEN");
    let qnode = QNode::new(-1000, 1000, 0);
    let captures = qnode.generate_capture_moves(&board);
    assert!(captures.is_empty());
}

#[test]
fn test_qnode_with_captures() {
    let board = Board::from_fen("rnbqkbnr/pppp1ppp/8/4p3/3PP3/8/PPP2PPP/RNBQKBNR b KQkq d3 0 2")
        .expect("Valid FEN");
    let qnode = QNode::new(-1000, 1000, 0);
    let captures = qnode.generate_capture_moves(&board);
    assert!(!captures.is_empty(), "Should have at least one capture (exd4)");
}

#[test]
fn test_piece_values() {
    assert_eq!(QNode::piece_value(Piece::WhitePawn), 100);
    assert_eq!(QNode::piece_value(Piece::WhiteKnight), 320);
    assert_eq!(QNode::piece_value(Piece::WhiteBishop), 330);
    assert_eq!(QNode::piece_value(Piece::WhiteRook), 500);
    assert_eq!(QNode::piece_value(Piece::WhiteQueen), 900);
    assert_eq!(QNode::piece_value(Piece::WhiteKing), 20000);
}

#[test]
fn captures_come_best_first() {
    let board = Board::from_fen("4k3/8/8/2q1r3/3P4/8/8/7K w - - 0 1").unwrap();
    let qnode = QNode::new(-1000, 1000, 0);
    let captures = qnode.generate_capture_moves(&board);
    assert_eq!(captures.len(), 2);
    assert_eq!(captures[0].to, (3, 2));
    assert_eq!(captures[1].to, (3, 4));
}

#[test]
fn quiet_position_stands_pat() {
    let board = Board::new();
    let evaluator = Evaluator::new();
    let mut tt = TranspositionTable::new(1);
    let mut nodes = 0u64;
    let static_eval = evaluator.evaluate(&board);
    let score = QSearch::new().search(&board, -10000, 10000, &evaluator, &mut tt, &mut nodes);
    assert_eq!(score, static_eval);
    assert_eq!(nodes, 1);
}

#[test]
fn winning_capture_raises_the_score() {
    let board = Board::from_fen("4k3/8/8/3q4/4P3/8/8/4K3 w - - 0 1").unwrap();
    let evaluator = Evaluator::new();
    let mut tt = TranspositionTable::new(1);
    let mut nodes = 0u64;
    let static_eval = evaluator.evaluate(&board);
    let score = QSearch::new().search(&board, -100000, 100000, &evaluator, &mut tt, &mut nodes);
    assert!(score > static_eval + 500);
    assert!(nodes >= 2);
}

#[test]
fn exchange_values() {
    let board = Board::from_fen("4k3/8/8/3q4/4P3/8/8/4K3 w - - 0 1").unwrap();
    let qnode = QNode::new(0, 0, 0);
    let pawn_takes_queen = ChessMove::new(4, 4, 3, 3);
    assert_eq!(qnode.static_exchange_evaluation(&board, &pawn_takes_queen), 900);
    assert_eq!(StaticExchangeEvaluation::evaluate(&board, pawn_takes_queen), 9);
    assert!(StaticExchangeEvaluation::is_good_capture(&board, pawn_takes_queen));
    assert!(!StaticExchangeEvaluation::is_bad_capture(&board, pawn_takes_queen));
}

#[test]
fn futility_rules() {
    let f = FutilityPruning::new();
    assert!(f.can_prune(1, 500, 501, 300));
    assert!(!f.can_prune(1, 500, 700, 300));
    assert!(!f.can_prune(4, 500, 501, 0));
    assert!(f.should_prune_move(2, 500, 100, 100));
    let r = ReverseFutilityPruning::new();
    assert!(r.can_prune(2, 100, 700));
    assert!(!r.can_prune(5, 100, 7000));
}

#[test]
fn late_move_reduction_table() {
    let l = LateMoveReductions::new();
    assert_eq!(l.get_reduction(2, 10, false), 0);
    assert_eq!(l.get_reduction(10, 10, false), 2);
    assert_eq!(l.get_reduction(10, 10, true), 1);
    assert_eq!(l.get_reduction(100, 100, false), 7);
    assert!(l.should_reduce(3, 4, true, 0));
    assert!(!l.should_reduce(3, 3, true, 0));
    assert!(!l.should_reduce(3, 5, false, -501));
}

#[test]
fn null_move_needs_depth_and_no_check() {
    let n = NullMovePruning::new();
    let board = Board::new();
    assert!(n.can_prune(&board, 3, 0, 10));
    assert!(!n.can_prune(&board, 1, 0, 10));
    assert!(!n.can_prune(&board, 3, 20, 10));
    let a = AspirationWindows::new();
    assert_eq!(a.window_size, 50);
}

#[test]
fn plain_quiescence_stands_pat_without_captures() {
    let board = Board::new();
    let mut tt = TranspositionTable::new(1);
    let static_eval = Evaluator::hand_crafted_evaluate(&board);
    assert_eq!(QuiescenceSearch::search(&board, -10000, 10000, &mut tt), static_eval);
    assert_eq!(QuiescenceSearch::search(&board, -10000, static_eval, &mut tt), static_eval);
    assert_eq!(QuiescenceSearch::search(&board, -10000, static_eval - 5, &mut tt), static_eval - 5);
}

#[test]
fn plain_quiescence_takes_the_hanging_queen() {
    let board = Board::from_fen("4k3/8/8/3q4/4P3/8/8/4K3 w - - 0 1").unwrap();
    let mut tt = TranspositionTable::new(1);
    let static_eval = Evaluator::hand_crafted_evaluate(&board);
    let score = QuiescenceSearch::search(&board, -100000, 100000, &mut tt);
    let mut after = board;
    after.execute_move((4, 4), (3, 3), rust_chess_engine::board::MoveType::Normal).unwrap();
    let reply = Evaluator::hand_crafted_evaluate(&after);
    assert_eq!(score, -reply);
    assert!(score > static_eval + 500);
    assert!(QuiescenceSearch::is_quiet(&board, ChessMove::new(7, 4, 7, 3)));
    assert!(!QuiescenceSearch::is_quiet(&board, ChessMove::new(4, 4, 3, 3)));
}

#[test]
fn alphabeta_depth_zero_is_the_quiescence_search() {
    let mut board = Board::from_fen("4k3/8/8/3q4/4P3/8/8/4K3 w - - 0 1").unwrap();
    let mut tt = TranspositionTable::new(1);
    let mut orderer = MoveOrderer::new(8);
    let mut ab = AlphaBeta::new();
    let score = ab.search(&mut board, 0, -100000, 100000, &mut tt, &mut orderer);
    let mut tt2 = TranspositionTable::new(1);
    assert_eq!(score, QuiescenceSearch::search(&board, -100000, 100000, &mut tt2));
    assert_eq!(ab.nodes, 0);
    assert_eq!(ab.qnodes, 2);
    assert!(!ab.is_aborted);
}

#[test]
fn alphabeta_finds_the_back_rank_mate() {
    let mut board = Board::from_fen("6k1/5ppp/8/8/8/8/8/R5K1 w - - 0 1").unwrap();
    let mut tt = TranspositionTable::new(1);
    let mut orderer = MoveOrderer::new(8);
    let mut ab = AlphaBeta::new();
    let score = ab.search(&mut board, 2, -300000, 300000, &mut tt, &mut orderer);
    assert_eq!(score, 99981);
    assert_eq!(ab.best_move_at_root, Some(ChessMove::new(7, 0, 0, 0)));
    assert!(!ab.is_aborted);
    assert!(ab.nodes > 1);
}

#[test]
fn alphabeta_stops_at_the_node_limit_and_on_the_signal() {
    let mut board = Board::new();
    let mut tt = TranspositionTable::new(1);
    let mut orderer = MoveOrderer::new(8);
    let mut ab = AlphaBeta::new();
    ab.node_limit = Some(1);
    assert_eq!(ab.search(&mut board, 3, -300000, 300000, &mut tt, &mut orderer), 0);
    assert!(ab.is_aborted);
    assert_eq!(ab.nodes, 1);
    assert_eq!(ab.total_nodes(), 1);

    let mut ab2 = AlphaBeta::new();
    ab2.set_stop_flag(Arc::new(AtomicBool::new(true)));
    assert_eq!(ab2.search(&mut board, 3, -300000, 300000, &mut tt, &mut orderer), 0);
    assert!(ab2.is_aborted);
    assert_eq!(ab2.nodes, 0);
}

#[test]
fn aspiration_widens_until_the_score_fits() {
    let mut board = Board::from_fen("6k1/5ppp/8/8/8/8/8/R5K1 w - - 0 1").unwrap();
    let mut tt = TranspositionTable::new(1);
    let mut orderer = MoveOrderer::new(8);
    let mut ab = AlphaBeta::new();
    let mut asp = AspirationWindows::new();
    let score = asp.search(&mut ab, &mut board, 4, 0, &mut tt, &mut orderer);
    assert_eq!(score, 99983);
    assert_eq!(asp.re_searches, 1);
    assert_eq!(ab.best_move_at_root, Some(ChessMove::new(7, 0, 0, 0)));

    let mut ab2 = AlphaBeta::new();
    let mut tt2 = TranspositionTable::new(1);
    let shallow = asp.search(&mut ab2, &mut board, 2, 0, &mut tt2, &mut orderer);
    assert_eq!(shallow, 99981);
    assert_eq!(asp.re_searches, 0);
}

#[test]
fn selfplay_decisions() {
    let mated = Board::from_fen("R5k1/5ppp/8/8/8/8/8/6K1 b - - 1 1").unwrap();
    assert_eq!(game_over(&mated), Some(GameOutcome::WhiteWins));
    let stalemate = Board::from_fen("7k/5Q2/6K1/8/8/8/8/8 b - - 0 1").unwrap();
    assert_eq!(game_over(&stalemate), Some(GameOutcome::Draw));
    let fifty = Board::from_fen("4k3/8/8/8/8/8/8/4K3 w - - 100 80").unwrap();
    assert_eq!(game_over(&fifty), Some(GameOutcome::Draw));
    assert_eq!(game_over(&Board::new()), None);
    assert_eq!(adjudicate(rust_chess_engine::board::Color::Black, -3000, 2500), Some(GameOutcome::WhiteWins));
    assert_eq!(adjudicate(rust_chess_engine::board::Color::White, -3000, 2500), Some(GameOutcome::BlackWins));
    assert_eq!(adjudicate(rust_chess_engine::board::Color::White, 2500, 2500), None);
    let mut tally = MatchTally::new();
    tally.record(GameOutcome::WhiteWins, true);
    tally.record(GameOutcome::WhiteWins, false);
    tally.record(GameOutcome::Draw, false);
    tally.record(GameOutcome::BlackWins, false);
    assert_eq!((tally.a_wins, tally.b_wins, tally.draws), (2, 1, 1));
    assert_eq!(tally.total(), 4);
}

#[test]
fn pvs_agrees_with_alphabeta_on_the_mate() {
    let mut board = Board::from_fen("6k1/5ppp/8/8/8/8/8/R5K1 w - - 0 1").unwrap();
    let mut tt = TranspositionTable::new(1);
    let mut orderer = MoveOrderer::new(8);
    let mut pvs = PrincipalVariationSearch::new();
    let score = pvs.search(&mut board, 2, -300000, 300000, &mut tt, &mut orderer);
    assert_eq!(score, 99981);
    assert!(pvs.full_window_searches >= 1);
    assert!(pvs.nodes > 1);

    let mut quiet = Board::from_fen("4k3/8/8/3q4/4P3/8/8/4K3 w - - 0 1").unwrap();
    let mut tt2 = TranspositionTable::new(1);
    let mut pvs2 = PrincipalVariationSearch::new();
    let q = pvs2.search(&mut quiet, 0, -100000, 100000, &mut tt2, &mut orderer);
    let mut tt3 = TranspositionTable::new(1);
    assert_eq!(q, QuiescenceSearch::search(&quiet, -100000, 100000, &mut tt3));
    assert_eq!(pvs2.qnodes, 2);
}

#[test]
fn iterative_deepening_finds_the_mate_and_reports_depth() {
    let mut board = Board::from_fen("6k1/5ppp/8/8/8/8/8/R5K1 w - - 0 1").unwrap();
    let mut id = IterativeDeepening::new();
    let best = id.search(&mut board, 2, None);
    assert_eq!(best, Some(ChessMove::new(7, 0, 0, 0)));
    assert_eq!(id.depth_achieved, 2);
    assert_eq!(id.best_score, 99981);
    assert_eq!(board.to_fen(), "6k1/5ppp/8/8/8/8/8/R5K1 w - - 0 1");
}

#[test]
fn iterative_deepening_without_moves_returns_none() {
    let mut mated = Board::from_fen("R5k1/5ppp/8/8/8/8/8/6K1 b - - 1 1").unwrap();
    let mut id = IterativeDeepening::new();
    assert_eq!(id.search(&mut mated, 3, None), None);
    let evaluator = Evaluator::new();
    assert_eq!(id.search_with_node_limit(&mut mated, 1000, &evaluator), None);
}

#[test]
fn node_limited_search_returns_a_legal_move() {
    let mut board = Board::new();
    let mut id = IterativeDeepening::new();
    let evaluator = Evaluator::new();
    let best = id.search_with_node_limit(&mut board, 500, &evaluator).unwrap();
    assert!(board.generate_moves().contains(&best));
    assert!(id.depth_achieved >= 1);
}

#[test]
fn the_deepest_thread_result_wins() {
    let a = ChessMove::new(6, 4, 4, 4);
    let b = ChessMove::new(6, 3, 4, 3);
    let c = ChessMove::new(7, 6, 5, 5);
    let first = ChessMove::new(6, 0, 5, 0);
    let results = vec![(2, Some(a), 10), (3, Some(b), 20), (3, Some(c), 30), (1, Some(first), 5)];
    assert_eq!(merge_thread_results(&results, first), (Some(b), 20, 3));
    assert_eq!(merge_thread_results(&Vec::new(), first), (Some(first), 0, 0));
}

#[test]
fn test_searcher_creation() {
    let searcher = Searcher::new();
    assert_eq!(searcher.stats.nodes, 0);
}

#[test]
fn test_search_fixed_nodes() {
    let mut searcher = Searcher::new();
    let mut board = Board::new();
    let (best_move, _score) = searcher.search_fixed_nodes(&mut board, 500);
    assert!(best_move.is_some());
    let total_nodes = searcher.stats.nodes + searcher.stats.qnodes;
    assert!(total_nodes >= 50, "Should search some nodes, got {}", total_nodes);
    assert!(total_nodes <= 1200, "Should terminate close to node limit, got {}", total_nodes);
}

#[test]
fn searcher_prefers_the_book_move() {
    let mut searcher = Searcher::new();
    let lines = vec!["6k1/5ppp/8/8/8/8/8/R5K1 w - - 0 1; bm Ra2;".to_string()];
    assert_eq!(searcher.load_opening_book_lines(&lines), Ok(1));
    let mut board = Board::from_fen("6k1/5ppp/8/8/8/8/8/R5K1 w - - 0 1").unwrap();
    let (mv, depth) = searcher.search_with_time_management(&mut board, 3, 1000);
    assert_eq!(mv, Some(ChessMove::new(7, 0, 6, 0)));
    assert_eq!(depth, 1);
    assert_eq!(searcher.stats.search_depth, 1);
    assert_eq!(searcher.find_best_move(&mut board, 2), Some(ChessMove::new(7, 0, 6, 0)));
    let mut other = Board::new();
    let best = searcher.find_best_move(&mut other, 2).unwrap();
    assert!(other.generate_moves().contains(&best));
    assert_eq!(searcher.stats.search_depth, 2);
}

#[test]
fn timed_search_with_room_finds_the_mate() {
    let mut board = Board::from_fen("6k1/5ppp/8/8/8/8/8/R5K1 w - - 0 1").unwrap();
    let mut id = IterativeDeepening::new();
    let best = id.search(&mut board, 2, Some(600_000));
    assert_eq!(best, Some(ChessMove::new(7, 0, 0, 0)));
    assert_eq!(id.depth_achieved, 2);
    assert_eq!(id.best_score, 99981);
}

#[test]
fn game_steps_follow_the_position_and_the_search() {
    let start = Board::new();
    assert_eq!(game_action(&start, 0, 6), GameAction::PickRandom);
    assert_eq!(game_action(&start, 6, 6), GameAction::Search);
    let mated = Board::from_fen("R5k1/5ppp/8/8/8/8/8/6K1 b - - 1 1").unwrap();
    assert_eq!(game_action(&mated, 10, 6), GameAction::Finish(GameOutcome::WhiteWins));
    let full = Board::from_fen("4k3/8/8/8/8/8/8/4K3 w - - 0 4294967295").unwrap();
    assert_eq!(game_action(&full, 10, 6), GameAction::Stop);
    let moves = start.generate_moves();
    assert_eq!(random_pick(&start, 0), Some(moves[0]));
    assert_eq!(random_pick(&start, moves.len() + 3), Some(moves[3]));
    assert_eq!(random_pick(&mated, 5), None);
    assert!(matches!(search_verdict(&start, None, 10, 2500), SearchVerdict::Play(mv) if mv == moves[0]));
    assert!(matches!(search_verdict(&start, Some(moves[5]), 10, 2500), SearchVerdict::Play(mv) if mv == moves[5]));
    assert!(matches!(search_verdict(&start, Some(moves[5]), -3000, 2500), SearchVerdict::Finish(GameOutcome::BlackWins)));
    assert!(matches!(search_verdict(&mated, None, 0, 2500), SearchVerdict::Stop));
}
