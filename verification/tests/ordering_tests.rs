use rust_chess_engine::board::{Board, ChessMove};
use rust_chess_engine::board::pieces::Piece;
use rust_chess_engine::move_ordering::MoveOrderer;
use rust_chess_engine::search::optimization::MoveOrderingStrategies;

#[test]
fn test_killer_move_recording() {
    let mut orderer = MoveOrderer::new(6);
    let mv = ChessMove::new(1, 1, 2, 2);

    orderer.record_killer(2, mv);
    let killers = orderer.get_killers(2);
    assert_eq!(killers.len(), 1);
    assert_eq!(killers[0], mv);

    orderer.record_killer(2, mv);
    assert_eq!(orderer.get_killers(2).len(), 1);
}

#[test]
fn test_killer_move_shift() {
    let mut orderer = MoveOrderer::new(6);
    let mv1 = ChessMove::new(1, 1, 2, 2);
    let mv2 = ChessMove::new(3, 3, 4, 4);

    orderer.record_killer(2, mv1);
    orderer.record_killer(2, mv2);

    let killers = orderer.get_killers(2);
    assert_eq!(killers.len(), 2);
    assert_eq!(killers[0], mv2);
    assert_eq!(killers[1], mv1);
}

#[test]
fn test_history_heuristic() {
    let mut orderer = MoveOrderer::new(6);
    let mv = ChessMove::new(1, 1, 2, 2);

    assert_eq!(orderer.get_history_score(mv), 0);

    orderer.update_history(mv, 3);
    let score = orderer.get_history_score(mv);
    assert_eq!(score, 9);
}

#[test]
fn test_mvv_lva_scoring() {
    let board = Board::from_fen("rnbqkbnr/pppppppp/8/8/8/8/PPPPPPPP/RNBQKBNR w KQkq - 0 1")
        .expect("Failed to parse FEN");

    let pawn_captures_pawn = MoveOrderer::mvv_lva_score(ChessMove::new(1, 0, 2, 1), Piece::BlackPawn, &board);
    assert_eq!(pawn_captures_pawn, 9);

    let pawn_captures_queen = MoveOrderer::mvv_lva_score(ChessMove::new(1, 0, 0, 3), Piece::BlackQueen, &board);
    assert_eq!(pawn_captures_queen, 89);

    let queen_captures_pawn = MoveOrderer::mvv_lva_score(ChessMove::new(0, 3, 1, 0), Piece::BlackPawn, &board);
    assert_eq!(queen_captures_pawn, 1);
}

#[test]
fn test_move_sorting() {
    let board = Board::from_fen("rnbqkbnr/pppppppp/8/8/8/8/PPPPPPPP/RNBQKBNR w KQkq - 0 1")
        .expect("Failed to parse FEN");

    let orderer = MoveOrderer::new(6);
    let mut moves = vec![
        ChessMove::new(1, 0, 2, 0),
        ChessMove::new(0, 1, 2, 2),
        ChessMove::new(0, 0, 1, 0),
    ];

    orderer.sort_moves(&mut moves, &board, 1, None);

    assert_eq!(moves.len(), 3);
}

#[test]
fn test_clear_resets_state() {
    let mut orderer = MoveOrderer::new(6);
    let mv = ChessMove::new(1, 1, 2, 2);

    orderer.record_killer(2, mv);
    orderer.update_history(mv, 3);

    orderer.clear();

    assert_eq!(orderer.get_killers(2).len(), 0);
    assert_eq!(orderer.get_history_score(mv), 0);
}

#[test]
fn sort_puts_hash_move_then_capture_then_killer_first() {
    let board = Board::from_fen("4k3/8/8/3p4/4P3/8/8/4K3 w - - 0 1").unwrap();
    let mut orderer = MoveOrderer::new(6);
    let quiet = ChessMove::new(4, 4, 3, 4);
    let capture = ChessMove::new(4, 4, 3, 3);
    let king = ChessMove::new(7, 4, 7, 3);
    let hash = ChessMove::new(7, 4, 6, 4);
    orderer.record_killer(1, king);
    let mut moves = vec![quiet, king, capture, hash];
    orderer.sort_moves(&mut moves, &board, 1, Some(hash));
    assert_eq!(moves, vec![hash, king, capture, quiet]);
}

#[test]
fn equal_scores_keep_their_order() {
    let board = Board::new();
    let orderer = MoveOrderer::new(4);
    let a = ChessMove::new(6, 0, 5, 0);
    let b = ChessMove::new(6, 1, 5, 1);
    let c = ChessMove::new(6, 2, 5, 2);
    let mut moves = vec![a, b, c];
    orderer.sort_moves(&mut moves, &board, 1, None);
    assert_eq!(moves, vec![a, b, c]);
}

#[test]
fn killers_beyond_depth_limit_are_ignored() {
    let mut orderer = MoveOrderer::new(2);
    orderer.record_killer(3, ChessMove::new(1, 1, 2, 2));
    assert!(orderer.get_killers(3).is_empty());
}

#[test]
fn strategies_forward_to_orderer() {
    let mut orderer = MoveOrderer::new(4);
    let mv = ChessMove::new(6, 4, 4, 4);
    MoveOrderingStrategies::record_killer_move(&mut orderer, 1, mv);
    assert_eq!(MoveOrderingStrategies::apply_killer_moves(&orderer, 1), vec![mv]);
    MoveOrderingStrategies::update_history_heuristic(&mut orderer, mv, 4);
    assert_eq!(MoveOrderingStrategies::get_history_score(&orderer, mv), 16);
    MoveOrderingStrategies::clear_ordering_state(&mut orderer);
    assert_eq!(MoveOrderingStrategies::get_history_score(&orderer, mv), 0);
}
