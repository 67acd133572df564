use rust_chess_engine::board::Board;
use rust_chess_engine::search::optimization::TranspositionIntegration;
use rust_chess_engine::transposition_table::{BoundType, TranspositionTable};

#[test]
fn test_tt_store_and_lookup() {
    let mut tt = TranspositionTable::new(16);
    let board = Board::from_fen("rnbqkbnr/pppppppp/8/8/8/8/PPPPPPPP/RNBQKBNR w KQkq - 0 1")
        .expect("Failed to parse FEN");

    tt.store(&board, 3, 0, BoundType::Exact);

    let result = tt.lookup(&mut board.clone(), 3);
    assert!(result.is_some());
    assert_eq!(result.unwrap().bound, BoundType::Exact);
    assert_eq!(result.unwrap().depth, 3);
}

#[test]
fn test_tt_depth_cutoff() {
    let mut tt = TranspositionTable::new(16);
    let board = Board::from_fen("rnbqkbnr/pppppppp/8/8/8/8/PPPPPPPP/RNBQKBNR w KQkq - 0 1")
        .expect("Failed to parse FEN");

    tt.store(&board, 3, 50, BoundType::Exact);

    assert!(tt.lookup(&mut board.clone(), 3).is_some());
    assert!(tt.lookup(&mut board.clone(), 2).is_some());

    tt.reset_stats();
    let result = tt.lookup(&mut board.clone(), 4);
    assert!(result.is_none());
}

#[test]
fn test_tt_zobrist_consistent() {
    let board = Board::from_fen("rnbqkbnr/pppppppp/8/8/8/8/PPPPPPPP/RNBQKBNR w KQkq - 0 1")
        .expect("Failed to parse FEN");

    let hash1 = TranspositionTable::zobrist_hash(&board);
    let hash2 = TranspositionTable::zobrist_hash(&board);

    assert_eq!(hash1, hash2, "Zobrist hash should be consistent");
}

#[test]
fn test_tt_different_positions_different_hashes() {
    let board1 = Board::from_fen("rnbqkbnr/pppppppp/8/8/8/8/PPPPPPPP/RNBQKBNR w KQkq - 0 1")
        .expect("Failed to parse FEN");
    let board2 = Board::from_fen("rnbqkbnr/pppppppp/8/8/4P3/8/PPPP1PPP/RNBQKBNR b KQkq e3 0 1")
        .expect("Failed to parse FEN");

    let hash1 = TranspositionTable::zobrist_hash(&board1);
    let hash2 = TranspositionTable::zobrist_hash(&board2);

    assert_ne!(hash1, hash2, "Different positions should have different hashes");
}

#[test]
fn stats_count_hits_misses_and_entries() {
    let mut tt = TranspositionTable::new(1);
    let board = Board::new();
    tt.store(&board, 2, 10, BoundType::Lower);
    tt.lookup(&board, 1);
    tt.lookup(&board, 5);
    assert_eq!(tt.stats(), (1, 1, 0, 1));
    tt.store(&board, 4, 10, BoundType::Lower);
    assert_eq!(tt.stats(), (1, 1, 1, 1));
    tt.clear();
    assert_eq!(tt.stats().3, 0);
}

#[test]
fn shallower_store_of_current_age_keeps_deeper_entry() {
    let mut tt = TranspositionTable::new(1);
    let board = Board::new();
    tt.store(&board, 5, 10, BoundType::Exact);
    tt.store(&board, 2, 99, BoundType::Upper);
    let e = tt.lookup(&board, 0).unwrap();
    assert_eq!(e.depth, 5);
    assert_eq!(e.score, 10);
}

#[test]
fn side_to_move_changes_hash() {
    let white = Board::new();
    let mut black = Board::new();
    black.turn = rust_chess_engine::board::Color::Black;
    assert_eq!(
        TranspositionTable::zobrist_hash(&white) ^ TranspositionTable::zobrist_hash(&black),
        0x123456789abcdef0u64
    );
}

#[test]
fn probe_respects_bounds() {
    let mut tt = TranspositionTable::new(1);
    let board = Board::new();
    TranspositionIntegration::store_hash(&mut tt, &board, 3, 120, -50, 100);
    assert_eq!(TranspositionIntegration::probe_hash(&mut tt, &board, 3, -50, 100), Some(120));
    assert_eq!(TranspositionIntegration::probe_hash(&mut tt, &board, 3, -50, 200), None);
    assert_eq!(TranspositionIntegration::hash_stats(&tt).0, 2);
}

#[test]
fn stored_score_comes_back_up_to_its_depth() {
    let board = Board::new();
    let mut tt = TranspositionTable::new(4);
    TranspositionIntegration::store_hash(&mut tt, &board, 5, 42, -100, 100);
    for depth in 0..=5u32 {
        assert_eq!(TranspositionIntegration::probe_hash(&mut tt, &board, depth, -100, 100), Some(42));
    }
    assert_eq!(TranspositionIntegration::probe_hash(&mut tt, &board, 6, -100, 100), None);
}
