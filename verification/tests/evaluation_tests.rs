use rust_chess_engine::board::{Board, Color};
use rust_chess_engine::board::pieces::Piece;
use rust_chess_engine::evaluation::{Evaluator, EvaluationMode};
use rust_chess_engine::evaluation::advanced::{KingSafety, PawnStructure, PieceMobility, RookActivity};
use rust_chess_engine::evaluation::material::MaterialEvaluation;
use rust_chess_engine::evaluation::piece_square::PieceSquareEvaluation;

#[test]
fn test_starting_position_near_equal() {
    let board = Board::from_fen("rnbqkbnr/pppppppp/8/8/8/8/PPPPPPPP/RNBQKBNR w KQkq - 0 1")
        .expect("Failed to parse FEN");
    let score = PieceMobility::evaluate(&board)
        + KingSafety::evaluate(&board)
        + RookActivity::evaluate(&board)
        + PawnStructure::evaluate(&board);
    assert!(score.abs() < 200, "startpos should be near equal, got {}", score);
}

#[test]
fn test_mobility_perspective_flips_with_turn() {
    let fen_white = "r1bqkbnr/pppp1ppp/2n5/4p3/4P3/5N2/PPPP1PPP/RNBQKB1R w KQkq - 0 1";
    let fen_black = "r1bqkbnr/pppp1ppp/2n5/4p3/4P3/5N2/PPPP1PPP/RNBQKB1R b KQkq - 0 1";
    let w = Board::from_fen(fen_white).unwrap();
    let b = Board::from_fen(fen_black).unwrap();
    assert_eq!(PieceMobility::evaluate(&w), -PieceMobility::evaluate(&b));
}

#[test]
fn test_pawn_shield_rewards_sheltered_king() {
    let sheltered = "r3k2r/ppp2ppp/2n5/2pp4/2P5/2N2N2/PP2PPPP/R3K2R w KQkq - 0 1";
    let board = Board::from_fen(sheltered).unwrap();
    let white = KingSafety::evaluate_king_safety(
        &board,
        Color::White,
        KingSafety::find_king(&board, Color::White).unwrap(),
    );
    let black = KingSafety::evaluate_king_safety(
        &board,
        Color::Black,
        KingSafety::find_king(&board, Color::Black).unwrap(),
    );
    assert!(white > black, "castled white king should be safer, w={} b={}", white, black);
}

#[test]
fn test_passed_pawn_bonus_is_nonlinear_and_grows_toward_promotion() {
    let near = Board::from_fen("4k3/2P5/8/8/8/8/8/7K w - - 0 1").unwrap();
    let far = Board::from_fen("4k3/8/8/2P5/8/8/8/7K w - - 0 1").unwrap();
    let bonus_near = PawnStructure::passed_pawn_bonus(&near, (1, 2), Piece::WhitePawn);
    let bonus_far = PawnStructure::passed_pawn_bonus(&far, (3, 2), Piece::WhitePawn);
    assert!(
        bonus_near > bonus_far * 2,
        "expected strongly nonlinear growth: c7={} should dominate c5={}",
        bonus_near,
        bonus_far
    );
}

#[test]
fn test_passed_pawn_promotion_with_check_bonus() {
    let with_check = Board::from_fen("4k3/2P5/8/8/8/8/8/7K w - - 0 1").unwrap();
    let no_check = Board::from_fen("8/2P5/8/3k4/8/8/8/7K w - - 0 1").unwrap();
    let bonus_check = PawnStructure::passed_pawn_bonus(&with_check, (1, 2), Piece::WhitePawn);
    let bonus_no_check = PawnStructure::passed_pawn_bonus(&no_check, (1, 2), Piece::WhitePawn);
    assert!(
        bonus_check > bonus_no_check,
        "promotion with check should score higher: {} vs {}",
        bonus_check,
        bonus_no_check
    );
}

#[test]
fn test_edge_passed_pawn_reduced() {
    let edge = Board::from_fen("8/8/8/P2k4/8/8/8/7K w - - 0 1").unwrap();
    let central = Board::from_fen("8/8/8/2Pk4/8/8/8/7K w - - 0 1").unwrap();
    let bonus_edge = PawnStructure::passed_pawn_bonus(&edge, (3, 0), Piece::WhitePawn);
    let bonus_central = PawnStructure::passed_pawn_bonus(&central, (3, 2), Piece::WhitePawn);
    assert!(
        bonus_central > bonus_edge,
        "central passer should outscore edge passer: {} vs {}",
        bonus_central,
        bonus_edge
    );
}

#[test]
fn test_king_danger_surge_with_queen_and_rook_assault() {
    let attacked = Board::from_fen("4k3/8/8/8/8/8/6q1/5rk1 w - - 0 1").unwrap();
    let sheltered = Board::from_fen("r3k3/6q1/8/8/8/5PPP/5PPP/6K1 w - - 0 1").unwrap();
    let danger_attacked = KingSafety::attack_danger(&attacked, (7, 6), Color::White);
    let danger_sheltered = KingSafety::attack_danger(&sheltered, (7, 6), Color::White);
    assert!(
        danger_attacked < danger_sheltered,
        "exposed king should be in grave danger: {} vs {}",
        danger_attacked,
        danger_sheltered
    );
    assert!(danger_attacked < -80, "expected heavy penalty, got {}", danger_attacked);
}

#[test]
fn test_queen_proximity_deepens_danger() {
    let queen_storm = Board::from_fen("4k3/8/8/8/6q1/8/8/6K1 w - - 0 1").unwrap();
    let safe = Board::from_fen("4k3/8/8/8/q7/8/8/6K1 w - - 0 1").unwrap();
    let danger_storm = KingSafety::attack_danger(&queen_storm, (7, 6), Color::White);
    let danger_safe = KingSafety::attack_danger(&safe, (7, 6), Color::White);
    assert!(
        danger_storm < danger_safe,
        "queen proximity should raise danger: {} vs {}",
        danger_storm,
        danger_safe
    );
}

#[test]
fn test_trapped_king_no_escape_squares() {
    let trapped = Board::from_fen("4k3/8/8/8/8/8/4q3/5r1K w - - 0 1").unwrap();
    assert!(
        KingSafety::has_no_escape_squares(&trapped, (7, 7), Color::White),
        "king h1 should have no safe retreat"
    );
}

#[test]
fn test_bishop_pair_bonus() {
    let board = Board::from_fen("2B1k3/2B5/8/8/8/8/8/4K3 w - - 0 1").unwrap();
    assert_eq!(MaterialEvaluation::evaluate(&board), 700);
}

#[test]
fn test_bishop_pair_requires_two_bishops() {
    let one = Board::from_fen("2B1k3/8/8/8/8/8/8/4K3 w - - 0 1").unwrap();
    assert_eq!(MaterialEvaluation::evaluate(&one), 330);
}

#[test]
fn test_starting_position_evaluation() {
    let evaluator = Evaluator::new();
    let board = Board::from_fen("rnbqkbnr/pppppppp/8/8/8/8/PPPPPPPP/RNBQKBNR w KQkq - 0 1")
        .expect("Failed to parse FEN");
    let score = evaluator.evaluate(&board);
    assert!(score.abs() < 10000);
}

#[test]
fn test_hand_crafted_evaluation() {
    let board = Board::from_fen("rnbqkbnr/pppppppp/8/8/8/8/PPPPPPPP/RNBQKBNR w KQkq - 0 1")
        .expect("Failed to parse FEN");
    let score = Evaluator::hand_crafted_evaluate(&board);
    assert!(score.abs() < 10000);
}

#[test]
fn test_king_endgame_table_centralizes() {
    assert!(
        PieceSquareEvaluation::white_king_endgame_table()[4][4]
            > PieceSquareEvaluation::white_king_endgame_table()[7][7],
        "endgame king table should reward centralization over the corner"
    );
}

#[test]
fn test_pawn_advanced_scores_higher() {
    assert!(
        PieceSquareEvaluation::white_pawn_table()[1][1] > PieceSquareEvaluation::white_pawn_table()[4][1]
    );
}

#[test]
fn material_count_of_start_position() {
    let board = Board::new();
    assert_eq!(MaterialEvaluation::material_count(&board), (4000, 4000));
    assert_eq!(MaterialEvaluation::piece_value(Piece::BlackQueen), 900);
}

#[test]
fn material_is_seen_from_side_to_move() {
    let board = Board::from_fen("4k3/8/8/8/8/8/8/3QK3 b - - 0 1").unwrap();
    assert_eq!(MaterialEvaluation::evaluate(&board), -900);
}

#[test]
fn test_game_phase_detects_endgame() {
    // Kings only: no non-pawn material left (the phase counts in units of 1/6400).
    let board = Board::from_fen("8/8/8/8/8/8/8/4K2k w - - 0 1").unwrap();
    assert!(PieceSquareEvaluation::game_phase(&board) < 64);
    assert_eq!(PieceSquareEvaluation::game_phase(&board), 0);
}

#[test]
fn test_phase_blend_taper() {
    assert_eq!(PieceSquareEvaluation::blend(20, 40, 0), 40);
    assert_eq!(PieceSquareEvaluation::blend(20, 40, 6400), 20);
    assert_eq!(PieceSquareEvaluation::blend(20, 40, 3200), 30);
}

#[test]
fn terminal_score_mate_and_draw() {
    let mate = Board::from_fen("rnb1kbnr/pppp1ppp/8/4p3/6Pq/5P2/PPPPP2P/RNBQKBNR w KQkq - 1 3").unwrap();
    assert_eq!(Evaluator::terminal_score(&mate), -100000);
    let stale = Board::from_fen("7k/5Q2/6K1/8/8/8/8/8 b - - 0 1").unwrap();
    assert_eq!(Evaluator::terminal_score(&stale), 0);
}

#[test]
fn evaluator_modes_combine_network_score() {
    let board = Board::new();
    let hc = Evaluator::hand_crafted_evaluate(&board);
    let mut e = Evaluator::with_nnue(7u8);
    assert_eq!(e.evaluate_with_accumulator(&board, 500), 500);
    e.set_mode(EvaluationMode::Hybrid);
    assert_eq!(e.evaluate_with_accumulator(&board, 500), (hc * 3 + 500 * 7) / 10);
    e.disable_nnue();
    assert_eq!(e.mode, EvaluationMode::Handcrafted);
    e.enable_nnue();
    assert_eq!(e.mode, EvaluationMode::NNUE);
    let plain = Evaluator::new();
    assert_eq!(plain.evaluate_with_accumulator(&board, 500), hc);
}

#[test]
fn rook_on_open_seventh_scores() {
    let board = Board::from_fen("4k3/R7/8/8/8/8/8/4K3 w - - 0 1").unwrap();
    assert_eq!(RookActivity::evaluate(&board), 65);
}

#[test]
fn isolated_doubled_pawns_are_penalised() {
    let board = Board::from_fen("4k3/8/8/8/8/P7/P7/4K3 w - - 0 1").unwrap();
    assert_eq!(PawnStructure::evaluate(&board), -15);
}
