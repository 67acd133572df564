use rust_chess_engine::board::{Board, ChessMove, Color, GameStatus, MoveType};
use rust_chess_engine::board::pieces::Piece;

const START: &str = "rnbqkbnr/pppppppp/8/8/8/8/PPPPPPPP/RNBQKBNR w KQkq - 0 1";

#[test]
fn test_perft_starting_position_depth_1() {
    let board = Board::from_fen("rnbqkbnr/pppppppp/8/8/8/8/PPPPPPPP/RNBQKBNR w KQkq - 0 1")
        .expect("Failed to parse FEN");
    let result = board.perft(1);
    assert_eq!(result.nodes, 20, "Starting position depth 1 should have 20 moves");
}

#[test]
fn test_perft_starting_position_depth_2() {
    let board = Board::from_fen("rnbqkbnr/pppppppp/8/8/8/8/PPPPPPPP/RNBQKBNR w KQkq - 0 1")
        .expect("Failed to parse FEN");
    let result = board.perft(2);
    assert_eq!(result.nodes, 400, "Starting position depth 2 should have 400 nodes");
}

#[test]
fn test_perft_kiwipete_depth_1() {
    let board = Board::from_fen("r3k2r/p1ppqpb1/bn2pnp1/3PN3/1p2P3/2N2Q1p/PPPBBPPP/R3K2R w KQkq - 0 1")
        .expect("Failed to parse FEN");
    let result = board.perft(1);
    assert_eq!(result.nodes, 48, "Kiwipete depth 1 should have 48 moves");
}

#[test]
fn fen_roundtrip_of_start_position() {
    let board = Board::from_fen(START).unwrap();
    assert_eq!(board.to_fen(), START);
}

#[test]
fn new_board_equals_start_fen() {
    let a = Board::new();
    let b = Board::from_fen(START).unwrap();
    assert_eq!(a.to_fen(), b.to_fen());
}

#[test]
fn fen_with_wrong_field_count_is_rejected() {
    assert!(Board::from_fen("8/8/8/8/8/8/8/8 w - -").is_err());
}

#[test]
fn make_move_pawn_double_step_sets_en_passant() {
    let mut board = Board::new();
    assert!(board.make_move("e2", "e4").is_ok());
    assert_eq!(board.en_passant_square, Some((5, 4)));
    assert_eq!(board.turn, Color::Black);
    assert_eq!(board.piece_at(4, 4), Piece::WhitePawn);
    assert_eq!(board.piece_at(6, 4), Piece::Empty);
}

#[test]
fn make_move_from_empty_square_fails() {
    let mut board = Board::new();
    assert!(board.make_move("e4", "e5").is_err());
    assert!(board.make_move("z9", "e5").is_err());
}

#[test]
fn start_position_status_and_moves() {
    let board = Board::new();
    assert_eq!(board.generate_moves().len(), 20);
    assert_eq!(board.game_status(), GameStatus::Playing);
    assert!(!board.is_check());
}

#[test]
fn fools_mate_is_checkmate() {
    let board = Board::from_fen("rnb1kbnr/pppp1ppp/8/4p3/6Pq/5P2/PPPPP2P/RNBQKBNR w KQkq - 1 3").unwrap();
    assert!(board.is_checkmate());
    assert_eq!(board.game_status(), GameStatus::Checkmate);
}

#[test]
fn stalemate_is_detected() {
    let board = Board::from_fen("7k/5Q2/6K1/8/8/8/8/8 b - - 0 1").unwrap();
    assert!(board.is_stalemate());
}

#[test]
fn square_text_roundtrip() {
    assert_eq!(Board::square_to_string_public((7, 0)), "a1");
    assert_eq!(Board::parse_square_public("h8").unwrap(), (0, 7));
    assert!(Board::parse_square_public("i1").is_err());
}

#[test]
fn chess_move_constructors() {
    let m = ChessMove::promotion(1, 0, 0, 0, Piece::WhiteQueen);
    assert_eq!(m.move_type, MoveType::Promotion(Piece::WhiteQueen));
    let c = ChessMove::castling(7, 4, 7, 6);
    assert_eq!(c.move_type, MoveType::Castling);
}

#[test]
fn perft_divide_sums_to_perft() {
    let board = Board::new();
    let list = board.perft_divide_list(2);
    let total: u64 = list.iter().map(|(_, n)| *n).sum();
    assert_eq!(list.len(), 20);
    assert_eq!(total, 400);
}

#[test]
fn pinned_bishop_has_no_legal_moves() {
    let board = Board::from_fen("4k3/4r3/8/8/8/8/4B3/4K3 w - - 0 1").unwrap();
    let moves = board.generate_moves();
    assert!(moves.iter().all(|m| m.from != (6, 4)));
    assert_eq!(moves.len(), 4);
}

#[test]
fn perft_divide_map_names_each_first_move() {
    let board = Board::new();
    let map = board.perft_divide(2);
    assert_eq!(map.len(), 20);
    assert_eq!(map.get("e2e4"), Some(&20));
    assert_eq!(map.get("g1f3"), Some(&20));
    assert_eq!(map.values().sum::<u64>(), 400);
    let promo = Board::from_fen("8/P7/8/8/8/8/8/k6K w - - 0 1").unwrap();
    let pm = promo.perft_divide(1);
    assert_eq!(pm.get("a7a8"), Some(&1));
}

#[test]
fn perft_counts_every_legal_move_with_its_own_kind() {
    let ep = Board::from_fen("4k3/8/8/3pP3/8/8/8/4K3 w - d6 0 1").unwrap();
    assert_eq!(ep.perft(1).nodes, ep.generate_moves().len() as u64);
    assert_eq!(ep.perft(1).nodes, 7);
    assert_eq!(ep.perft(1).en_passants, 1);
    let promo = Board::from_fen("8/P7/8/8/8/8/8/k6K w - - 0 1").unwrap();
    assert_eq!(promo.perft(1).nodes, 7);
    assert_eq!(promo.perft(1).promotions, 4);
    let pos3 = Board::from_fen("8/2p5/3p4/KP5r/1R3p1k/8/4P1P1/8 w - - 0 1").unwrap();
    assert_eq!(pos3.perft(3).nodes, 2812);
}

#[test]
fn generated_moves_start_from_the_movers_pieces() {
    let fens = [
        "rnbqkbnr/pppppppp/8/8/8/8/PPPPPPPP/RNBQKBNR w KQkq - 0 1",
        "r3k2r/p1ppqpb1/bn2pnp1/3PN3/1p2P3/2N2Q1p/PPPBBPPP/R3K2R b KQkq - 0 1",
        "4k3/8/8/3pP3/8/8/8/4K3 w - d6 0 1",
    ];
    for fen in fens.iter() {
        let board = Board::from_fen(fen).unwrap();
        let moves = board.generate_moves();
        assert!(!moves.is_empty());
        for (i, a) in moves.iter().enumerate() {
            for b in moves.iter().skip(i + 1) {
                assert_ne!(a, b);
            }
        }
        for mv in moves.iter() {
            let piece = board.squares[mv.from.0][mv.from.1];
            match board.turn {
                Color::White => assert!(rust_chess_engine::board::pieces::is_white(piece)),
                Color::Black => assert!(rust_chess_engine::board::pieces::is_black(piece)),
            }
        }
        assert_eq!(board.to_fen(), *fen);
    }
}

#[test]
fn written_fen_reads_back_as_the_same_position() {
    let fens = [
        "rnbqkbnr/pppppppp/8/8/4P3/8/PPPP1PPP/RNBQKBNR b KQkq e3 0 1",
        "r3k2r/p1ppqpb1/bn2pnp1/3PN3/1p2P3/2N2Q1p/PPPBBPPP/R3K2R w Kq - 17 42",
        "8/8/8/8/8/8/8/K6k w - - 99 4294967295",
    ];
    for fen in fens.iter() {
        let board = Board::from_fen(fen).unwrap();
        let text = board.to_fen();
        assert_eq!(text, *fen);
        let again = Board::from_fen(&text).unwrap();
        assert_eq!(again.squares, board.squares);
        assert_eq!(again.turn, board.turn);
        assert_eq!(again.castling_rights, board.castling_rights);
        assert_eq!(again.en_passant_square, board.en_passant_square);
        assert_eq!(again.halfmove_clock, board.halfmove_clock);
        assert_eq!(again.fullmove_number, board.fullmove_number);
    }
}
