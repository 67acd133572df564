use rust_chess_engine::board::Board;
use rust_chess_engine::board::Color;
use rust_chess_engine::uci::{apply_uci_move, is_uci_move_token, legal_move_strings, parse_go, position_command, uci_score_string};

#[test]
fn test_uci_score_string() {
    assert_eq!(uci_score_string(35, true), "cp 35");
    assert_eq!(uci_score_string(35, false), "cp -35");
    assert_eq!(uci_score_string(-99950, true), "mate 25");
    assert_eq!(uci_score_string(99975, false), "mate 13");
}

#[test]
fn test_uci_move_token_check() {
    assert!(is_uci_move_token("e2e4"));
    assert!(is_uci_move_token("a7a8q"));
    assert!(!is_uci_move_token("searchmoves"));
    assert!(!is_uci_move_token("e2"));
}

#[test]
fn uci_moves_play_on_the_board() {
    let mut board = Board::new();
    assert!(apply_uci_move(&mut board, "e2e4").is_ok());
    assert!(apply_uci_move(&mut board, "e7e5").is_ok());
    assert!(apply_uci_move(&mut board, "e1e3").is_err());
    assert_eq!(board.to_fen(), "rnbqkbnr/pppp1ppp/8/4p3/4P3/8/PPPP1PPP/RNBQKBNR w KQkq e6 0 2");
}

#[test]
fn uci_promotion_needs_a_letter() {
    let mut board = Board::from_fen("8/P7/8/8/8/8/8/k6K w - - 0 1").unwrap();
    assert!(apply_uci_move(&mut board.clone(), "a7a8").is_err());
    assert!(apply_uci_move(&mut board, "a7a8N").is_ok());
    assert_eq!(board.to_fen(), "N7/8/8/8/8/8/8/k6K b - - 0 1");
}

#[test]
fn position_command_sets_up_moves() {
    let mut board = Board::new();
    let parts: Vec<String> = ["position", "startpos", "moves", "e2e4", "e7e5", "zzzz", "g1f3"]
        .iter().map(|s| s.to_string()).collect();
    position_command(&mut board, &parts);
    assert_eq!(board.to_fen(), "rnbqkbnr/pppp1ppp/8/4p3/4P3/8/PPPP1PPP/RNBQKBNR w KQkq e6 0 2");
    let parts: Vec<String> = ["position", "fen", "8/P7/8/8/8/8/8/k6K", "w", "-", "-", "0", "1", "moves", "a7a8q"]
        .iter().map(|s| s.to_string()).collect();
    position_command(&mut board, &parts);
    assert_eq!(board.to_fen(), "Q7/8/8/8/8/8/8/k6K b - - 0 1");
    assert_eq!(legal_move_strings(&Board::new()).len(), 20);
}

fn words(s: &str) -> Vec<String> {
    s.split_whitespace().map(|w| w.to_string()).collect()
}

#[test]
fn go_reads_limits_and_flags() {
    let p = parse_go(&words("go depth 80 nodes 5000 infinite ponder searchmoves e2e4 d2d4 movetime 300"), Color::White);
    assert_eq!(p.depth, Some(64));
    assert_eq!(p.nodes, Some(5000));
    assert_eq!(p.movetime, Some(300));
    assert_eq!(p.clock_ms, None);
    assert!(p.infinite);
    assert!(p.ponder);
    let q = parse_go(&words("go depth x nodes"), Color::White);
    assert_eq!(q.depth, None);
    assert_eq!(q.nodes, None);
    assert!(!q.infinite);
}

#[test]
fn go_budgets_the_clock_of_the_side_to_move() {
    let p = parse_go(&words("go wtime 60000 btime 1000 winc 1000 binc 0"), Color::White);
    assert_eq!(p.clock_ms, Some(60000 / 20 + 1000 * 3 / 4));
    let q = parse_go(&words("go wtime 60000 btime 1000 winc 1000 binc 0"), Color::Black);
    assert_eq!(q.clock_ms, Some(50));
    let r = parse_go(&words("go wtime 100 winc 10000"), Color::White);
    assert_eq!(r.clock_ms, Some(90));
    let s = parse_go(&words("go btime 5000"), Color::White);
    assert_eq!(s.clock_ms, None);
}

fn command(s: &str) -> Vec<String> {
    s.split_whitespace().map(|w| w.to_string()).collect()
}

#[test]
fn test_position_startpos() {
    let mut board = Board::new();
    position_command(&mut board, &command("position startpos"));
    let moves = board.generate_moves();
    assert_eq!(moves.len(), 20, "Starting position should have 20 legal moves");
}

#[test]
fn test_position_with_moves() {
    let mut board = Board::new();
    position_command(&mut board, &command("position startpos moves e2e4 e7e5"));
    let moves = board.generate_moves();
    assert!(!moves.is_empty(), "Position after e2e4 e7e5 should have legal moves");
}

#[test]
fn test_uci_move_notation() {
    let mut board = Board::new();
    let result = apply_uci_move(&mut board, "e2e4");
    assert!(result.is_ok(), "e2e4 should be a legal move from starting position");
}

#[test]
fn test_uci_castle_notation() {
    let mut board = Board::new();
    apply_uci_move(&mut board, "e2e4").unwrap();
    apply_uci_move(&mut board, "e7e5").unwrap();
    apply_uci_move(&mut board, "g1f3").unwrap();
    apply_uci_move(&mut board, "b8c6").unwrap();
    apply_uci_move(&mut board, "f1c4").unwrap();
    apply_uci_move(&mut board, "g8f6").unwrap();
    assert!(apply_uci_move(&mut board, "e1g1").is_ok(), "e1g1 castling should be legal");
}

#[test]
fn test_uci_promotion_notation() {
    let mut board = Board::new();
    position_command(&mut board, &command("position fen 8/P7/8/8/8/8/8/k6K w - - 0 1"));
    assert!(apply_uci_move(&mut board, "a7a8q").is_ok(), "Promotion to queen should be legal");
    position_command(&mut board, &command("position fen 8/P7/8/8/8/8/8/k6K w - - 0 1"));
    assert!(apply_uci_move(&mut board, "a7a8n").is_ok(), "Promotion to knight should be legal");
    position_command(&mut board, &command("position fen 8/P7/8/8/8/8/8/k6K w - - 0 1"));
    assert!(apply_uci_move(&mut board, "a7a8").is_err(), "Bare promotion should be rejected");
}

#[test]
fn whitespace_agrees_with_std_on_every_char() {
    for v in 0u32..=0x10FFFF {
        if let Some(c) = char::from_u32(v) {
            assert_eq!(rust_chess_engine::text::is_whitespace(c), c.is_whitespace(), "U+{:04X}", v);
        }
    }
}
