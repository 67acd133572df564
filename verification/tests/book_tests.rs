use rust_chess_engine::board::{Board, ChessMove, Color};
use rust_chess_engine::opening_book::{BookMove, OpeningBook};

#[test]
fn test_opening_book_creation() {
    let book = OpeningBook::new();
    assert!(!book.is_loaded());
    assert_eq!(book.size(), 0);
}

#[test]
fn test_opening_book_basic() {
    let book = OpeningBook::new();
    let board = Board::new();
    assert!(!book.contains_position(&board));
    assert!(book.get_book_move(&board).is_none());
}

#[test]
fn test_position_hash_consistency() {
    let book = OpeningBook::new();
    let board = Board::new();
    let hash1 = book.position_hash(&board);
    let hash2 = book.position_hash(&board);
    assert_eq!(hash1, hash2);
}

#[test]
fn test_parse_square_notation() {
    let book = OpeningBook::new();

    let (rank, file) = book.parse_square_notation("e4").unwrap();
    assert_eq!(file, 4);
    assert_eq!(rank, 4);

    let (rank, file) = book.parse_square_notation("a1").unwrap();
    assert_eq!(file, 0);
    assert_eq!(rank, 7);

    assert!(book.parse_square_notation("z9").is_err());
    assert!(book.parse_square_notation("e").is_err());
}

#[test]
fn test_file_to_index() {
    let book = OpeningBook::new();
    assert_eq!(book.file_to_index('a'), 0);
    assert_eq!(book.file_to_index('e'), 4);
    assert_eq!(book.file_to_index('h'), 7);
}

#[test]
fn test_castling_hash() {
    let book = OpeningBook::new();
    let mut board1 = Board::new();
    let hash1 = book.position_hash(&board1);
    board1.castling_rights.white_kingside = false;
    let hash2 = book.position_hash(&board1);
    assert_ne!(hash1, hash2);
}

#[test]
fn test_en_passant_hash() {
    let book = OpeningBook::new();
    let mut board1 = Board::new();
    let hash1 = book.position_hash(&board1);
    board1.en_passant_square = Some((4, 4));
    let hash2 = book.position_hash(&board1);
    assert_ne!(hash1, hash2);
}

#[test]
fn test_turn_hash() {
    let book = OpeningBook::new();
    let board1 = Board::new();
    let mut board2 = Board::new();
    board2.turn = Color::Black;
    let hash1 = book.position_hash(&board1);
    let hash2 = book.position_hash(&board2);
    assert_ne!(hash1, hash2);
}

#[test]
fn test_book_move_struct() {
    let move_obj = ChessMove::new(6, 4, 4, 4);
    let book_move = BookMove { move_obj, weight: 50 };
    assert_eq!(book_move.weight, 50);
    assert_eq!(book_move.move_obj.from, (6, 4));
    assert_eq!(book_move.move_obj.to, (4, 4));
}

#[test]
fn test_multiple_moves_same_position() {
    let mut book = OpeningBook::new();
    let hash = 0x123456789abcdef0u64;
    let move1 = BookMove { move_obj: ChessMove::new(6, 4, 4, 4), weight: 100 };
    let move2 = BookMove { move_obj: ChessMove::new(6, 3, 4, 3), weight: 80 };
    book.positions.insert(hash, vec![move1, move2]);
    let moves = book.positions.get(&hash);
    assert!(moves.is_some());
    assert_eq!(moves.unwrap().len(), 2);
}

#[test]
fn test_book_clear() {
    let mut book = OpeningBook::new();
    book.positions.insert(0x123456789abcdef0u64, vec![]);
    assert_eq!(book.size(), 1);
    book.clear();
    assert_eq!(book.size(), 0);
    assert!(!book.is_loaded());
}

#[test]
fn epd_lines_fill_the_book() {
    let mut book = OpeningBook::new();
    let lines = vec![
        String::from("# comment"),
        String::from(""),
        String::from("rnbqkbnr/pppppppp/8/8/8/8/PPPPPPPP/RNBQKBNR w KQkq - 0 1; bm e4 d4; ce 30;"),
    ];
    assert_eq!(book.load_epd_lines(&lines), Ok(1));
    assert!(book.is_loaded());
    let board = Board::new();
    assert!(book.contains_position(&board));
    let all = book.get_all_book_moves(&board).unwrap();
    assert_eq!(all.len(), 2);
    assert_eq!(all[0].move_obj.to, (4, 4));
    assert_eq!(all[1].move_obj.to, (4, 3));
    // equal weights: the last of the heaviest is chosen
    assert_eq!(book.get_book_move(&board).unwrap().to, (4, 3));
}

#[test]
fn epd_line_with_bad_fen_is_an_error() {
    let mut book = OpeningBook::new();
    let lines = vec![String::from("not a fen; bm e4;")];
    assert!(book.load_epd_lines(&lines).is_err());
    assert!(!book.is_loaded());
}

#[test]
fn heaviest_book_move_is_chosen() {
    let mut book = OpeningBook::new();
    let board = Board::new();
    let hash = book.position_hash(&board);
    let a = BookMove { move_obj: ChessMove::new(6, 4, 4, 4), weight: 10 };
    let b = BookMove { move_obj: ChessMove::new(6, 3, 4, 3), weight: 90 };
    let c = BookMove { move_obj: ChessMove::new(7, 6, 5, 5), weight: 20 };
    book.positions.insert(hash, vec![a, b, c]);
    assert_eq!(book.get_book_move(&board).unwrap(), b.move_obj);
}

#[test]
fn book_readability_checks() {
    let line = |s: &str| s.to_string();
    assert!(OpeningBook::epd_line_readable(&line("rnbqkbnr/pppppppp/8/8/8/8/PPPPPPPP/RNBQKBNR w KQkq - 0 1; bm e4 Nf3;")));
    assert!(OpeningBook::epd_line_readable(&line("not a fen; bm e4;")));
    assert!(!OpeningBook::epd_line_readable(&line("8/8/8/8/8/8/8/7K b - - 0 1; bm O-O;")));
    assert!(!OpeningBook::epd_line_readable(&line("8/8/8/8/8/8/8/K6k w - - 0 1; bm O-O-O;")));
    assert!(OpeningBook::epd_line_readable(&line("8/8/8/8/8/8/8/K6k w - - 0 1; id \"x\"; c0 O-O-O;")));
    assert!(!OpeningBook::epd_line_readable(&line("8/8/8/8/8/8/8/K6k w - - 0 4294967295; bm Ka2;")));
    let board = Board::new();
    let chars = |s: &str| s.chars().collect::<Vec<char>>();
    assert!(OpeningBook::san_token_readable(&board, &chars("e4+")));
    assert!(OpeningBook::san_token_readable(&board, &chars("O-O")));
    assert!(!OpeningBook::san_token_readable(&board, &chars("")));
    assert!(!OpeningBook::san_token_readable(&board, &chars("#")));
    assert!(!OpeningBook::san_token_readable(&board, &chars("eé4")));
    assert!(!OpeningBook::san_token_readable(&board, &chars("e€")));
}
