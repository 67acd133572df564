use rust_chess_engine::board::Board;
use rust_chess_engine::board::pieces::Piece::{
    BlackBishop, BlackKing, BlackKnight, BlackPawn, BlackQueen, BlackRook, WhiteBishop, WhiteKing,
    WhiteKnight, WhitePawn, WhiteQueen, WhiteRook,
};
use rust_chess_engine::nnue::architecture::{HIDDEN_SIZE, INPUT_SIZE, OUTPUT_SIZE};
use rust_chess_engine::nnue::features::FeatureGenerator;
use rust_chess_engine::nnue::pgn_loader::{pgn_samples, PGNLoader};
use rust_chess_engine::nnue::selfplay::{MatchRunner, SelfPlayConfig, SelfPlayGenerator};
use rust_chess_engine::nnue::sf_loader::{block_skippable, leb_block_readable, SFNNUELoader};
use rust_chess_engine::nnue::sf_probe::SFNNUEProbe;

#[test]
fn test_constants_are_positive() {
    assert!(INPUT_SIZE > 0, "INPUT_SIZE must be positive");
    assert!(HIDDEN_SIZE > 0, "HIDDEN_SIZE must be positive");
    assert!(OUTPUT_SIZE > 0, "OUTPUT_SIZE must be positive");
}

#[test]
fn test_piece_type_index_all_variants() {
    assert_eq!(FeatureGenerator::piece_type_index(WhitePawn), 0);
    assert_eq!(FeatureGenerator::piece_type_index(BlackPawn), 0);
    assert_eq!(FeatureGenerator::piece_type_index(WhiteKnight), 1);
    assert_eq!(FeatureGenerator::piece_type_index(BlackKnight), 1);
    assert_eq!(FeatureGenerator::piece_type_index(WhiteBishop), 2);
    assert_eq!(FeatureGenerator::piece_type_index(BlackBishop), 2);
    assert_eq!(FeatureGenerator::piece_type_index(WhiteRook), 3);
    assert_eq!(FeatureGenerator::piece_type_index(BlackRook), 3);
    assert_eq!(FeatureGenerator::piece_type_index(WhiteQueen), 4);
    assert_eq!(FeatureGenerator::piece_type_index(BlackQueen), 4);
    assert_eq!(FeatureGenerator::piece_type_index(WhiteKing), 5);
    assert_eq!(FeatureGenerator::piece_type_index(BlackKing), 5);
}

#[test]
fn test_piece_is_white_correctness() {
    assert!(FeatureGenerator::piece_is_white(WhitePawn));
    assert!(FeatureGenerator::piece_is_white(WhiteKnight));
    assert!(FeatureGenerator::piece_is_white(WhiteBishop));
    assert!(FeatureGenerator::piece_is_white(WhiteRook));
    assert!(FeatureGenerator::piece_is_white(WhiteQueen));
    assert!(FeatureGenerator::piece_is_white(WhiteKing));

    assert!(!FeatureGenerator::piece_is_white(BlackPawn));
    assert!(!FeatureGenerator::piece_is_white(BlackKnight));
    assert!(!FeatureGenerator::piece_is_white(BlackBishop));
    assert!(!FeatureGenerator::piece_is_white(BlackRook));
    assert!(!FeatureGenerator::piece_is_white(BlackQueen));
    assert!(!FeatureGenerator::piece_is_white(BlackKing));
}

#[test]
fn test_feature_index_in_bounds() {
    let pieces = [
        WhitePawn, BlackPawn, WhiteKnight, BlackKnight,
        WhiteBishop, BlackBishop, WhiteRook, BlackRook,
        WhiteQueen, BlackQueen, WhiteKing, BlackKing,
    ];
    for piece in pieces {
        for sq in 0..64 {
            let idx = FeatureGenerator::piece_to_feature(piece, sq);
            assert!(idx < INPUT_SIZE, "feature index {} out of bounds for {:?} sq {}", idx, piece, sq);
        }
    }
}

#[test]
fn test_feature_index_to_square_roundtrip() {
    for sq in 0..64_usize {
        let (rank, file) = FeatureGenerator::feature_index_to_square(sq);
        let recovered = rank * 8 + file;
        assert_eq!(recovered, sq);
    }
}

#[test]
fn test_sf_loader_exists() {
    let _loader = SFNNUELoader;
}

#[test]
fn feature_indices_of_known_pieces() {
    assert_eq!(FeatureGenerator::piece_to_feature(WhiteKnight, 10), 74);
    assert_eq!(FeatureGenerator::piece_to_feature(BlackPawn, 0), 447);
    let active = FeatureGenerator::active_feature_indices(&Board::new());
    assert_eq!(active.len(), 32);
    assert_eq!(active[0], 384 + 3 * 64 + 63);
}

#[test]
fn self_play_settings() {
    let c = SelfPlayConfig::default();
    assert_eq!((c.nodes_per_move, c.random_opening_plies, c.max_moves), (10_000, 6, 120));
    let g = SelfPlayGenerator::new(c);
    assert_eq!(g.config.max_moves, 120);
    let r = MatchRunner::new(500);
    assert_eq!((r.nodes_per_move, r.max_moves), (500, 120));
}

#[test]
fn pgn_tokens_and_results() {
    assert!(PGNLoader::is_skip_token("12."));
    assert!(PGNLoader::is_skip_token("1-0"));
    assert!(PGNLoader::is_skip_token("1/2-1/2"));
    assert!(PGNLoader::is_skip_token("{comment"));
    assert!(PGNLoader::is_skip_token("*"));
    assert!(!PGNLoader::is_skip_token("O-O"));
    assert!(!PGNLoader::is_skip_token("Nf3"));
    assert_eq!(PGNLoader::extract_result("[Result \"1-0\"]"), Some(String::from("1-0")));
    assert_eq!(PGNLoader::extract_result("[Result 1-0]"), None);
}

#[test]
fn pgn_moves_replay_a_game() {
    let mut board = Board::new();
    for tok in ["e4", "e5", "Nf3", "Nc6", "Bb5", "a6", "Bxc6", "dxc6", "O-O"] {
        assert!(PGNLoader::apply_move(&mut board, tok).is_ok(), "{} should apply", tok);
    }
    assert_eq!(board.to_fen(), "r1bqkbnr/1pp2ppp/p1p5/4p3/4P3/5N2/PPPP1PPP/RNBQ1RK1 b kq - 1 5");
    assert!(PGNLoader::apply_move(&mut board, "Qh4x").is_err());
}

#[test]
fn pgn_sampling_rotates_phases() {
    let mut accepted = 0usize;
    assert_eq!(PGNLoader::flush_game(50, 0, None, &mut accepted), (Some(9), false));
    assert_eq!(PGNLoader::flush_game(50, 1, None, &mut accepted), (Some(19), false));
    assert_eq!(PGNLoader::flush_game(50, 2, Some(4), &mut accepted), (Some(38), false));
    assert_eq!(PGNLoader::flush_game(50, 3, Some(4), &mut accepted), (Some(49), true));
    assert_eq!(accepted, 4);
    assert_eq!(PGNLoader::flush_game(30, 3, None, &mut accepted), (None, false));
}

#[test]
fn test_probe_truncated_slice() {
    let dummy = vec![0u8; 8];
    let result = SFNNUEProbe::probe_slice(&dummy);
    assert!(result.is_err());
}

fn push_word(data: &mut Vec<u8>, w: u32) {
    data.extend_from_slice(&w.to_le_bytes());
}

fn push_block(data: &mut Vec<u8>, payload: &[u8]) {
    data.extend_from_slice(b"COMPRESSED_LEB128");
    push_word(data, payload.len() as u32);
    data.extend_from_slice(payload);
}

fn minimal_network(stack_hash_delta: u32) -> Vec<u8> {
    let mut data = Vec::new();
    push_word(&mut data, 0x6a448afa);
    push_word(&mut data, 0xa85b2205);
    push_word(&mut data, 4);
    data.extend_from_slice(b"test");
    push_word(&mut data, 0xcb685313);
    push_block(&mut data, &[0x05, 0x7f, 0x80, 0x01, 0xff, 0x7e]);
    data.resize(data.len() + 59808 * 1024, 0);
    push_block(&mut data, &[]);
    data.resize(data.len() + 4560 * 1024, 0);
    push_block(&mut data, &[]);
    push_block(&mut data, &[1, 2, 3]);
    push_block(&mut data, &[]);
    for _ in 0..8 {
        push_word(&mut data, (0xa85b2205u32 ^ 0xcb685313u32).wrapping_add(stack_hash_delta));
        data.resize(data.len() + 32 * 4 + 32 * 1024 + 32 * 4 + 32 * 64 + 4 + 128, 0);
    }
    data
}

#[test]
fn probe_reads_a_minimal_network() {
    let data = minimal_network(0);
    let info = SFNNUEProbe::probe_slice(&data).unwrap();
    assert!(info.is_valid);
    assert_eq!(info.file_size, data.len());
    assert_eq!(info.bytes_consumed, data.len());
    assert_eq!(info.version, 0x6a448afa);
    assert_eq!(info.architecture_hash, 0xa85b2205);
    assert_eq!(info.feature_transformer_hash, 0xcb685313);
    assert_eq!(info.network_architecture_hash, 0x63337116);
    assert_eq!(info.description, "test");
    assert_eq!(info.ft_biases_count, 1024);
    assert_eq!(info.ft_sample_biases, vec![5i16, -1, 128, -129]);
    assert_eq!(info.layer_stacks_count, 8);
    assert_eq!(info.fc0_dim, (1024, 32));
}

#[test]
fn probe_flags_trailing_bytes_as_invalid() {
    let mut data = minimal_network(0);
    data.push(0);
    let info = SFNNUEProbe::probe_slice(&data).unwrap();
    assert!(!info.is_valid);
    assert_eq!(info.bytes_consumed + 1, info.file_size);
}

#[test]
fn probe_rejects_a_wrong_stack_hash() {
    let data = minimal_network(1);
    assert!(SFNNUEProbe::probe_slice(&data).is_err());
}

#[test]
fn probe_rejects_a_wrong_block_tag() {
    let mut data = minimal_network(0);
    data[20] = b'X';
    assert!(SFNNUEProbe::probe_slice(&data).is_err());
}

#[test]
fn probe_rejects_a_cut_number() {
    let mut data = Vec::new();
    push_word(&mut data, 1);
    push_word(&mut data, 2);
    push_word(&mut data, 0);
    push_word(&mut data, 3);
    push_block(&mut data, &[0x80, 0x80]);
    data.resize(data.len() + 59808 * 1024, 0);
    assert!(SFNNUEProbe::probe_slice(&data).is_err());
}

#[test]
fn loader_reads_compressed_and_raw_arrays() {
    let mut data = vec![9u8, 9];
    push_block(&mut data, &[0x05, 0x7f, 0x80, 0x01]);
    data.extend_from_slice(&[0xff, 0x01, 0x80]);
    let mut offset = 2usize;
    let values = SFNNUELoader::read_leb128_i16_array(&data, &mut offset, 2).unwrap();
    assert_eq!(values, vec![5i16, -1]);
    assert_eq!(offset, 2 + 17 + 4 + 4);
    assert_eq!(SFNNUELoader::skip_leb128_block(&data, 2), Ok(27));
    assert!(SFNNUELoader::skip_leb128_block(&data, 20).is_err());
    let bytes = SFNNUELoader::read_i8_array(&data, &mut offset, 3).unwrap();
    assert_eq!(bytes, vec![-1i8, 1, -128]);
    assert_eq!(offset, data.len());
    assert!(SFNNUELoader::read_i8_array(&data, &mut offset, 1).is_err());
    assert_eq!(SFNNUELoader::decode_signed_leb128(&[0xff, 0x7e], 0, 2), Ok((-129, 2)));
    assert!(SFNNUELoader::decode_signed_leb128(&[0x80, 0x80], 0, 2).is_err());
    let bad = vec![0u8; 30];
    let mut at = 0usize;
    assert!(SFNNUELoader::read_leb128_i16_array(&bad, &mut at, 1).is_err());
}

#[test]
fn loader_checks_tell_which_blocks_can_be_read() {
    let mut data = vec![9u8, 9];
    push_block(&mut data, &[0x05, 0x7f, 0x80, 0x01]);
    assert!(leb_block_readable(&data, 2, 2));
    assert!(leb_block_readable(&data, 0, 2));
    let mut long = vec![];
    push_block(&mut long, &[0x80, 0x80, 0x80, 0x80, 0x80, 0x80]);
    assert!(!leb_block_readable(&long, 0, 1));
    let mut cut = vec![];
    push_block(&mut cut, &[0x05]);
    cut.truncate(19);
    assert!(!leb_block_readable(&cut, 0, 1));
    assert!(block_skippable(&data, 2));
    assert!(block_skippable(&data, 20));
    assert!(!block_skippable(&cut, 0));
}

#[test]
fn pgn_moves_keep_their_own_kind() {
    let mut board = Board::from_fen("4k3/8/8/3pP3/8/8/8/4K3 w - d6 0 1").unwrap();
    assert!(PGNLoader::apply_move(&mut board, "exd6").is_ok());
    assert_eq!(board.to_fen(), "4k3/8/3P4/8/8/8/8/4K3 b - - 0 1");
    let mut promo = Board::from_fen("8/P7/8/8/8/8/8/k6K w - - 0 1").unwrap();
    assert!(PGNLoader::apply_move(&mut promo, "a8=N").is_ok());
    assert_eq!(promo.to_fen(), "N7/8/8/8/8/8/8/k6K b - - 0 1");
    let mut promo2 = Board::from_fen("8/P7/8/8/8/8/8/k6K w - - 0 1").unwrap();
    assert!(PGNLoader::apply_move(&mut promo2, "a8=Q+").is_ok());
    assert_eq!(promo2.to_fen(), "Q7/8/8/8/8/8/8/k6K b - - 0 1");
}

#[test]
fn pgn_samples_keep_one_position_per_long_game() {
    let shuffle = "Nf3 Nf6 Ng1 Ng8 ".repeat(12);
    let lines: Vec<String> = vec![
        "[Event \"test\"]".to_string(),
        "[Result \"1-0\"]".to_string(),
        format!("1. {} 1-0", shuffle),
        "".to_string(),
        "[Result \"0-1\"]".to_string(),
        "1. e4 Ke7 Zz9".to_string(),
        format!("{}", shuffle),
    ];
    let samples = pgn_samples(&lines, None);
    assert_eq!(samples, vec![("rnbqkb1r/pppppppp/5n2/8/8/5N2/PPPPPPPP/RNBQKB1R w KQkq - 10 6".to_string(), 2i8)]);
    assert!(pgn_samples(&lines, Some(0)).is_empty());
    let two = vec![lines[1].clone(), lines[2].clone(), "[Result \"1/2-1/2\"]".to_string(), lines[2].clone()];
    let s2 = pgn_samples(&two, None);
    assert_eq!(s2.len(), 2);
    assert_eq!(s2[1].0, "rnbqkbnr/pppppppp/8/8/8/8/PPPPPPPP/RNBQKBNR w KQkq - 20 11");
    assert_eq!(s2[1].1, 1);
}

fn features_after_steps(before: &Board, steps: &[(usize, bool)]) -> Vec<usize> {
    let mut active = FeatureGenerator::active_feature_indices(before);
    for &(feature, on) in steps {
        if on {
            active.push(feature);
        } else {
            let at = active.iter().position(|&f| f == feature).expect("switched-off input was on");
            active.remove(at);
        }
    }
    active.sort();
    active
}

#[test]
fn move_steps_turn_the_inputs_of_one_position_into_the_next() {
    let positions = [
        "r3k2r/p1ppqpb1/bn2pnp1/3PN3/1p2P3/2N2Q1p/PPPBBPPP/R3K2R w KQkq - 0 1",
        "r3k2r/p1ppqpb1/bn2pnp1/3PN3/1p2P3/2N2Q1p/PPPBBPPP/R3K2R b KQkq - 0 1",
        "4k3/8/8/3pP3/8/8/8/4K3 w - d6 0 1",
        "1n2k3/P7/8/8/8/8/8/4K3 w - - 0 1",
    ];
    let mut checked = 0;
    for fen in positions.iter() {
        let board = Board::from_fen(fen).unwrap();
        for mv in board.generate_moves() {
            let steps = FeatureGenerator::move_feature_steps(&board, &mv);
            let mut after = board.clone();
            after.execute_move(mv.from, mv.to, mv.move_type).unwrap();
            let mut expected = FeatureGenerator::active_feature_indices(&after);
            expected.sort();
            assert_eq!(features_after_steps(&board, &steps), expected);
            checked += 1;
        }
    }
    assert!(checked > 100);
}

#[test]
fn castling_steps_move_king_and_rook() {
    let board = Board::from_fen("r3k2r/8/8/8/8/8/8/R3K2R w KQkq - 0 1").unwrap();
    let mv = rust_chess_engine::board::ChessMove::new(7, 4, 7, 6);
    let mv = rust_chess_engine::board::ChessMove { move_type: rust_chess_engine::board::MoveType::Castling, ..mv };
    let steps = FeatureGenerator::move_feature_steps(&board, &mv);
    let king = FeatureGenerator::piece_to_feature(WhiteKing, 60);
    let rook = FeatureGenerator::piece_to_feature(WhiteRook, 63);
    assert_eq!(
        steps,
        vec![
            (king, false),
            (FeatureGenerator::piece_to_feature(WhiteKing, 62), true),
            (rook, false),
            (FeatureGenerator::piece_to_feature(WhiteRook, 61), true),
        ]
    );
}
