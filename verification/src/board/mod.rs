pub mod pieces;
pub mod chess_move;
pub mod board;
pub mod movegen;
pub mod perft;
pub mod fen;
pub mod distinct;
pub mod fen_laws;

pub use board::{Board, BoardModel, CastlingRights, Color, GameStatus};
pub use chess_move::{ChessMove, MoveType};
