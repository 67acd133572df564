//! A chess engine library: board representation, FEN handling, legal move
//! generation, hand-crafted evaluation, move ordering, transposition table,
//! opening book and the search building blocks, with their contracts
//! proved by Verus.

pub mod text;
pub mod board;
pub mod movegen;
pub mod evaluation;
pub mod move_ordering;
pub mod transposition_table;
pub mod opening_book;
pub mod search;
pub mod nnue;
pub mod uci;

pub use board::Board;

