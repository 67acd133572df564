//! Pseudo-legal move generation, one generator per piece kind. Each generator
//! appends the moves of the piece on one square to a list.

pub mod pawn;
pub mod knight;
pub mod bishop;
pub mod rook;
pub mod queen;
pub mod king;

use vstd::prelude::*;
use crate::board::board::{Board, on_board, step};
use crate::board::chess_move::{ChessMove, mk_move, MoveType};
use crate::board::pieces::{Piece, same_color};

verus! {

pub struct MoveGenerator;

/// Appends the moves along one ray from (rank, file) in direction (dr, df).
pub fn push_ray(
    board: &Board,
    rank: usize,
    file: usize,
    piece: Piece,
    dr: isize,
    df: isize,
    moves: &mut Vec<ChessMove>,
)
    requires
        rank < 8,
        file < 8,
        -1 <= dr <= 1,
        -1 <= df <= 1,
        dr != 0 || df != 0,
    ensures
        final(moves)@ == old(moves)@ + board@.ray(piece, rank as int, file as int, dr as int, df as int, 1),
        forall|i: int| old(moves)@.len() <= i < final(moves)@.len() ==> {
            let m = #[trigger] final(moves)@[i];
            &&& on_board(m.to.0 as int, m.to.1 as int)
            &&& m.from == (rank, file)
            &&& m.move_type == MoveType::Normal
        },
{
    let ghost total = old(moves)@ + board@.ray(piece, rank as int, file as int, dr as int, df as int, 1);
    let ghost start = old(moves)@.len();
    let mut r: isize = rank as isize + dr;
    let mut f: isize = file as isize + df;
    let ghost mut k: int = 1;
    while r >= 0 && r < 8 && f >= 0 && f < 8
        invariant
            rank < 8,
            file < 8,
            -1 <= dr <= 1,
            -1 <= df <= 1,
            dr != 0 || df != 0,
            1 <= k,
            r == rank + step(k, dr as int),
            f == file + step(k, df as int),
            moves@ + board@.ray(piece, rank as int, file as int, dr as int, df as int, k) == total,
            total == old(moves)@ + board@.ray(piece, rank as int, file as int, dr as int, df as int, 1),
            start == old(moves)@.len(),
            start <= moves@.len(),
            forall|i: int| start <= i < moves@.len() ==> {
                let m = #[trigger] moves@[i];
                &&& on_board(m.to.0 as int, m.to.1 as int)
                &&& m.from == (rank, file)
                &&& m.move_type == MoveType::Normal
            },
        decreases 8 - k,
    {
        assert(k < 8);
        let ghost before = moves@;
        let target = board.squares[r as usize][f as usize];
        if target == Piece::Empty {
            moves.push(ChessMove::new(rank, file, r as usize, f as usize));
            assert(before + board@.ray(piece, rank as int, file as int, dr as int, df as int, k)
                =~= moves@ + board@.ray(piece, rank as int, file as int, dr as int, df as int, k + 1));
        } else {
            if !same_color(piece, target) {
                moves.push(ChessMove::new(rank, file, r as usize, f as usize));
                assert(moves@ =~= total);
            } else {
                assert(moves@ =~= total);
            }
            return;
        }
        r = r + dr;
        f = f + df;
        proof { k = k + 1; }
    }
    assert(moves@ =~= total);
}

impl MoveGenerator {
    pub fn generate_pawn_moves(board: &Board, rank: usize, file: usize, moves: &mut Vec<ChessMove>)
        requires
            rank < 8,
            file < 8,
        ensures
            final(moves)@ == old(moves)@ + board@.pawn_moves(rank as int, file as int),
    {
        pawn::generate(board, rank, file, moves);
    }

    pub fn generate_knight_moves(board: &Board, rank: usize, file: usize, moves: &mut Vec<ChessMove>)
        requires
            rank < 8,
            file < 8,
        ensures
            final(moves)@ == old(moves)@ + board@.knight_moves(rank as int, file as int),
    {
        knight::generate(board, rank, file, moves);
    }

    pub fn generate_bishop_moves(board: &Board, rank: usize, file: usize, moves: &mut Vec<ChessMove>)
        requires
            rank < 8,
            file < 8,
        ensures
            final(moves)@ == old(moves)@ + board@.bishop_moves(rank as int, file as int),
    {
        bishop::generate(board, rank, file, moves);
    }

    pub fn generate_rook_moves(board: &Board, rank: usize, file: usize, moves: &mut Vec<ChessMove>)
        requires
            rank < 8,
            file < 8,
        ensures
            final(moves)@ == old(moves)@ + board@.rook_moves(rank as int, file as int),
    {
        rook::generate(board, rank, file, moves);
    }

    pub fn generate_queen_moves(board: &Board, rank: usize, file: usize, moves: &mut Vec<ChessMove>)
        requires
            rank < 8,
            file < 8,
        ensures
            final(moves)@ == old(moves)@ + board@.bishop_moves(rank as int, file as int)
                + board@.rook_moves(rank as int, file as int),
    {
        queen::generate(board, rank, file, moves);
    }

    pub fn generate_king_moves(board: &Board, rank: usize, file: usize, moves: &mut Vec<ChessMove>)
        requires
            rank < 8,
            file < 8,
        ensures
            final(moves)@ == old(moves)@ + board@.king_moves(rank as int, file as int),
    {
        king::generate(board, rank, file, moves);
    }
}

} // verus!
