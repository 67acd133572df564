use vstd::prelude::*;
use crate::board::board::{Board, on_board};
use crate::board::chess_move::{ChessMove, MoveType};
use super::{bishop, rook};

verus! {

/// Appends the moves of a queen on (rank, file): its diagonal rays, then its straight rays.
pub fn generate(board: &Board, rank: usize, file: usize, moves: &mut Vec<ChessMove>)
    requires
        rank < 8,
        file < 8,
    ensures
        final(moves)@ == old(moves)@ + board@.bishop_moves(rank as int, file as int)
            + board@.rook_moves(rank as int, file as int),
        forall|i: int| old(moves)@.len() <= i < final(moves)@.len() ==> {
            let m = #[trigger] final(moves)@[i];
            &&& on_board(m.to.0 as int, m.to.1 as int)
            &&& m.from == (rank, file)
            &&& m.move_type == MoveType::Normal
        },
{
    bishop::generate(board, rank, file, moves);
    rook::generate(board, rank, file, moves);
}

} // verus!
