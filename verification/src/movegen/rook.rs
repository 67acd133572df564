use vstd::prelude::*;
use crate::board::board::{Board, on_board};
use crate::board::chess_move::{ChessMove, MoveType};
use crate::board::movegen::rook_dir;

verus! {

fn direction(i: usize) -> (d: (isize, isize))
    requires
        i < 4,
    ensures
        d.0 == rook_dir(i as int).0,
        d.1 == rook_dir(i as int).1,
{
    match i {
        0 => (-1, 0),
        1 => (1, 0),
        2 => (0, -1),
        _ => (0, 1),
    }
}

/// Appends the moves of a straight slider on (rank, file).
pub fn generate(board: &Board, rank: usize, file: usize, moves: &mut Vec<ChessMove>)
    requires
        rank < 8,
        file < 8,
    ensures
        final(moves)@ == old(moves)@ + board@.rook_moves(rank as int, file as int),
        forall|i: int| old(moves)@.len() <= i < final(moves)@.len() ==> {
            let m = #[trigger] final(moves)@[i];
            &&& on_board(m.to.0 as int, m.to.1 as int)
            &&& m.from == (rank, file)
            &&& m.move_type == MoveType::Normal
        },
{
    let piece = board.squares[rank][file];
    let ghost start = old(moves)@;
    let mut i: usize = 0;
    while i < 4
        invariant
            i <= 4,
            rank < 8,
            file < 8,
            piece == board@.at(rank as int, file as int),
            moves@ == start + board@.rook_prefix(rank as int, file as int, i as int),
            forall|j: int| start.len() <= j < moves@.len() ==> {
                let m = #[trigger] moves@[j];
                &&& on_board(m.to.0 as int, m.to.1 as int)
                &&& m.from == (rank, file)
                &&& m.move_type == MoveType::Normal
            },
        decreases 4 - i,
    {
        let (dr, df) = direction(i);
        super::push_ray(board, rank, file, piece, dr, df, moves);
        assert(moves@ =~= start + board@.rook_prefix(rank as int, file as int, i + 1));
        i = i + 1;
    }
}

} // verus!
