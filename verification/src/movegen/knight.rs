use vstd::prelude::*;
use crate::board::board::{Board, on_board};
use crate::board::chess_move::{ChessMove, MoveType};
use crate::board::movegen::knight_offset;
use crate::board::pieces::{Piece, same_color};

verus! {

fn offset(i: usize) -> (o: (isize, isize))
    requires
        i < 8,
    ensures
        o.0 == knight_offset(i as int).0,
        o.1 == knight_offset(i as int).1,
{
    match i {
        0 => (-2, -1),
        1 => (-2, 1),
        2 => (-1, -2),
        3 => (-1, 2),
        4 => (1, -2),
        5 => (1, 2),
        6 => (2, -1),
        _ => (2, 1),
    }
}

/// Appends the moves of the knight on (rank, file).
pub fn generate(board: &Board, rank: usize, file: usize, moves: &mut Vec<ChessMove>)
    requires
        rank < 8,
        file < 8,
    ensures
        final(moves)@ == old(moves)@ + board@.knight_moves(rank as int, file as int),
        forall|i: int| old(moves)@.len() <= i < final(moves)@.len() ==> {
            let m = #[trigger] final(moves)@[i];
            &&& on_board(m.to.0 as int, m.to.1 as int)
            &&& m.from == (rank, file)
            &&& m.move_type == MoveType::Normal
        },
{
    let piece = board.squares[rank][file];
    let ghost start = old(moves)@;
    let mut i: usize = 0;
    while i < 8
        invariant
            i <= 8,
            rank < 8,
            file < 8,
            piece == board@.at(rank as int, file as int),
            moves@ == start + board@.knight_prefix(rank as int, file as int, i as int),
            forall|j: int| start.len() <= j < moves@.len() ==> {
                let m = #[trigger] moves@[j];
                &&& on_board(m.to.0 as int, m.to.1 as int)
                &&& m.from == (rank, file)
                &&& m.move_type == MoveType::Normal
            },
        decreases 8 - i,
    {
        let (dr, df) = offset(i);
        let target_rank = rank as isize + dr;
        let target_file = file as isize + df;
        let ghost before = moves@;
        if !(target_rank < 0 || target_rank >= 8 || target_file < 0 || target_file >= 8) {
            let target = board.squares[target_rank as usize][target_file as usize];
            if target == Piece::Empty || !same_color(piece, target) {
                moves.push(ChessMove::new(rank, file, target_rank as usize, target_file as usize));
            }
        }
        assert(moves@ =~= start + board@.knight_prefix(rank as int, file as int, i + 1)) by {
            assert(board@.knight_prefix(rank as int, file as int, i + 1)
                == board@.knight_prefix(rank as int, file as int, i as int)
                    + board@.offset_move(rank as int, file as int, knight_offset(i as int)));
        }
        i = i + 1;
    }
}

} // verus!
