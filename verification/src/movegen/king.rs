use vstd::prelude::*;
use crate::board::board::{Board, Color, on_board};
use crate::board::chess_move::{ChessMove, MoveType};
use crate::board::movegen::king_offset;
use crate::board::pieces::{Piece, same_color};

verus! {

fn offset(i: usize) -> (o: (isize, isize))
    requires
        i < 8,
    ensures
        o.0 == king_offset(i as int).0,
        o.1 == king_offset(i as int).1,
{
    match i {
        0 => (-1, -1),
        1 => (-1, 0),
        2 => (-1, 1),
        3 => (0, -1),
        4 => (0, 1),
        5 => (1, -1),
        6 => (1, 0),
        _ => (1, 1),
    }
}

/// Appends the moves of the king on (rank, file): its steps, then castling.
pub fn generate(board: &Board, rank: usize, file: usize, moves: &mut Vec<ChessMove>)
    requires
        rank < 8,
        file < 8,
    ensures
        final(moves)@ == old(moves)@ + board@.king_moves(rank as int, file as int),
        forall|i: int| old(moves)@.len() <= i < final(moves)@.len() ==> {
            let m = #[trigger] final(moves)@[i];
            &&& on_board(m.to.0 as int, m.to.1 as int)
            &&& m.from == (rank, file)
            &&& !(m.move_type is EnPassant)
        },
{
    let piece = board.squares[rank][file];
    let ghost start = old(moves)@;
    let mut i: usize = 0;
    while i < 8
        invariant
            i <= 8,
            rank < 8,
            file < 8,
            piece == board@.at(rank as int, file as int),
            moves@ == start + board@.king_step_prefix(rank as int, file as int, i as int),
            forall|j: int| start.len() <= j < moves@.len() ==> {
                let m = #[trigger] moves@[j];
                &&& on_board(m.to.0 as int, m.to.1 as int)
                &&& m.from == (rank, file)
                &&& !(m.move_type is EnPassant)
            },
        decreases 8 - i,
    {
        let (dr, df) = offset(i);
        let target_rank = rank as isize + dr;
        let target_file = file as isize + df;
        if !(target_rank < 0 || target_rank >= 8 || target_file < 0 || target_file >= 8) {
            let target = board.squares[target_rank as usize][target_file as usize];
            if target == Piece::Empty || !same_color(piece, target) {
                moves.push(ChessMove::new(rank, file, target_rank as usize, target_file as usize));
            }
        }
        assert(moves@ =~= start + board@.king_step_prefix(rank as int, file as int, i + 1)) by {
            assert(board@.king_step_prefix(rank as int, file as int, i + 1)
                == board@.king_step_prefix(rank as int, file as int, i as int)
                    + board@.offset_move(rank as int, file as int, king_offset(i as int)));
        }
        i = i + 1;
    }
    let ghost s1 = moves@;
    match piece {
        Piece::WhiteKing => {
            if board.castling_rights.white_kingside && rank == 7 && file == 4
                && board.squares[7][5] == Piece::Empty && board.squares[7][6] == Piece::Empty
                && board.squares[7][7] == Piece::WhiteRook && !board.is_in_check(Color::White)
                && !board.is_square_attacked((7, 4), Color::Black)
                && !board.is_square_attacked((7, 5), Color::Black)
            {
                moves.push(ChessMove::castling(rank, file, rank, 6));
            }
            if board.castling_rights.white_queenside && rank == 7 && file == 4
                && board.squares[7][3] == Piece::Empty && board.squares[7][2] == Piece::Empty
                && board.squares[7][1] == Piece::Empty && board.squares[7][0] == Piece::WhiteRook
                && !board.is_in_check(Color::White)
                && !board.is_square_attacked((7, 4), Color::Black)
                && !board.is_square_attacked((7, 3), Color::Black)
            {
                moves.push(ChessMove::castling(rank, file, rank, 2));
            }
        },
        Piece::BlackKing => {
            if board.castling_rights.black_kingside && rank == 0 && file == 4
                && board.squares[0][5] == Piece::Empty && board.squares[0][6] == Piece::Empty
                && board.squares[0][7] == Piece::BlackRook && !board.is_in_check(Color::Black)
                && !board.is_square_attacked((0, 4), Color::White)
                && !board.is_square_attacked((0, 5), Color::White)
            {
                moves.push(ChessMove::castling(rank, file, rank, 6));
            }
            if board.castling_rights.black_queenside && rank == 0 && file == 4
                && board.squares[0][3] == Piece::Empty && board.squares[0][2] == Piece::Empty
                && board.squares[0][1] == Piece::Empty && board.squares[0][0] == Piece::BlackRook
                && !board.is_in_check(Color::Black)
                && !board.is_square_attacked((0, 4), Color::White)
                && !board.is_square_attacked((0, 3), Color::White)
            {
                moves.push(ChessMove::castling(rank, file, rank, 2));
            }
        },
        _ => {},
    }
    assert(moves@ =~= old(moves)@ + board@.king_moves(rank as int, file as int));
}

} // verus!
