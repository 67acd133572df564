use vstd::prelude::*;
use crate::board::board::{Board, on_board};
use crate::board::chess_move::{ChessMove, MoveType};
use crate::board::movegen::promotion_moves;
use crate::board::pieces::{Piece, same_color};

verus! {

/// The sanity of a pawn move appended by the generator.
pub open spec fn pawn_move_ok(m: ChessMove, rank: usize, file: usize, piece: Piece) -> bool {
    &&& on_board(m.to.0 as int, m.to.1 as int)
    &&& m.from == (rank, file)
    &&& (m.move_type is EnPassant ==> (piece == Piece::WhitePawn ==> m.to.0 + 1 < 8)
        && (piece == Piece::BlackPawn ==> m.to.0 >= 1))
}

fn push_promotions(rank: usize, file: usize, to_rank: usize, to_file: usize, white_side: bool, moves: &mut Vec<ChessMove>)
    ensures
        final(moves)@ == old(moves)@ + promotion_moves(rank as int, file as int, to_rank as int, to_file as int, white_side),
{
    let pieces = if white_side {
        [Piece::WhiteQueen, Piece::WhiteRook, Piece::WhiteBishop, Piece::WhiteKnight]
    } else {
        [Piece::BlackQueen, Piece::BlackRook, Piece::BlackBishop, Piece::BlackKnight]
    };
    moves.push(ChessMove::promotion(rank, file, to_rank, to_file, pieces[0]));
    moves.push(ChessMove::promotion(rank, file, to_rank, to_file, pieces[1]));
    moves.push(ChessMove::promotion(rank, file, to_rank, to_file, pieces[2]));
    moves.push(ChessMove::promotion(rank, file, to_rank, to_file, pieces[3]));
    assert(final(moves)@ =~= old(moves)@ + promotion_moves(rank as int, file as int, to_rank as int, to_file as int, white_side));
}

fn push_capture(board: &Board, rank: usize, file: usize, piece: Piece, off: isize, moves: &mut Vec<ChessMove>)
    requires
        rank < 8,
        file < 8,
        off == -1 || off == 1,
        piece == board@.at(rank as int, file as int),
        piece == Piece::WhitePawn || piece == Piece::BlackPawn,
    ensures
        final(moves)@ == old(moves)@ + board@.pawn_capture(rank as int, file as int, off as int),
        forall|i: int| old(moves)@.len() <= i < final(moves)@.len() ==> pawn_move_ok(#[trigger] final(moves)@[i], rank, file, piece),
{
    let white_side = piece == Piece::WhitePawn;
    let next_rank: isize = if white_side { rank as isize - 1 } else { rank as isize + 1 };
    let promotion_rank: isize = if white_side { 0 } else { 7 };
    let target_file = file as isize + off;
    if next_rank < 0 || next_rank >= 8 || target_file < 0 || target_file >= 8 {
        return;
    }
    let target = board.squares[next_rank as usize][target_file as usize];
    if target != Piece::Empty && same_color(piece, target) == false {
        if next_rank == promotion_rank {
            push_promotions(rank, file, next_rank as usize, target_file as usize, white_side, moves);
        } else {
            moves.push(ChessMove::new(rank, file, next_rank as usize, target_file as usize));
        }
    }
}

fn push_en_passant(board: &Board, rank: usize, file: usize, piece: Piece, off: isize, moves: &mut Vec<ChessMove>)
    requires
        rank < 8,
        file < 8,
        off == -1 || off == 1,
        piece == board@.at(rank as int, file as int),
        piece == Piece::WhitePawn || piece == Piece::BlackPawn,
    ensures
        final(moves)@ == old(moves)@ + board@.pawn_en_passant(rank as int, file as int, off as int),
        forall|i: int| old(moves)@.len() <= i < final(moves)@.len() ==> pawn_move_ok(#[trigger] final(moves)@[i], rank, file, piece),
{
    let next_rank: isize = if piece == Piece::WhitePawn { rank as isize - 1 } else { rank as isize + 1 };
    let target_file = file as isize + off;
    if target_file < 0 || target_file >= 8 {
        return;
    }
    if let Some((ep_rank, ep_file)) = board.en_passant_square {
        if next_rank >= 0 && next_rank < 8 && next_rank as usize == ep_rank && target_file as usize == ep_file {
            moves.push(ChessMove::en_passant(rank, file, next_rank as usize, target_file as usize));
        }
    }
}

fn push_forward(
    board: &Board,
    rank: usize,
    file: usize,
    piece: Piece,
    direction: isize,
    start_rank: usize,
    promotion_rank: usize,
    moves: &mut Vec<ChessMove>,
)
    requires
        rank < 8,
        file < 8,
        piece == board@.at(rank as int, file as int),
        piece == Piece::WhitePawn ==> direction == -1 && start_rank == 6 && promotion_rank == 0,
        piece == Piece::BlackPawn ==> direction == 1 && start_rank == 1 && promotion_rank == 7,
        piece == Piece::WhitePawn || piece == Piece::BlackPawn,
    ensures
        final(moves)@ == old(moves)@ + board@.pawn_pushes(rank as int, file as int),
        forall|i: int| old(moves)@.len() <= i < final(moves)@.len() ==> pawn_move_ok(#[trigger] final(moves)@[i], rank, file, piece),
{
    let white_side = piece == Piece::WhitePawn;
    let next_rank = rank as isize + direction;
    if next_rank >= 0 && next_rank < 8 && board.squares[next_rank as usize][file] == Piece::Empty {
        let next_rank_usize = next_rank as usize;
        if next_rank_usize == promotion_rank {
            push_promotions(rank, file, next_rank_usize, file, white_side, moves);
        } else {
            moves.push(ChessMove::new(rank, file, next_rank_usize, file));
            if rank == start_rank {
                let double_rank = rank as isize + direction * 2;
                if board.squares[double_rank as usize][file] == Piece::Empty {
                    moves.push(ChessMove::new(rank, file, double_rank as usize, file));
                }
            }
        }
    }
    assert(final(moves)@ =~= old(moves)@ + board@.pawn_pushes(rank as int, file as int));
}

/// Appends the moves of the pawn on (rank, file); nothing when no pawn stands there.
pub fn generate(board: &Board, rank: usize, file: usize, moves: &mut Vec<ChessMove>)
    requires
        rank < 8,
        file < 8,
    ensures
        final(moves)@ == old(moves)@ + board@.pawn_moves(rank as int, file as int),
        forall|i: int| old(moves)@.len() <= i < final(moves)@.len()
            ==> pawn_move_ok(#[trigger] final(moves)@[i], rank, file, board@.at(rank as int, file as int)),
{
    let piece = board.squares[rank][file];
    let direction: isize;
    let start_rank: usize;
    let promotion_rank: usize;
    match piece {
        Piece::WhitePawn => {
            direction = -1;
            start_rank = 6;
            promotion_rank = 0;
        },
        Piece::BlackPawn => {
            direction = 1;
            start_rank = 1;
            promotion_rank = 7;
        },
        _ => {
            assert(final(moves)@ =~= old(moves)@ + board@.pawn_moves(rank as int, file as int));
            return;
        },
    }
    push_forward(board, rank, file, piece, direction, start_rank, promotion_rank, moves);
    let ghost s1 = moves@;
    push_capture(board, rank, file, piece, -1, moves);
    push_capture(board, rank, file, piece, 1, moves);
    push_en_passant(board, rank, file, piece, -1, moves);
    push_en_passant(board, rank, file, piece, 1, moves);
    assert(moves@ =~= old(moves)@ + board@.pawn_moves(rank as int, file as int));
    assert forall|i: int| old(moves)@.len() <= i < moves@.len()
        implies pawn_move_ok(#[trigger] moves@[i], rank, file, piece) by {
        if i < s1.len() {
            assert(moves@[i] == s1[i]);
        }
    }
}

} // verus!
