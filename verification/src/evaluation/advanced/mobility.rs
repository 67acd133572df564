use vstd::prelude::*;
use crate::board::board::{Board, BoardModel, Color, step};
use crate::board::chess_move::ChessMove;
use crate::board::movegen::{knight_offset, bishop_dir, rook_dir};
use crate::board::pieces::{Piece, white, black, is_white, is_black};
use crate::evaluation::{
    Score, board_sum, lemma_board_sum_bounds, lemma_board_sum_ext, perspective, side_to_move_perspective,
};
use crate::movegen::{bishop, knight, rook};

verus! {

/// The number of squares a knight, bishop, rook or queen on (r, f) can move to:
/// empty squares and enemy pieces it reaches. Pawns and kings count nothing.
pub open spec fn mobility(m: BoardModel, r: int, f: int, p: Piece) -> int {
    match p {
        Piece::WhiteKnight | Piece::BlackKnight => m.knight_moves(r, f).len() as int,
        Piece::WhiteBishop | Piece::BlackBishop => m.bishop_moves(r, f).len() as int,
        Piece::WhiteRook | Piece::BlackRook => m.rook_moves(r, f).len() as int,
        Piece::WhiteQueen | Piece::BlackQueen => (m.bishop_moves(r, f).len() + m.rook_moves(r, f).len()) as int,
        _ => 0,
    }
}

pub open spec fn white_mobility(m: BoardModel, p: Piece, r: int, f: int) -> int {
    if white(p) { mobility(m, r, f, p) } else { 0 }
}

pub open spec fn black_mobility(m: BoardModel, p: Piece, r: int, f: int) -> int {
    if black(p) { mobility(m, r, f, p) } else { 0 }
}

pub open spec fn white_mobility_fn(m: BoardModel) -> spec_fn(Piece, int, int) -> int {
    |p: Piece, r: int, f: int| white_mobility(m, p, r, f)
}

pub open spec fn black_mobility_fn(m: BoardModel) -> spec_fn(Piece, int, int) -> int {
    |p: Piece, r: int, f: int| black_mobility(m, p, r, f)
}

/// Twice the difference in mobility, from the side to move's point of view.
pub open spec fn mobility_eval(m: BoardModel) -> int {
    perspective(m, (board_sum(m, 64, white_mobility_fn(m)) - board_sum(m, 64, black_mobility_fn(m))) * 2)
}

pub proof fn lemma_ray_len(m: BoardModel, piece: Piece, r: int, f: int, dr: int, df: int, k: int)
    requires
        1 <= k,
    ensures
        m.ray(piece, r, f, dr, df, k).len() <= 8 - k || k >= 8 && m.ray(piece, r, f, dr, df, k).len() == 0,
    decreases 8 - k,
{
    if k < 8 {
        lemma_ray_len(m, piece, r, f, dr, df, k + 1);
    }
}

pub proof fn lemma_prefix_lens(m: BoardModel, r: int, f: int, n: int)
    requires
        0 <= n <= 8,
    ensures
        m.knight_prefix(r, f, n).len() <= n,
        n <= 4 ==> m.bishop_prefix(r, f, n).len() <= 7 * n,
        n <= 4 ==> m.rook_prefix(r, f, n).len() <= 7 * n,
    decreases n,
{
    if n > 0 {
        lemma_prefix_lens(m, r, f, n - 1);
        let b = bishop_dir(n - 1);
        let q = rook_dir(n - 1);
        lemma_ray_len(m, m.at(r, f), r, f, b.0, b.1, 1);
        lemma_ray_len(m, m.at(r, f), r, f, q.0, q.1, 1);
    }
}

pub proof fn lemma_mobility_bounds(m: BoardModel, r: int, f: int, p: Piece)
    ensures
        0 <= mobility(m, r, f, p) <= 56,
{
    lemma_prefix_lens(m, r, f, 8);
    lemma_prefix_lens(m, r, f, 4);
}

proof fn lemma_mobility_sums(m: BoardModel, n: int)
    requires
        0 <= n <= 64,
    ensures
        0 <= board_sum(m, n, white_mobility_fn(m)) <= n * 56,
        0 <= board_sum(m, n, black_mobility_fn(m)) <= n * 56,
{
    assert forall|p: Piece, r: int, f: int| 0 <= #[trigger] white_mobility_fn(m)(p, r, f) <= 56 by {
        lemma_mobility_bounds(m, r, f, p);
    }
    assert forall|p: Piece, r: int, f: int| 0 <= #[trigger] black_mobility_fn(m)(p, r, f) <= 56 by {
        lemma_mobility_bounds(m, r, f, p);
    }
    lemma_board_sum_bounds(m, n, white_mobility_fn(m), 0, 56);
    lemma_board_sum_bounds(m, n, black_mobility_fn(m), 0, 56);
}

proof fn lemma_same_grid_ray(w: BoardModel, b: BoardModel, piece: Piece, r: int, f: int, dr: int, df: int, k: int)
    requires
        w.grid == b.grid,
    ensures
        w.ray(piece, r, f, dr, df, k) == b.ray(piece, r, f, dr, df, k),
    decreases 8 - k,
{
    if 1 <= k < 8 {
        lemma_same_grid_ray(w, b, piece, r, f, dr, df, k + 1);
    }
}

proof fn lemma_same_grid_moves(w: BoardModel, b: BoardModel, r: int, f: int, n: int)
    requires
        w.grid == b.grid,
    ensures
        w.knight_prefix(r, f, n) == b.knight_prefix(r, f, n),
        w.bishop_prefix(r, f, n) == b.bishop_prefix(r, f, n),
        w.rook_prefix(r, f, n) == b.rook_prefix(r, f, n),
    decreases n,
{
    if n > 0 {
        lemma_same_grid_moves(w, b, r, f, n - 1);
        let d = bishop_dir(n - 1);
        let q = rook_dir(n - 1);
        lemma_same_grid_ray(w, b, w.at(r, f), r, f, d.0, d.1, 1);
        lemma_same_grid_ray(w, b, w.at(r, f), r, f, q.0, q.1, 1);
    }
}

/// Mobility does not depend on whose move it is: the same position with the
/// other side to move scores the exact negation.
pub proof fn lemma_mobility_flips_with_turn(m: BoardModel)
    ensures
        mobility_eval(BoardModel { turn: Color::White, ..m })
            == -mobility_eval(BoardModel { turn: Color::Black, ..m }),
{
    let w = BoardModel { turn: Color::White, ..m };
    let b = BoardModel { turn: Color::Black, ..m };
    assert forall|p: Piece, r: int, f: int| #[trigger] white_mobility_fn(w)(p, r, f) == white_mobility_fn(b)(p, r, f) by {
        lemma_same_grid_moves(w, b, r, f, 8);
        lemma_same_grid_moves(w, b, r, f, 4);
    }
    assert forall|p: Piece, r: int, f: int| #[trigger] black_mobility_fn(w)(p, r, f) == black_mobility_fn(b)(p, r, f) by {
        lemma_same_grid_moves(w, b, r, f, 8);
        lemma_same_grid_moves(w, b, r, f, 4);
    }
    lemma_board_sum_ext(w, b, 64, white_mobility_fn(w), white_mobility_fn(b));
    lemma_board_sum_ext(w, b, 64, black_mobility_fn(w), black_mobility_fn(b));
}

pub struct PieceMobility;

impl PieceMobility {
    /// Twice the difference in the number of squares reachable by each side's
    /// knights, bishops, rooks and queens, from the side to move's point of view.
    pub fn evaluate(board: &Board) -> (s: Score)
        ensures
            s == mobility_eval(board@),
            -7168 <= s <= 7168,
    {
        let ghost m = board@;
        let mut white_mobility: i32 = 0;
        let mut black_mobility: i32 = 0;
        let mut i: usize = 0;
        while i < 64
            invariant
                i <= 64,
                m == board@,
                white_mobility == board_sum(m, i as int, white_mobility_fn(m)),
                black_mobility == board_sum(m, i as int, black_mobility_fn(m)),
            decreases 64 - i,
        {
            let rank = i / 8;
            let file = i % 8;
            proof {
                lemma_mobility_sums(m, i as int);
                lemma_mobility_bounds(m, rank as int, file as int, m.at(rank as int, file as int));
            }
            let piece = board.squares[rank][file];
            if piece != Piece::Empty {
                let count = Self::mobility_moves(board, rank, file, piece);
                if is_white(piece) {
                    white_mobility = white_mobility + count as i32;
                } else if is_black(piece) {
                    black_mobility = black_mobility + count as i32;
                }
            }
            i = i + 1;
        }
        proof {
            lemma_mobility_sums(m, 64);
        }
        side_to_move_perspective(board, (white_mobility - black_mobility) * 2)
    }

    /// The number of squares the piece on (rank, file) can move to.
    fn mobility_moves(board: &Board, rank: usize, file: usize, piece: Piece) -> (n: usize)
        requires
            rank < 8,
            file < 8,
            piece == board@.at(rank as int, file as int),
        ensures
            n == mobility(board@, rank as int, file as int, piece),
    {
        let mut moves: Vec<ChessMove> = Vec::new();
        match piece {
            Piece::WhiteKnight | Piece::BlackKnight => {
                knight::generate(board, rank, file, &mut moves);
            },
            Piece::WhiteBishop | Piece::BlackBishop => {
                bishop::generate(board, rank, file, &mut moves);
            },
            Piece::WhiteRook | Piece::BlackRook => {
                rook::generate(board, rank, file, &mut moves);
            },
            Piece::WhiteQueen | Piece::BlackQueen => {
                bishop::generate(board, rank, file, &mut moves);
                rook::generate(board, rank, file, &mut moves);
            },
            _ => {},
        }
        moves.len()
    }
}

} // verus!
