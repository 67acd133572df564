use vstd::prelude::*;
use crate::board::board::{Board, BoardModel, Color};
use crate::board::pieces::{Piece, white, black, is_white, is_black};
use crate::evaluation::{Score, board_sum, lemma_board_sum_bounds};

verus! {

/// Material value of a piece in centipawns (kings count nothing).
pub open spec fn value_of(p: Piece) -> int {
    match p {
        Piece::Empty => 0,
        Piece::WhitePawn | Piece::BlackPawn => 100,
        Piece::WhiteKnight | Piece::BlackKnight => 320,
        Piece::WhiteBishop | Piece::BlackBishop => 330,
        Piece::WhiteRook | Piece::BlackRook => 500,
        Piece::WhiteQueen | Piece::BlackQueen => 900,
        Piece::WhiteKing | Piece::BlackKing => 0,
    }
}

pub open spec fn white_value_fn() -> spec_fn(Piece, int, int) -> int {
    |p: Piece, r: int, f: int| white_value(p, r, f)
}

pub open spec fn white_value(p: Piece, r: int, f: int) -> int {
    if white(p) { value_of(p) } else { 0 }
}

pub open spec fn black_value_fn() -> spec_fn(Piece, int, int) -> int {
    |p: Piece, r: int, f: int| black_value(p, r, f)
}

pub open spec fn black_value(p: Piece, r: int, f: int) -> int {
    if black(p) { value_of(p) } else { 0 }
}

pub open spec fn white_bishop_count_fn() -> spec_fn(Piece, int, int) -> int {
    |p: Piece, r: int, f: int| white_bishop_count(p, r, f)
}

pub open spec fn white_bishop_count(p: Piece, r: int, f: int) -> int {
    if p == Piece::WhiteBishop { 1 } else { 0 }
}

pub open spec fn black_bishop_count_fn() -> spec_fn(Piece, int, int) -> int {
    |p: Piece, r: int, f: int| black_bishop_count(p, r, f)
}

pub open spec fn black_bishop_count(p: Piece, r: int, f: int) -> int {
    if p == Piece::BlackBishop { 1 } else { 0 }
}

/// White's material on the board.
pub open spec fn white_material(m: BoardModel) -> int {
    board_sum(m, 64, white_value_fn())
}

/// Black's material on the board.
pub open spec fn black_material(m: BoardModel) -> int {
    board_sum(m, 64, black_value_fn())
}

/// Material plus a 40 centipawn bonus for owning at least two bishops.
pub open spec fn white_material_score(m: BoardModel) -> int {
    white_material(m) + (if board_sum(m, 64, white_bishop_count_fn()) >= 2 { 40int } else { 0int })
}

pub open spec fn black_material_score(m: BoardModel) -> int {
    black_material(m) + (if board_sum(m, 64, black_bishop_count_fn()) >= 2 { 40int } else { 0int })
}

/// The material balance from the side to move's point of view.
pub open spec fn material_eval(m: BoardModel) -> int {
    if m.turn == Color::White {
        white_material_score(m) - black_material_score(m)
    } else {
        black_material_score(m) - white_material_score(m)
    }
}

pub proof fn lemma_material_bounds(m: BoardModel)
    ensures
        0 <= white_material(m) <= 64 * 900,
        0 <= black_material(m) <= 64 * 900,
        0 <= board_sum(m, 64, white_bishop_count_fn()) <= 64,
        0 <= board_sum(m, 64, black_bishop_count_fn()) <= 64,
{
    lemma_board_sum_bounds(m, 64, white_value_fn(), 0, 900);
    lemma_board_sum_bounds(m, 64, black_value_fn(), 0, 900);
    lemma_board_sum_bounds(m, 64, white_bishop_count_fn(), 0, 1);
    lemma_board_sum_bounds(m, 64, black_bishop_count_fn(), 0, 1);
}

pub struct MaterialEvaluation;

impl MaterialEvaluation {
    pub fn evaluate(board: &Board) -> (s: Score)
        ensures
            s == material_eval(board@),
            -57640 <= s <= 57640,
    {
        let ghost m = board@;
        let mut white_material: i32 = 0;
        let mut black_material: i32 = 0;
        let mut white_bishops: i32 = 0;
        let mut black_bishops: i32 = 0;
        let mut rank: usize = 0;
        while rank < 8
            invariant
                rank <= 8,
                m == board@,
                white_material == board_sum(m, (rank * 8) as int, white_value_fn()),
                black_material == board_sum(m, (rank * 8) as int, black_value_fn()),
                white_bishops == board_sum(m, (rank * 8) as int, white_bishop_count_fn()),
                black_bishops == board_sum(m, (rank * 8) as int, black_bishop_count_fn()),
            decreases 8 - rank,
        {
            let mut file: usize = 0;
            while file < 8
                invariant
                    rank < 8,
                    file <= 8,
                    m == board@,
                    white_material == board_sum(m, (rank * 8 + file) as int, white_value_fn()),
                    black_material == board_sum(m, (rank * 8 + file) as int, black_value_fn()),
                    white_bishops == board_sum(m, (rank * 8 + file) as int, white_bishop_count_fn()),
                    black_bishops == board_sum(m, (rank * 8 + file) as int, black_bishop_count_fn()),
                decreases 8 - file,
            {
                let ghost i: int = (rank * 8 + file) as int;
                proof {
                    assert(i / 8 == rank && i % 8 == file);
                    lemma_board_sum_bounds(m, i, white_value_fn(), 0, 900);
                    lemma_board_sum_bounds(m, i, black_value_fn(), 0, 900);
                    lemma_board_sum_bounds(m, i, white_bishop_count_fn(), 0, 1);
                    lemma_board_sum_bounds(m, i, black_bishop_count_fn(), 0, 1);
                }
                let piece = board.squares[rank][file];
                match piece {
                    Piece::WhitePawn => white_material += 100,
                    Piece::WhiteKnight => white_material += 320,
                    Piece::WhiteBishop => {
                        white_material += 330;
                        white_bishops += 1;
                    },
                    Piece::WhiteRook => white_material += 500,
                    Piece::WhiteQueen => white_material += 900,
                    Piece::WhiteKing => white_material += 0,
                    Piece::BlackPawn => black_material += 100,
                    Piece::BlackKnight => black_material += 320,
                    Piece::BlackBishop => {
                        black_material += 330;
                        black_bishops += 1;
                    },
                    Piece::BlackRook => black_material += 500,
                    Piece::BlackQueen => black_material += 900,
                    Piece::BlackKing => black_material += 0,
                    Piece::Empty => {},
                }
                file = file + 1;
            }
            rank = rank + 1;
        }
        proof {
            lemma_material_bounds(m);
        }
        let white_score = white_material + if white_bishops >= 2 { 40 } else { 0 };
        let black_score = black_material + if black_bishops >= 2 { 40 } else { 0 };
        if board.turn == Color::White {
            white_score - black_score
        } else {
            black_score - white_score
        }
    }

    pub fn piece_value(piece: Piece) -> (v: u32)
        ensures
            v == value_of(piece),
    {
        match piece {
            Piece::Empty => 0,
            Piece::WhitePawn | Piece::BlackPawn => 100,
            Piece::WhiteKnight | Piece::BlackKnight => 320,
            Piece::WhiteBishop | Piece::BlackBishop => 330,
            Piece::WhiteRook | Piece::BlackRook => 500,
            Piece::WhiteQueen | Piece::BlackQueen => 900,
            Piece::WhiteKing | Piece::BlackKing => 0,
        }
    }

    pub fn material_count(board: &Board) -> (r: (u32, u32))
        ensures
            r.0 == white_material(board@),
            r.1 == black_material(board@),
    {
        let ghost m = board@;
        let mut white: u32 = 0;
        let mut black: u32 = 0;
        let mut rank: usize = 0;
        while rank < 8
            invariant
                rank <= 8,
                m == board@,
                white == board_sum(m, (rank * 8) as int, white_value_fn()),
                black == board_sum(m, (rank * 8) as int, black_value_fn()),
            decreases 8 - rank,
        {
            let mut file: usize = 0;
            while file < 8
                invariant
                    rank < 8,
                    file <= 8,
                    m == board@,
                    white == board_sum(m, (rank * 8 + file) as int, white_value_fn()),
                    black == board_sum(m, (rank * 8 + file) as int, black_value_fn()),
                decreases 8 - file,
            {
                let ghost i: int = (rank * 8 + file) as int;
                proof {
                    assert(i / 8 == rank && i % 8 == file);
                    lemma_board_sum_bounds(m, i, white_value_fn(), 0, 900);
                    lemma_board_sum_bounds(m, i, black_value_fn(), 0, 900);
                }
                let piece = board.squares[rank][file];
                if is_white(piece) {
                    white += Self::piece_value(piece);
                } else if is_black(piece) {
                    black += Self::piece_value(piece);
                }
                file = file + 1;
            }
            rank = rank + 1;
        }
        (white, black)
    }
}

} // verus!
