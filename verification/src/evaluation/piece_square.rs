use vstd::prelude::*;
use crate::board::board::{Board, BoardModel, Color, opposite};
use crate::board::pieces::{Piece, white, black, is_white, is_black};
use crate::evaluation::{Score, board_sum, lemma_board_sum_bounds};

verus! {

pub const WHITE_PAWN_TABLE: [[Score; 8]; 8] = [
    [0, 0, 0, 0, 0, 0, 0, 0],
    [50, 50, 50, 50, 50, 50, 50, 50],
    [10, 10, 20, 30, 30, 20, 10, 10],
    [5, 5, 10, 25, 25, 10, 5, 5],
    [0, 0, 0, 20, 20, 0, 0, 0],
    [5, -5, -10, 0, 0, -10, -5, 5],
    [5, 10, 10, -20, -20, 10, 10, 5],
    [0, 0, 0, 0, 0, 0, 0, 0],
    ];

pub const BLACK_PAWN_TABLE: [[Score; 8]; 8] = [
    [0, 0, 0, 0, 0, 0, 0, 0],
    [5, 10, 10, -20, -20, 10, 10, 5],
    [5, -5, -10, 0, 0, -10, -5, 5],
    [0, 0, 0, 20, 20, 0, 0, 0],
    [5, 5, 10, 25, 25, 10, 5, 5],
    [10, 10, 20, 30, 30, 20, 10, 10],
    [50, 50, 50, 50, 50, 50, 50, 50],
    [0, 0, 0, 0, 0, 0, 0, 0],
    ];

pub const WHITE_KNIGHT_TABLE: [[Score; 8]; 8] = [
    [-50, -40, -30, -30, -30, -30, -40, -50],
    [-40, -20, 0, 0, 0, 0, -20, -40],
    [-30, 0, 10, 15, 15, 10, 0, -30],
    [-30, 5, 15, 20, 20, 15, 5, -30],
    [-30, 0, 15, 20, 20, 15, 0, -30],
    [-30, 5, 10, 15, 15, 10, 5, -30],
    [-40, -20, 0, 5, 5, 0, -20, -40],
    [-50, -40, -30, -30, -30, -30, -40, -50],
    ];

pub const BLACK_KNIGHT_TABLE: [[Score; 8]; 8] = [
    [-50, -40, -30, -30, -30, -30, -40, -50],
    [-40, -20, 0, 5, 5, 0, -20, -40],
    [-30, 5, 10, 15, 15, 10, 5, -30],
    [-30, 0, 15, 20, 20, 15, 0, -30],
    [-30, 5, 15, 20, 20, 15, 5, -30],
    [-30, 0, 10, 15, 15, 10, 0, -30],
    [-40, -20, 0, 0, 0, 0, -20, -40],
    [-50, -40, -30, -30, -30, -30, -40, -50],
    ];

pub const WHITE_BISHOP_TABLE: [[Score; 8]; 8] = [
    [-20, -10, -10, -10, -10, -10, -10, -20],
    [-10, 0, 0, 0, 0, 0, 0, -10],
    [-10, 0, 5, 10, 10, 5, 0, -10],
    [-10, 5, 5, 10, 10, 5, 5, -10],
    [-10, 0, 10, 10, 10, 10, 0, -10],
    [-10, 10, 10, 10, 10, 10, 10, -10],
    [-10, 5, 0, 0, 0, 0, 5, -10],
    [-20, -10, -10, -10, -10, -10, -10, -20],
    ];

pub const BLACK_BISHOP_TABLE: [[Score; 8]; 8] = [
    [-20, -10, -10, -10, -10, -10, -10, -20],
    [-10, 5, 0, 0, 0, 0, 5, -10],
    [-10, 10, 10, 10, 10, 10, 10, -10],
    [-10, 0, 10, 10, 10, 10, 0, -10],
    [-10, 5, 5, 10, 10, 5, 5, -10],
    [-10, 0, 5, 10, 10, 5, 0, -10],
    [-10, 0, 0, 0, 0, 0, 0, -10],
    [-20, -10, -10, -10, -10, -10, -10, -20],
    ];

pub const WHITE_ROOK_TABLE: [[Score; 8]; 8] = [
    [0, 0, 0, 0, 0, 0, 0, 0],
    [5, 10, 10, 10, 10, 10, 10, 5],
    [-5, 0, 0, 0, 0, 0, 0, -5],
    [-5, 0, 0, 0, 0, 0, 0, -5],
    [-5, 0, 0, 0, 0, 0, 0, -5],
    [-5, 0, 0, 0, 0, 0, 0, -5],
    [-5, 0, 0, 0, 0, 0, 0, -5],
    [0, 0, 0, 5, 5, 0, 0, 0],
    ];

pub const BLACK_ROOK_TABLE: [[Score; 8]; 8] = [
    [0, 0, 0, 5, 5, 0, 0, 0],
    [-5, 0, 0, 0, 0, 0, 0, -5],
    [-5, 0, 0, 0, 0, 0, 0, -5],
    [-5, 0, 0, 0, 0, 0, 0, -5],
    [-5, 0, 0, 0, 0, 0, 0, -5],
    [-5, 0, 0, 0, 0, 0, 0, -5],
    [5, 10, 10, 10, 10, 10, 10, 5],
    [0, 0, 0, 0, 0, 0, 0, 0],
    ];

pub const WHITE_QUEEN_TABLE: [[Score; 8]; 8] = [
    [-20, -10, -10, -5, -5, -10, -10, -20],
    [-10, 0, 0, 0, 0, 0, 0, -10],
    [-10, 0, 5, 5, 5, 5, 0, -10],
    [-5, 0, 5, 5, 5, 5, 0, -5],
    [0, 0, 5, 5, 5, 5, 0, -5],
    [-10, 5, 5, 5, 5, 5, 0, -10],
    [-10, 0, 5, 0, 0, 0, 0, -10],
    [-20, -10, -10, -5, -5, -10, -10, -20],
    ];

pub const BLACK_QUEEN_TABLE: [[Score; 8]; 8] = [
    [-20, -10, -10, -5, -5, -10, -10, -20],
    [-10, 0, 5, 0, 0, 0, 0, -10],
    [-10, 5, 5, 5, 5, 5, 0, -10],
    [0, 0, 5, 5, 5, 5, 0, -5],
    [-5, 0, 5, 5, 5, 5, 0, -5],
    [-10, 0, 5, 5, 5, 5, 0, -10],
    [-10, 0, 0, 0, 0, 0, 0, -10],
    [-20, -10, -10, -5, -5, -10, -10, -20],
    ];

pub const WHITE_KING_TABLE: [[Score; 8]; 8] = [
    [-30, -40, -40, -50, -50, -40, -40, -30],
    [-30, -40, -40, -50, -50, -40, -40, -30],
    [-30, -40, -40, -50, -50, -40, -40, -30],
    [-30, -40, -40, -50, -50, -40, -40, -30],
    [-20, -30, -30, -40, -40, -30, -30, -20],
    [-10, -20, -20, -20, -20, -20, -20, -10],
    [20, 30, 10, 0, 0, 10, 30, 20],
    [20, 30, 30, 10, 10, 30, 30, 20],
    ];

pub const BLACK_KING_TABLE: [[Score; 8]; 8] = [
    [20, 30, 30, 10, 10, 30, 30, 20],
    [20, 30, 10, 0, 0, 10, 30, 20],
    [-10, -20, -20, -20, -20, -20, -20, -10],
    [-20, -30, -30, -40, -40, -30, -30, -20],
    [-30, -40, -40, -50, -50, -40, -40, -30],
    [-30, -40, -40, -50, -50, -40, -40, -30],
    [-30, -40, -40, -50, -50, -40, -40, -30],
    [-30, -40, -40, -50, -50, -40, -40, -30],
    ];

pub const WHITE_KING_ENDGAME_TABLE: [[Score; 8]; 8] = [
    [-24, -48, -72, -72, -72, -72, -48, -24],
    [-48, -64, -16, -24, -24, -16, -64, -48],
    [-72, -16, 0, 8, 8, 0, -16, -72],
    [-72, -24, 8, 40, 40, 8, -24, -72],
    [-72, -24, 8, 40, 40, 8, -24, -72],
    [-72, -16, 0, 8, 8, 0, -16, -72],
    [-48, -64, -16, -24, -24, -16, -64, -48],
    [-24, -48, -72, -72, -72, -72, -48, -24],
    ];

pub const BLACK_KING_ENDGAME_TABLE: [[Score; 8]; 8] = [
    [-24, -48, -72, -72, -72, -72, -48, -24],
    [-48, -64, -16, -24, -24, -16, -64, -48],
    [-72, -16, 0, 8, 8, 0, -16, -72],
    [-72, -24, 8, 40, 40, 8, -24, -72],
    [-72, -24, 8, 40, 40, 8, -24, -72],
    [-72, -16, 0, 8, 8, 0, -16, -72],
    [-48, -64, -16, -24, -24, -16, -64, -48],
    [-24, -48, -72, -72, -72, -72, -48, -24],
    ];


/// Every entry of a table lies between -100 and 100.
pub open spec fn table_bounded(t: [[Score; 8]; 8]) -> bool {
    forall|r: int, f: int| 0 <= r < 8 && 0 <= f < 8 ==> -100 <= #[trigger] t[r][f] <= 100
}

proof fn lemma_row_bounded(row: [Score; 8])
    requires
        -100 <= row[0] <= 100, -100 <= row[1] <= 100, -100 <= row[2] <= 100, -100 <= row[3] <= 100,
        -100 <= row[4] <= 100, -100 <= row[5] <= 100, -100 <= row[6] <= 100, -100 <= row[7] <= 100,
    ensures
        forall|f: int| 0 <= f < 8 ==> -100 <= #[trigger] row[f] <= 100,
{
    assert forall|f: int| 0 <= f < 8 implies -100 <= #[trigger] row[f] <= 100 by {
        if f == 0 {} else if f == 1 {} else if f == 2 {} else if f == 3 {} else if f == 4 {} else if f == 5 {} else if f == 6 {} else {}
    }
}

proof fn lemma_table_bounded(t: [[Score; 8]; 8])
    requires
        forall|f: int| 0 <= f < 8 ==> -100 <= #[trigger] t[0][f] <= 100,
        forall|f: int| 0 <= f < 8 ==> -100 <= #[trigger] t[1][f] <= 100,
        forall|f: int| 0 <= f < 8 ==> -100 <= #[trigger] t[2][f] <= 100,
        forall|f: int| 0 <= f < 8 ==> -100 <= #[trigger] t[3][f] <= 100,
        forall|f: int| 0 <= f < 8 ==> -100 <= #[trigger] t[4][f] <= 100,
        forall|f: int| 0 <= f < 8 ==> -100 <= #[trigger] t[5][f] <= 100,
        forall|f: int| 0 <= f < 8 ==> -100 <= #[trigger] t[6][f] <= 100,
        forall|f: int| 0 <= f < 8 ==> -100 <= #[trigger] t[7][f] <= 100,
    ensures
        table_bounded(t),
{
    assert forall|r: int, f: int| 0 <= r < 8 && 0 <= f < 8 implies -100 <= #[trigger] t[r][f] <= 100 by {
        if r == 0 {} else if r == 1 {} else if r == 2 {} else if r == 3 {} else if r == 4 {} else if r == 5 {} else if r == 6 {} else {}
    }
}

/// All piece-square tables stay within 100 centipawns.
pub proof fn lemma_tables_bounded()
    ensures
        table_bounded(WHITE_PAWN_TABLE),
        table_bounded(BLACK_PAWN_TABLE),
        table_bounded(WHITE_KNIGHT_TABLE),
        table_bounded(BLACK_KNIGHT_TABLE),
        table_bounded(WHITE_BISHOP_TABLE),
        table_bounded(BLACK_BISHOP_TABLE),
        table_bounded(WHITE_ROOK_TABLE),
        table_bounded(BLACK_ROOK_TABLE),
        table_bounded(WHITE_QUEEN_TABLE),
        table_bounded(BLACK_QUEEN_TABLE),
        table_bounded(WHITE_KING_TABLE),
        table_bounded(BLACK_KING_TABLE),
        table_bounded(WHITE_KING_ENDGAME_TABLE),
        table_bounded(BLACK_KING_ENDGAME_TABLE),
{
    lemma_row_bounded(WHITE_PAWN_TABLE[0]);
    lemma_row_bounded(WHITE_PAWN_TABLE[1]);
    lemma_row_bounded(WHITE_PAWN_TABLE[2]);
    lemma_row_bounded(WHITE_PAWN_TABLE[3]);
    lemma_row_bounded(WHITE_PAWN_TABLE[4]);
    lemma_row_bounded(WHITE_PAWN_TABLE[5]);
    lemma_row_bounded(WHITE_PAWN_TABLE[6]);
    lemma_row_bounded(WHITE_PAWN_TABLE[7]);
    lemma_table_bounded(WHITE_PAWN_TABLE);
    lemma_row_bounded(BLACK_PAWN_TABLE[0]);
    lemma_row_bounded(BLACK_PAWN_TABLE[1]);
    lemma_row_bounded(BLACK_PAWN_TABLE[2]);
    lemma_row_bounded(BLACK_PAWN_TABLE[3]);
    lemma_row_bounded(BLACK_PAWN_TABLE[4]);
    lemma_row_bounded(BLACK_PAWN_TABLE[5]);
    lemma_row_bounded(BLACK_PAWN_TABLE[6]);
    lemma_row_bounded(BLACK_PAWN_TABLE[7]);
    lemma_table_bounded(BLACK_PAWN_TABLE);
    lemma_row_bounded(WHITE_KNIGHT_TABLE[0]);
    lemma_row_bounded(WHITE_KNIGHT_TABLE[1]);
    lemma_row_bounded(WHITE_KNIGHT_TABLE[2]);
    lemma_row_bounded(WHITE_KNIGHT_TABLE[3]);
    lemma_row_bounded(WHITE_KNIGHT_TABLE[4]);
    lemma_row_bounded(WHITE_KNIGHT_TABLE[5]);
    lemma_row_bounded(WHITE_KNIGHT_TABLE[6]);
    lemma_row_bounded(WHITE_KNIGHT_TABLE[7]);
    lemma_table_bounded(WHITE_KNIGHT_TABLE);
    lemma_row_bounded(BLACK_KNIGHT_TABLE[0]);
    lemma_row_bounded(BLACK_KNIGHT_TABLE[1]);
    lemma_row_bounded(BLACK_KNIGHT_TABLE[2]);
    lemma_row_bounded(BLACK_KNIGHT_TABLE[3]);
    lemma_row_bounded(BLACK_KNIGHT_TABLE[4]);
    lemma_row_bounded(BLACK_KNIGHT_TABLE[5]);
    lemma_row_bounded(BLACK_KNIGHT_TABLE[6]);
    lemma_row_bounded(BLACK_KNIGHT_TABLE[7]);
    lemma_table_bounded(BLACK_KNIGHT_TABLE);
    lemma_row_bounded(WHITE_BISHOP_TABLE[0]);
    lemma_row_bounded(WHITE_BISHOP_TABLE[1]);
    lemma_row_bounded(WHITE_BISHOP_TABLE[2]);
    lemma_row_bounded(WHITE_BISHOP_TABLE[3]);
    lemma_row_bounded(WHITE_BISHOP_TABLE[4]);
    lemma_row_bounded(WHITE_BISHOP_TABLE[5]);
    lemma_row_bounded(WHITE_BISHOP_TABLE[6]);
    lemma_row_bounded(WHITE_BISHOP_TABLE[7]);
    lemma_table_bounded(WHITE_BISHOP_TABLE);
    lemma_row_bounded(BLACK_BISHOP_TABLE[0]);
    lemma_row_bounded(BLACK_BISHOP_TABLE[1]);
    lemma_row_bounded(BLACK_BISHOP_TABLE[2]);
    lemma_row_bounded(BLACK_BISHOP_TABLE[3]);
    lemma_row_bounded(BLACK_BISHOP_TABLE[4]);
    lemma_row_bounded(BLACK_BISHOP_TABLE[5]);
    lemma_row_bounded(BLACK_BISHOP_TABLE[6]);
    lemma_row_bounded(BLACK_BISHOP_TABLE[7]);
    lemma_table_bounded(BLACK_BISHOP_TABLE);
    lemma_row_bounded(WHITE_ROOK_TABLE[0]);
    lemma_row_bounded(WHITE_ROOK_TABLE[1]);
    lemma_row_bounded(WHITE_ROOK_TABLE[2]);
    lemma_row_bounded(WHITE_ROOK_TABLE[3]);
    lemma_row_bounded(WHITE_ROOK_TABLE[4]);
    lemma_row_bounded(WHITE_ROOK_TABLE[5]);
    lemma_row_bounded(WHITE_ROOK_TABLE[6]);
    lemma_row_bounded(WHITE_ROOK_TABLE[7]);
    lemma_table_bounded(WHITE_ROOK_TABLE);
    lemma_row_bounded(BLACK_ROOK_TABLE[0]);
    lemma_row_bounded(BLACK_ROOK_TABLE[1]);
    lemma_row_bounded(BLACK_ROOK_TABLE[2]);
    lemma_row_bounded(BLACK_ROOK_TABLE[3]);
    lemma_row_bounded(BLACK_ROOK_TABLE[4]);
    lemma_row_bounded(BLACK_ROOK_TABLE[5]);
    lemma_row_bounded(BLACK_ROOK_TABLE[6]);
    lemma_row_bounded(BLACK_ROOK_TABLE[7]);
    lemma_table_bounded(BLACK_ROOK_TABLE);
    lemma_row_bounded(WHITE_QUEEN_TABLE[0]);
    lemma_row_bounded(WHITE_QUEEN_TABLE[1]);
    lemma_row_bounded(WHITE_QUEEN_TABLE[2]);
    lemma_row_bounded(WHITE_QUEEN_TABLE[3]);
    lemma_row_bounded(WHITE_QUEEN_TABLE[4]);
    lemma_row_bounded(WHITE_QUEEN_TABLE[5]);
    lemma_row_bounded(WHITE_QUEEN_TABLE[6]);
    lemma_row_bounded(WHITE_QUEEN_TABLE[7]);
    lemma_table_bounded(WHITE_QUEEN_TABLE);
    lemma_row_bounded(BLACK_QUEEN_TABLE[0]);
    lemma_row_bounded(BLACK_QUEEN_TABLE[1]);
    lemma_row_bounded(BLACK_QUEEN_TABLE[2]);
    lemma_row_bounded(BLACK_QUEEN_TABLE[3]);
    lemma_row_bounded(BLACK_QUEEN_TABLE[4]);
    lemma_row_bounded(BLACK_QUEEN_TABLE[5]);
    lemma_row_bounded(BLACK_QUEEN_TABLE[6]);
    lemma_row_bounded(BLACK_QUEEN_TABLE[7]);
    lemma_table_bounded(BLACK_QUEEN_TABLE);
    lemma_row_bounded(WHITE_KING_TABLE[0]);
    lemma_row_bounded(WHITE_KING_TABLE[1]);
    lemma_row_bounded(WHITE_KING_TABLE[2]);
    lemma_row_bounded(WHITE_KING_TABLE[3]);
    lemma_row_bounded(WHITE_KING_TABLE[4]);
    lemma_row_bounded(WHITE_KING_TABLE[5]);
    lemma_row_bounded(WHITE_KING_TABLE[6]);
    lemma_row_bounded(WHITE_KING_TABLE[7]);
    lemma_table_bounded(WHITE_KING_TABLE);
    lemma_row_bounded(BLACK_KING_TABLE[0]);
    lemma_row_bounded(BLACK_KING_TABLE[1]);
    lemma_row_bounded(BLACK_KING_TABLE[2]);
    lemma_row_bounded(BLACK_KING_TABLE[3]);
    lemma_row_bounded(BLACK_KING_TABLE[4]);
    lemma_row_bounded(BLACK_KING_TABLE[5]);
    lemma_row_bounded(BLACK_KING_TABLE[6]);
    lemma_row_bounded(BLACK_KING_TABLE[7]);
    lemma_table_bounded(BLACK_KING_TABLE);
    lemma_row_bounded(WHITE_KING_ENDGAME_TABLE[0]);
    lemma_row_bounded(WHITE_KING_ENDGAME_TABLE[1]);
    lemma_row_bounded(WHITE_KING_ENDGAME_TABLE[2]);
    lemma_row_bounded(WHITE_KING_ENDGAME_TABLE[3]);
    lemma_row_bounded(WHITE_KING_ENDGAME_TABLE[4]);
    lemma_row_bounded(WHITE_KING_ENDGAME_TABLE[5]);
    lemma_row_bounded(WHITE_KING_ENDGAME_TABLE[6]);
    lemma_row_bounded(WHITE_KING_ENDGAME_TABLE[7]);
    lemma_table_bounded(WHITE_KING_ENDGAME_TABLE);
    lemma_row_bounded(BLACK_KING_ENDGAME_TABLE[0]);
    lemma_row_bounded(BLACK_KING_ENDGAME_TABLE[1]);
    lemma_row_bounded(BLACK_KING_ENDGAME_TABLE[2]);
    lemma_row_bounded(BLACK_KING_ENDGAME_TABLE[3]);
    lemma_row_bounded(BLACK_KING_ENDGAME_TABLE[4]);
    lemma_row_bounded(BLACK_KING_ENDGAME_TABLE[5]);
    lemma_row_bounded(BLACK_KING_ENDGAME_TABLE[6]);
    lemma_row_bounded(BLACK_KING_ENDGAME_TABLE[7]);
    lemma_table_bounded(BLACK_KING_ENDGAME_TABLE);
}

/// The phase of the game as a fraction of 6400: the non-pawn material on the
/// board, capped at 6400 (6400 in the opening, falling to 0 as pieces leave).
pub open spec fn phase_of(m: BoardModel) -> int {
    let np = board_sum(m, 64, non_pawn_fn());
    if np > 6400 { 6400 } else { np }
}

pub open spec fn non_pawn(p: Piece) -> int {
    match p {
        Piece::WhiteKnight | Piece::BlackKnight => 320,
        Piece::WhiteBishop | Piece::BlackBishop => 330,
        Piece::WhiteRook | Piece::BlackRook => 500,
        Piece::WhiteQueen | Piece::BlackQueen => 900,
        _ => 0,
    }
}

pub open spec fn non_pawn_fn() -> spec_fn(Piece, int, int) -> int {
    |p: Piece, r: int, f: int| non_pawn(p)
}

/// The middlegame-to-endgame taper `mid * phase + end * (1 - phase)` with the
/// phase as a fraction of 6400, rounded to the nearest integer, halves away from zero.
pub open spec fn blend_spec(mid: int, end: int, phase: int) -> int {
    let num = mid * phase + end * (6400 - phase);
    if num >= 0 { (num + 3200) / 6400 } else { -((-num + 3200) / 6400) }
}

/// The piece-square value of a piece on a square at a game phase.
#[verifier::opaque]
pub open spec fn pst_value(p: Piece, r: int, f: int, phase: int) -> int {
    match p {
        Piece::WhitePawn => WHITE_PAWN_TABLE[r][f] as int,
        Piece::WhiteKnight => WHITE_KNIGHT_TABLE[r][f] as int,
        Piece::WhiteBishop => WHITE_BISHOP_TABLE[r][f] as int,
        Piece::WhiteRook => WHITE_ROOK_TABLE[r][f] as int,
        Piece::WhiteQueen => WHITE_QUEEN_TABLE[r][f] as int,
        Piece::WhiteKing => blend_spec(WHITE_KING_TABLE[r][f] as int, WHITE_KING_ENDGAME_TABLE[r][f] as int, phase),
        Piece::BlackPawn => BLACK_PAWN_TABLE[r][f] as int,
        Piece::BlackKnight => BLACK_KNIGHT_TABLE[r][f] as int,
        Piece::BlackBishop => BLACK_BISHOP_TABLE[r][f] as int,
        Piece::BlackRook => BLACK_ROOK_TABLE[r][f] as int,
        Piece::BlackQueen => BLACK_QUEEN_TABLE[r][f] as int,
        Piece::BlackKing => blend_spec(BLACK_KING_TABLE[r][f] as int, BLACK_KING_ENDGAME_TABLE[r][f] as int, phase),
        Piece::Empty => 0,
    }
}

pub open spec fn white_pst_fn(phase: int) -> spec_fn(Piece, int, int) -> int {
    |p: Piece, r: int, f: int| if white(p) { pst_value(p, r, f, phase) } else { 0 }
}

pub open spec fn black_pst_fn(phase: int) -> spec_fn(Piece, int, int) -> int {
    |p: Piece, r: int, f: int| if black(p) { pst_value(p, r, f, phase) } else { 0 }
}

/// The piece-square balance from the side to move's point of view.
pub open spec fn pst_eval(m: BoardModel) -> int {
    let ph = phase_of(m);
    let w = board_sum(m, 64, white_pst_fn(ph));
    let b = board_sum(m, 64, black_pst_fn(ph));
    if m.turn == Color::White { w - b } else { b - w }
}

proof fn lemma_blend_bounds(mid: int, end: int, phase: int)
    requires
        -100 <= mid <= 100,
        -100 <= end <= 100,
        0 <= phase <= 6400,
    ensures
        -100 <= blend_spec(mid, end, phase) <= 100,
{
    let num = mid * phase + end * (6400 - phase);
    assert(-640000 <= num <= 640000) by (nonlinear_arith)
        requires
            -100 <= mid <= 100,
            -100 <= end <= 100,
            0 <= phase <= 6400,
            num == mid * phase + end * (6400 - phase);
}

/// Every piece-square value lies within 100 centipawns.
pub proof fn lemma_pst_bounds(p: Piece, r: int, f: int, phase: int)
    requires
        0 <= r < 8,
        0 <= f < 8,
        0 <= phase <= 6400,
    ensures
        -100 <= pst_value(p, r, f, phase) <= 100,
{
    reveal(pst_value);
    lemma_tables_bounded();
    assert(-100 <= WHITE_KING_TABLE[r][f] <= 100);
    assert(-100 <= WHITE_KING_ENDGAME_TABLE[r][f] <= 100);
    assert(-100 <= BLACK_KING_TABLE[r][f] <= 100);
    assert(-100 <= BLACK_KING_ENDGAME_TABLE[r][f] <= 100);
    assert(-100 <= WHITE_PAWN_TABLE[r][f] <= 100);
    assert(-100 <= WHITE_KNIGHT_TABLE[r][f] <= 100);
    assert(-100 <= WHITE_BISHOP_TABLE[r][f] <= 100);
    assert(-100 <= WHITE_ROOK_TABLE[r][f] <= 100);
    assert(-100 <= WHITE_QUEEN_TABLE[r][f] <= 100);
    assert(-100 <= BLACK_PAWN_TABLE[r][f] <= 100);
    assert(-100 <= BLACK_KNIGHT_TABLE[r][f] <= 100);
    assert(-100 <= BLACK_BISHOP_TABLE[r][f] <= 100);
    assert(-100 <= BLACK_ROOK_TABLE[r][f] <= 100);
    assert(-100 <= BLACK_QUEEN_TABLE[r][f] <= 100);
    lemma_blend_bounds(WHITE_KING_TABLE[r][f] as int, WHITE_KING_ENDGAME_TABLE[r][f] as int, phase);
    lemma_blend_bounds(BLACK_KING_TABLE[r][f] as int, BLACK_KING_ENDGAME_TABLE[r][f] as int, phase);
}

/// A sum over squares of bounded terms.
proof fn lemma_pst_sum_bounds(m: BoardModel, n: int, phase: int)
    requires
        0 <= n <= 64,
        0 <= phase <= 6400,
    ensures
        -100 * n <= board_sum(m, n, white_pst_fn(phase)) <= 100 * n,
        -100 * n <= board_sum(m, n, black_pst_fn(phase)) <= 100 * n,
    decreases n,
{
    if n > 0 {
        lemma_pst_sum_bounds(m, n - 1, phase);
        lemma_pst_bounds(m.at((n - 1) / 8, (n - 1) % 8), (n - 1) / 8, (n - 1) % 8, phase);
    }
}

/// A table for black that is the white table with the ranks reversed.
pub open spec fn mirror_table(b: [[Score; 8]; 8], w: [[Score; 8]; 8]) -> bool {
    forall|r: int, f: int| 0 <= r < 8 && 0 <= f < 8 ==> #[trigger] b[r][f] == w[7 - r][f]
}

proof fn lemma_rows_mirror(x: [Score; 8], y: [Score; 8])
    requires
        x[0] == y[0], x[1] == y[1], x[2] == y[2], x[3] == y[3],
        x[4] == y[4], x[5] == y[5], x[6] == y[6], x[7] == y[7],
    ensures
        forall|f: int| 0 <= f < 8 ==> #[trigger] x[f] == y[f],
{
    assert forall|f: int| 0 <= f < 8 implies #[trigger] x[f] == y[f] by {
        if f == 0 {} else if f == 1 {} else if f == 2 {} else if f == 3 {} else if f == 4 {} else if f == 5 {} else if f == 6 {} else {}
    }
}

proof fn lemma_table_mirror(b: [[Score; 8]; 8], w: [[Score; 8]; 8])
    requires
        forall|f: int| 0 <= f < 8 ==> #[trigger] b[0][f] == w[7][f],
        forall|f: int| 0 <= f < 8 ==> #[trigger] b[1][f] == w[6][f],
        forall|f: int| 0 <= f < 8 ==> #[trigger] b[2][f] == w[5][f],
        forall|f: int| 0 <= f < 8 ==> #[trigger] b[3][f] == w[4][f],
        forall|f: int| 0 <= f < 8 ==> #[trigger] b[4][f] == w[3][f],
        forall|f: int| 0 <= f < 8 ==> #[trigger] b[5][f] == w[2][f],
        forall|f: int| 0 <= f < 8 ==> #[trigger] b[6][f] == w[1][f],
        forall|f: int| 0 <= f < 8 ==> #[trigger] b[7][f] == w[0][f],
    ensures
        mirror_table(b, w),
{
    assert forall|r: int, f: int| 0 <= r < 8 && 0 <= f < 8 implies #[trigger] b[r][f] == w[7 - r][f] by {
        if r == 0 {} else if r == 1 {} else if r == 2 {} else if r == 3 {} else if r == 4 {} else if r == 5 {} else if r == 6 {} else {}
    }
}

/// Every black table is its white table seen from the other side of the board.
pub proof fn lemma_tables_mirrored()
    ensures
        mirror_table(BLACK_PAWN_TABLE, WHITE_PAWN_TABLE),
        mirror_table(BLACK_KNIGHT_TABLE, WHITE_KNIGHT_TABLE),
        mirror_table(BLACK_BISHOP_TABLE, WHITE_BISHOP_TABLE),
        mirror_table(BLACK_ROOK_TABLE, WHITE_ROOK_TABLE),
        mirror_table(BLACK_QUEEN_TABLE, WHITE_QUEEN_TABLE),
        mirror_table(BLACK_KING_TABLE, WHITE_KING_TABLE),
        mirror_table(BLACK_KING_ENDGAME_TABLE, WHITE_KING_ENDGAME_TABLE),
{
    lemma_rows_mirror(BLACK_PAWN_TABLE[0], WHITE_PAWN_TABLE[7]);
    lemma_rows_mirror(BLACK_PAWN_TABLE[1], WHITE_PAWN_TABLE[6]);
    lemma_rows_mirror(BLACK_PAWN_TABLE[2], WHITE_PAWN_TABLE[5]);
    lemma_rows_mirror(BLACK_PAWN_TABLE[3], WHITE_PAWN_TABLE[4]);
    lemma_rows_mirror(BLACK_PAWN_TABLE[4], WHITE_PAWN_TABLE[3]);
    lemma_rows_mirror(BLACK_PAWN_TABLE[5], WHITE_PAWN_TABLE[2]);
    lemma_rows_mirror(BLACK_PAWN_TABLE[6], WHITE_PAWN_TABLE[1]);
    lemma_rows_mirror(BLACK_PAWN_TABLE[7], WHITE_PAWN_TABLE[0]);
    lemma_table_mirror(BLACK_PAWN_TABLE, WHITE_PAWN_TABLE);
    lemma_rows_mirror(BLACK_KNIGHT_TABLE[0], WHITE_KNIGHT_TABLE[7]);
    lemma_rows_mirror(BLACK_KNIGHT_TABLE[1], WHITE_KNIGHT_TABLE[6]);
    lemma_rows_mirror(BLACK_KNIGHT_TABLE[2], WHITE_KNIGHT_TABLE[5]);
    lemma_rows_mirror(BLACK_KNIGHT_TABLE[3], WHITE_KNIGHT_TABLE[4]);
    lemma_rows_mirror(BLACK_KNIGHT_TABLE[4], WHITE_KNIGHT_TABLE[3]);
    lemma_rows_mirror(BLACK_KNIGHT_TABLE[5], WHITE_KNIGHT_TABLE[2]);
    lemma_rows_mirror(BLACK_KNIGHT_TABLE[6], WHITE_KNIGHT_TABLE[1]);
    lemma_rows_mirror(BLACK_KNIGHT_TABLE[7], WHITE_KNIGHT_TABLE[0]);
    lemma_table_mirror(BLACK_KNIGHT_TABLE, WHITE_KNIGHT_TABLE);
    lemma_rows_mirror(BLACK_BISHOP_TABLE[0], WHITE_BISHOP_TABLE[7]);
    lemma_rows_mirror(BLACK_BISHOP_TABLE[1], WHITE_BISHOP_TABLE[6]);
    lemma_rows_mirror(BLACK_BISHOP_TABLE[2], WHITE_BISHOP_TABLE[5]);
    lemma_rows_mirror(BLACK_BISHOP_TABLE[3], WHITE_BISHOP_TABLE[4]);
    lemma_rows_mirror(BLACK_BISHOP_TABLE[4], WHITE_BISHOP_TABLE[3]);
    lemma_rows_mirror(BLACK_BISHOP_TABLE[5], WHITE_BISHOP_TABLE[2]);
    lemma_rows_mirror(BLACK_BISHOP_TABLE[6], WHITE_BISHOP_TABLE[1]);
    lemma_rows_mirror(BLACK_BISHOP_TABLE[7], WHITE_BISHOP_TABLE[0]);
    lemma_table_mirror(BLACK_BISHOP_TABLE, WHITE_BISHOP_TABLE);
    lemma_rows_mirror(BLACK_ROOK_TABLE[0], WHITE_ROOK_TABLE[7]);
    lemma_rows_mirror(BLACK_ROOK_TABLE[1], WHITE_ROOK_TABLE[6]);
    lemma_rows_mirror(BLACK_ROOK_TABLE[2], WHITE_ROOK_TABLE[5]);
    lemma_rows_mirror(BLACK_ROOK_TABLE[3], WHITE_ROOK_TABLE[4]);
    lemma_rows_mirror(BLACK_ROOK_TABLE[4], WHITE_ROOK_TABLE[3]);
    lemma_rows_mirror(BLACK_ROOK_TABLE[5], WHITE_ROOK_TABLE[2]);
    lemma_rows_mirror(BLACK_ROOK_TABLE[6], WHITE_ROOK_TABLE[1]);
    lemma_rows_mirror(BLACK_ROOK_TABLE[7], WHITE_ROOK_TABLE[0]);
    lemma_table_mirror(BLACK_ROOK_TABLE, WHITE_ROOK_TABLE);
    lemma_rows_mirror(BLACK_QUEEN_TABLE[0], WHITE_QUEEN_TABLE[7]);
    lemma_rows_mirror(BLACK_QUEEN_TABLE[1], WHITE_QUEEN_TABLE[6]);
    lemma_rows_mirror(BLACK_QUEEN_TABLE[2], WHITE_QUEEN_TABLE[5]);
    lemma_rows_mirror(BLACK_QUEEN_TABLE[3], WHITE_QUEEN_TABLE[4]);
    lemma_rows_mirror(BLACK_QUEEN_TABLE[4], WHITE_QUEEN_TABLE[3]);
    lemma_rows_mirror(BLACK_QUEEN_TABLE[5], WHITE_QUEEN_TABLE[2]);
    lemma_rows_mirror(BLACK_QUEEN_TABLE[6], WHITE_QUEEN_TABLE[1]);
    lemma_rows_mirror(BLACK_QUEEN_TABLE[7], WHITE_QUEEN_TABLE[0]);
    lemma_table_mirror(BLACK_QUEEN_TABLE, WHITE_QUEEN_TABLE);
    lemma_rows_mirror(BLACK_KING_TABLE[0], WHITE_KING_TABLE[7]);
    lemma_rows_mirror(BLACK_KING_TABLE[1], WHITE_KING_TABLE[6]);
    lemma_rows_mirror(BLACK_KING_TABLE[2], WHITE_KING_TABLE[5]);
    lemma_rows_mirror(BLACK_KING_TABLE[3], WHITE_KING_TABLE[4]);
    lemma_rows_mirror(BLACK_KING_TABLE[4], WHITE_KING_TABLE[3]);
    lemma_rows_mirror(BLACK_KING_TABLE[5], WHITE_KING_TABLE[2]);
    lemma_rows_mirror(BLACK_KING_TABLE[6], WHITE_KING_TABLE[1]);
    lemma_rows_mirror(BLACK_KING_TABLE[7], WHITE_KING_TABLE[0]);
    lemma_table_mirror(BLACK_KING_TABLE, WHITE_KING_TABLE);
    lemma_rows_mirror(BLACK_KING_ENDGAME_TABLE[0], WHITE_KING_ENDGAME_TABLE[7]);
    lemma_rows_mirror(BLACK_KING_ENDGAME_TABLE[1], WHITE_KING_ENDGAME_TABLE[6]);
    lemma_rows_mirror(BLACK_KING_ENDGAME_TABLE[2], WHITE_KING_ENDGAME_TABLE[5]);
    lemma_rows_mirror(BLACK_KING_ENDGAME_TABLE[3], WHITE_KING_ENDGAME_TABLE[4]);
    lemma_rows_mirror(BLACK_KING_ENDGAME_TABLE[4], WHITE_KING_ENDGAME_TABLE[3]);
    lemma_rows_mirror(BLACK_KING_ENDGAME_TABLE[5], WHITE_KING_ENDGAME_TABLE[2]);
    lemma_rows_mirror(BLACK_KING_ENDGAME_TABLE[6], WHITE_KING_ENDGAME_TABLE[1]);
    lemma_rows_mirror(BLACK_KING_ENDGAME_TABLE[7], WHITE_KING_ENDGAME_TABLE[0]);
    lemma_table_mirror(BLACK_KING_ENDGAME_TABLE, WHITE_KING_ENDGAME_TABLE);
}

/// The piece of the same kind and the other colour.
pub open spec fn swap_colour(p: Piece) -> Piece {
    match p {
        Piece::WhitePawn => Piece::BlackPawn,
        Piece::WhiteKnight => Piece::BlackKnight,
        Piece::WhiteBishop => Piece::BlackBishop,
        Piece::WhiteRook => Piece::BlackRook,
        Piece::WhiteQueen => Piece::BlackQueen,
        Piece::WhiteKing => Piece::BlackKing,
        Piece::BlackPawn => Piece::WhitePawn,
        Piece::BlackKnight => Piece::WhiteKnight,
        Piece::BlackBishop => Piece::WhiteBishop,
        Piece::BlackRook => Piece::WhiteRook,
        Piece::BlackQueen => Piece::WhiteQueen,
        Piece::BlackKing => Piece::WhiteKing,
        Piece::Empty => Piece::Empty,
    }
}

/// The position seen from the other side: ranks reversed, colours swapped and
/// the other side to move.
pub open spec fn mirrored(m: BoardModel) -> BoardModel {
    BoardModel {
        grid: Seq::new(8, |r: int| Seq::new(8, |f: int| swap_colour(m.at(7 - r, f)))),
        turn: opposite(m.turn),
        ..m
    }
}

/// A piece of the other colour on the mirrored square has the same piece-square value.
pub proof fn lemma_pst_swap(p: Piece, r: int, f: int, phase: int)
    requires
        0 <= r < 8,
        0 <= f < 8,
    ensures
        pst_value(swap_colour(p), r, f, phase) == pst_value(p, 7 - r, f, phase),
{
    reveal(pst_value);
    lemma_tables_mirrored();
    assert(BLACK_PAWN_TABLE[r][f] == WHITE_PAWN_TABLE[7 - r][f]);
    assert(BLACK_PAWN_TABLE[7 - r][f] == WHITE_PAWN_TABLE[r][f]);
    assert(BLACK_KNIGHT_TABLE[r][f] == WHITE_KNIGHT_TABLE[7 - r][f]);
    assert(BLACK_KNIGHT_TABLE[7 - r][f] == WHITE_KNIGHT_TABLE[r][f]);
    assert(BLACK_BISHOP_TABLE[r][f] == WHITE_BISHOP_TABLE[7 - r][f]);
    assert(BLACK_BISHOP_TABLE[7 - r][f] == WHITE_BISHOP_TABLE[r][f]);
    assert(BLACK_ROOK_TABLE[r][f] == WHITE_ROOK_TABLE[7 - r][f]);
    assert(BLACK_ROOK_TABLE[7 - r][f] == WHITE_ROOK_TABLE[r][f]);
    assert(BLACK_QUEEN_TABLE[r][f] == WHITE_QUEEN_TABLE[7 - r][f]);
    assert(BLACK_QUEEN_TABLE[7 - r][f] == WHITE_QUEEN_TABLE[r][f]);
    assert(BLACK_KING_TABLE[r][f] == WHITE_KING_TABLE[7 - r][f]);
    assert(BLACK_KING_TABLE[7 - r][f] == WHITE_KING_TABLE[r][f]);
    assert(BLACK_KING_ENDGAME_TABLE[r][f] == WHITE_KING_ENDGAME_TABLE[7 - r][f]);
    assert(BLACK_KING_ENDGAME_TABLE[7 - r][f] == WHITE_KING_ENDGAME_TABLE[r][f]);
}

/// The sum over the first `k` files of rank `r`.
pub open spec fn rank_part(m: BoardModel, r: int, k: int, val: spec_fn(Piece, int, int) -> int) -> int
    decreases k,
{
    if k <= 0 { 0 } else { rank_part(m, r, k - 1, val) + val(m.at(r, k - 1), r, k - 1) }
}

/// The sum over the first `k` ranks.
pub open spec fn ranks_total(m: BoardModel, k: int, val: spec_fn(Piece, int, int) -> int) -> int
    decreases k,
{
    if k <= 0 { 0 } else { ranks_total(m, k - 1, val) + rank_part(m, k - 1, 8, val) }
}

proof fn lemma_sum_by_ranks(m: BoardModel, r: int, k: int, val: spec_fn(Piece, int, int) -> int)
    requires
        0 <= r < 8,
        0 <= k <= 8,
    ensures
        board_sum(m, 8 * r + k, val) == ranks_total(m, r, val) + rank_part(m, r, k, val),
    decreases r, k,
{
    if k > 0 {
        lemma_sum_by_ranks(m, r, k - 1, val);
        assert((8 * r + k - 1) / 8 == r && (8 * r + k - 1) % 8 == k - 1);
    } else if r > 0 {
        lemma_sum_by_ranks(m, r - 1, 8, val);
    }
}

proof fn lemma_rank_part_mirror(m: BoardModel, m2: BoardModel, g: spec_fn(Piece, int, int) -> int, h: spec_fn(Piece, int, int) -> int, r: int, k: int)
    requires
        0 <= r < 8,
        0 <= k <= 8,
        forall|i: int, j: int| 0 <= i < 8 && 0 <= j < 8 ==> #[trigger] g(m2.at(i, j), i, j) == h(m.at(7 - i, j), 7 - i, j),
    ensures
        rank_part(m2, r, k, g) == rank_part(m, 7 - r, k, h),
    decreases k,
{
    if k > 0 {
        lemma_rank_part_mirror(m, m2, g, h, r, k - 1);
        assert(g(m2.at(r, k - 1), r, k - 1) == h(m.at(7 - r, k - 1), 7 - r, k - 1));
    }
}

/// Summing over a board whose ranks are another board's in reverse order, with
/// terms that agree square for mirrored square, gives the same total.
pub proof fn lemma_mirror_sum(m: BoardModel, m2: BoardModel, g: spec_fn(Piece, int, int) -> int, h: spec_fn(Piece, int, int) -> int)
    requires
        forall|i: int, j: int| 0 <= i < 8 && 0 <= j < 8 ==> #[trigger] g(m2.at(i, j), i, j) == h(m.at(7 - i, j), 7 - i, j),
    ensures
        board_sum(m2, 64, g) == board_sum(m, 64, h),
{
    lemma_sum_by_ranks(m2, 7, 8, g);
    lemma_sum_by_ranks(m, 7, 8, h);
    lemma_rank_part_mirror(m, m2, g, h, 0, 8);
    lemma_rank_part_mirror(m, m2, g, h, 1, 8);
    lemma_rank_part_mirror(m, m2, g, h, 2, 8);
    lemma_rank_part_mirror(m, m2, g, h, 3, 8);
    lemma_rank_part_mirror(m, m2, g, h, 4, 8);
    lemma_rank_part_mirror(m, m2, g, h, 5, 8);
    lemma_rank_part_mirror(m, m2, g, h, 6, 8);
    lemma_rank_part_mirror(m, m2, g, h, 7, 8);
    reveal_with_fuel(ranks_total, 9);
}

/// The piece-square evaluation is the same for both sides: the mirrored position
/// (ranks reversed, colours swapped, the other side to move) evaluates the same.
pub proof fn lemma_pst_mirror(m: BoardModel)
    ensures
        pst_eval(mirrored(m)) == pst_eval(m),
{
    let m2 = mirrored(m);
    assert forall|i: int, j: int| 0 <= i < 8 && 0 <= j < 8 implies #[trigger] m2.at(i, j) == swap_colour(m.at(7 - i, j)) by {}
    assert forall|i: int, j: int| 0 <= i < 8 && 0 <= j < 8 implies
        #[trigger] non_pawn_fn()(m2.at(i, j), i, j) == non_pawn_fn()(m.at(7 - i, j), 7 - i, j) by {
        assert(m2.at(i, j) == swap_colour(m.at(7 - i, j)));
    }
    lemma_mirror_sum(m, m2, non_pawn_fn(), non_pawn_fn());
    let ph = phase_of(m);
    assert(phase_of(m2) == ph);
    assert forall|i: int, j: int| 0 <= i < 8 && 0 <= j < 8 implies
        #[trigger] black_pst_fn(ph)(m2.at(i, j), i, j) == white_pst_fn(ph)(m.at(7 - i, j), 7 - i, j) by {
        assert(m2.at(i, j) == swap_colour(m.at(7 - i, j)));
        lemma_pst_swap(m.at(7 - i, j), i, j, ph);
    }
    lemma_mirror_sum(m, m2, black_pst_fn(ph), white_pst_fn(ph));
    assert forall|i: int, j: int| 0 <= i < 8 && 0 <= j < 8 implies
        #[trigger] white_pst_fn(ph)(m2.at(i, j), i, j) == black_pst_fn(ph)(m.at(7 - i, j), 7 - i, j) by {
        assert(m2.at(i, j) == swap_colour(m.at(7 - i, j)));
        lemma_pst_swap(m.at(7 - i, j), i, j, ph);
    }
    lemma_mirror_sum(m, m2, white_pst_fn(ph), black_pst_fn(ph));
}

/// A position that is its own mirror image (each square holding the other
/// colour's piece of the mirrored square) has a piece-square balance of zero,
/// whoever is to move.
pub proof fn lemma_pst_symmetric_zero(m: BoardModel)
    requires
        forall|i: int, j: int| 0 <= i < 8 && 0 <= j < 8 ==> #[trigger] m.at(i, j) == swap_colour(m.at(7 - i, j)),
    ensures
        pst_eval(m) == 0,
{
    let ph = phase_of(m);
    assert forall|i: int, j: int| 0 <= i < 8 && 0 <= j < 8 implies
        #[trigger] black_pst_fn(ph)(m.at(i, j), i, j) == white_pst_fn(ph)(m.at(7 - i, j), 7 - i, j) by {
        lemma_pst_swap(m.at(7 - i, j), i, j, ph);
    }
    lemma_mirror_sum(m, m, black_pst_fn(ph), white_pst_fn(ph));
}

pub struct PieceSquareEvaluation;

impl PieceSquareEvaluation {
    pub fn evaluate(board: &Board) -> (s: Score)
        ensures
            s == pst_eval(board@),
            -12800 <= s <= 12800,
    {
        let ghost m = board@;
        let phase = Self::game_phase(board);
        let mut white_score: i32 = 0;
        let mut black_score: i32 = 0;
        let mut rank: usize = 0;
        while rank < 8
            invariant
                rank <= 8,
                m == board@,
                phase == phase_of(m),
                0 <= phase <= 6400,
                white_score == board_sum(m, (rank * 8) as int, white_pst_fn(phase as int)),
                black_score == board_sum(m, (rank * 8) as int, black_pst_fn(phase as int)),
            decreases 8 - rank,
        {
            let mut file: usize = 0;
            while file < 8
                invariant
                    rank < 8,
                    file <= 8,
                    m == board@,
                    phase == phase_of(m),
                    0 <= phase <= 6400,
                    white_score == board_sum(m, (rank * 8 + file) as int, white_pst_fn(phase as int)),
                    black_score == board_sum(m, (rank * 8 + file) as int, black_pst_fn(phase as int)),
                decreases 8 - file,
            {
                let ghost i: int = (rank * 8 + file) as int;
                proof {
                    assert(i / 8 == rank && i % 8 == file);
                    lemma_pst_sum_bounds(m, i, phase as int);
                }
                let piece = board.squares[rank][file];
                let value = Self::piece_square_value(piece, rank, file, phase);
                proof {
                    lemma_pst_bounds(piece, rank as int, file as int, phase as int);
                }
                if is_white(piece) {
                    white_score += value;
                } else if is_black(piece) {
                    black_score += value;
                }
                file = file + 1;
            }
            rank = rank + 1;
        }
        proof {
            lemma_pst_sum_bounds(m, 64, phase as int);
        }
        if board.turn == Color::White {
            white_score - black_score
        } else {
            black_score - white_score
        }
    }

    /// The game phase in units of 1/6400: non-pawn material, capped at 6400.
    pub fn game_phase(board: &Board) -> (ph: u32)
        ensures
            ph == phase_of(board@),
            ph <= 6400,
    {
        let ghost m = board@;
        let mut non_pawn_total: u32 = 0;
        let mut rank: usize = 0;
        while rank < 8
            invariant
                rank <= 8,
                m == board@,
                non_pawn_total == board_sum(m, (rank * 8) as int, non_pawn_fn()),
            decreases 8 - rank,
        {
            let mut file: usize = 0;
            while file < 8
                invariant
                    rank < 8,
                    file <= 8,
                    m == board@,
                    non_pawn_total == board_sum(m, (rank * 8 + file) as int, non_pawn_fn()),
                decreases 8 - file,
            {
                let ghost i: int = (rank * 8 + file) as int;
                proof {
                    assert(i / 8 == rank && i % 8 == file);
                    lemma_board_sum_bounds(m, i, non_pawn_fn(), 0, 900);
                }
                match board.squares[rank][file] {
                    Piece::WhiteKnight | Piece::BlackKnight => non_pawn_total += 320,
                    Piece::WhiteBishop | Piece::BlackBishop => non_pawn_total += 330,
                    Piece::WhiteRook | Piece::BlackRook => non_pawn_total += 500,
                    Piece::WhiteQueen | Piece::BlackQueen => non_pawn_total += 900,
                    _ => {},
                }
                file = file + 1;
            }
            rank = rank + 1;
        }
        if non_pawn_total > 6400 { 6400 } else { non_pawn_total }
    }

    /// The middlegame-to-endgame taper of two table values at a phase (in units of 1/6400).
    pub fn blend(mid: Score, end: Score, phase: u32) -> (v: Score)
        requires
            -100 <= mid <= 100,
            -100 <= end <= 100,
            phase <= 6400,
        ensures
            v == blend_spec(mid as int, end as int, phase as int),
    {
        proof {
            lemma_blend_bounds(mid as int, end as int, phase as int);
        }
        proof {
            assert(-640000 <= mid * phase <= 640000) by (nonlinear_arith)
                requires -100 <= mid <= 100, 0 <= phase <= 6400;
            assert(-640000 <= end * (6400 - phase) <= 640000) by (nonlinear_arith)
                requires -100 <= end <= 100, 0 <= phase <= 6400;
        }
        let num: i64 = mid as i64 * phase as i64 + end as i64 * (6400 - phase) as i64;
        proof {
            assert(num == mid * phase + end * (6400 - phase));
        }
        if num >= 0 {
            ((num + 3200) / 6400) as Score
        } else {
            (-((-num + 3200) / 6400)) as Score
        }
    }

    fn piece_square_value(piece: Piece, rank: usize, file: usize, phase: u32) -> (v: Score)
        requires
            rank < 8,
            file < 8,
            phase <= 6400,
        ensures
            v == pst_value(piece, rank as int, file as int, phase as int),
    {
        proof {
            reveal(pst_value);
            lemma_tables_bounded();
            assert(-100 <= WHITE_KING_TABLE[rank as int][file as int] <= 100);
            assert(-100 <= WHITE_KING_ENDGAME_TABLE[rank as int][file as int] <= 100);
            assert(-100 <= BLACK_KING_TABLE[rank as int][file as int] <= 100);
            assert(-100 <= BLACK_KING_ENDGAME_TABLE[rank as int][file as int] <= 100);
        }
        match piece {
            Piece::WhitePawn => Self::white_pawn_table()[rank][file],
            Piece::WhiteKnight => Self::white_knight_table()[rank][file],
            Piece::WhiteBishop => Self::white_bishop_table()[rank][file],
            Piece::WhiteRook => Self::white_rook_table()[rank][file],
            Piece::WhiteQueen => Self::white_queen_table()[rank][file],
            Piece::WhiteKing => Self::blend(
                Self::white_king_table()[rank][file],
                Self::white_king_endgame_table()[rank][file],
                phase,
            ),
            Piece::BlackPawn => Self::black_pawn_table()[rank][file],
            Piece::BlackKnight => Self::black_knight_table()[rank][file],
            Piece::BlackBishop => Self::black_bishop_table()[rank][file],
            Piece::BlackRook => Self::black_rook_table()[rank][file],
            Piece::BlackQueen => Self::black_queen_table()[rank][file],
            Piece::BlackKing => Self::blend(
                Self::black_king_table()[rank][file],
                Self::black_king_endgame_table()[rank][file],
                phase,
            ),
            Piece::Empty => 0,
        }
    }

    pub fn white_pawn_table() -> (t: [[Score; 8]; 8])
        ensures
            t == WHITE_PAWN_TABLE,
    {
        WHITE_PAWN_TABLE
    }

    pub fn black_pawn_table() -> (t: [[Score; 8]; 8])
        ensures
            t == BLACK_PAWN_TABLE,
    {
        BLACK_PAWN_TABLE
    }

    pub fn white_knight_table() -> (t: [[Score; 8]; 8])
        ensures
            t == WHITE_KNIGHT_TABLE,
    {
        WHITE_KNIGHT_TABLE
    }

    pub fn black_knight_table() -> (t: [[Score; 8]; 8])
        ensures
            t == BLACK_KNIGHT_TABLE,
    {
        BLACK_KNIGHT_TABLE
    }

    pub fn white_bishop_table() -> (t: [[Score; 8]; 8])
        ensures
            t == WHITE_BISHOP_TABLE,
    {
        WHITE_BISHOP_TABLE
    }

    pub fn black_bishop_table() -> (t: [[Score; 8]; 8])
        ensures
            t == BLACK_BISHOP_TABLE,
    {
        BLACK_BISHOP_TABLE
    }

    pub fn white_rook_table() -> (t: [[Score; 8]; 8])
        ensures
            t == WHITE_ROOK_TABLE,
    {
        WHITE_ROOK_TABLE
    }

    pub fn black_rook_table() -> (t: [[Score; 8]; 8])
        ensures
            t == BLACK_ROOK_TABLE,
    {
        BLACK_ROOK_TABLE
    }

    pub fn white_queen_table() -> (t: [[Score; 8]; 8])
        ensures
            t == WHITE_QUEEN_TABLE,
    {
        WHITE_QUEEN_TABLE
    }

    pub fn black_queen_table() -> (t: [[Score; 8]; 8])
        ensures
            t == BLACK_QUEEN_TABLE,
    {
        BLACK_QUEEN_TABLE
    }

    pub fn white_king_table() -> (t: [[Score; 8]; 8])
        ensures
            t == WHITE_KING_TABLE,
    {
        WHITE_KING_TABLE
    }

    pub fn black_king_table() -> (t: [[Score; 8]; 8])
        ensures
            t == BLACK_KING_TABLE,
    {
        BLACK_KING_TABLE
    }

    pub fn white_king_endgame_table() -> (t: [[Score; 8]; 8])
        ensures
            t == WHITE_KING_ENDGAME_TABLE,
    {
        WHITE_KING_ENDGAME_TABLE
    }

    pub fn black_king_endgame_table() -> (t: [[Score; 8]; 8])
        ensures
            t == BLACK_KING_ENDGAME_TABLE,
    {
        BLACK_KING_ENDGAME_TABLE
    }
}

} // verus!
