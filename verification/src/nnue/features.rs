use vstd::prelude::*;
use crate::board::board::{Board, BoardModel, Color};
use crate::board::chess_move::{ChessMove, MoveType};
use crate::board::pieces::{Piece, white};
use crate::nnue::architecture::INPUT_SIZE;
use crate::nnue::incremental::{steps_exact, apply_steps, active_inputs, lemma_move_steps_exact};

verus! {

/// The kind of a piece, 0 (pawn) to 5 (king); 12 for the empty square.
pub open spec fn type_index(p: Piece) -> int {
    match p {
        Piece::WhitePawn | Piece::BlackPawn => 0,
        Piece::WhiteKnight | Piece::BlackKnight => 1,
        Piece::WhiteBishop | Piece::BlackBishop => 2,
        Piece::WhiteRook | Piece::BlackRook => 3,
        Piece::WhiteQueen | Piece::BlackQueen => 4,
        Piece::WhiteKing | Piece::BlackKing => 5,
        Piece::Empty => 12,
    }
}

/// The input a piece on a square switches on: white pieces by kind and square,
/// black pieces after them by kind and mirrored square.
pub open spec fn feature_of(p: Piece, square: int) -> int {
    if white(p) { type_index(p) * 64 + square } else { 384 + type_index(p) * 64 + (63 - square) }
}

/// The inputs switched on by the pieces on the first `n` squares, in square order.
pub open spec fn active_prefix(m: BoardModel, n: int) -> Seq<usize>
    decreases n,
{
    if n <= 0 {
        Seq::empty()
    } else {
        let prev = active_prefix(m, n - 1);
        let p = m.at((n - 1) / 8, (n - 1) % 8);
        if p != Piece::Empty { prev.push(feature_of(p, n - 1) as usize) } else { prev }
    }
}

/// Switching on the input of a piece on (r, f).
pub open spec fn on_step(p: Piece, r: int, f: int) -> (usize, bool) {
    (feature_of(p, r * 8 + f) as usize, true)
}

/// Switching off the input of a piece on (r, f).
pub open spec fn off_step(p: Piece, r: int, f: int) -> (usize, bool) {
    (feature_of(p, r * 8 + f) as usize, false)
}

/// The rook's part of castling towards file `tf` on the mover's back rank:
/// off its corner, on next to the king (none for another file).
pub open spec fn rook_steps(m: BoardModel, tf: int) -> Seq<(usize, bool)> {
    let back: int = if m.turn == Color::White { 7 } else { 0 };
    if tf == 6 {
        seq![off_step(m.at(back, 7), back, 7), on_step(m.at(back, 7), back, 5)]
    } else if tf == 2 {
        seq![off_step(m.at(back, 0), back, 0), on_step(m.at(back, 0), back, 3)]
    } else {
        Seq::empty()
    }
}

/// The pawn taken en passant: the piece behind the target square, seen from the mover.
pub open spec fn en_passant_steps(m: BoardModel, moved: Piece, tr: int, tf: int) -> Seq<(usize, bool)> {
    let cr: int = if moved == Piece::WhitePawn { tr + 1 } else { tr - 1 };
    if (moved == Piece::WhitePawn || moved == Piece::BlackPawn) && m.at(cr, tf) != Piece::Empty {
        seq![off_step(m.at(cr, tf), cr, tf)]
    } else {
        Seq::empty()
    }
}

/// The input changes of a move, in the order an accumulator applies them: the mover
/// leaves its square, a piece on the target is taken, then the mover (or the piece it
/// promotes to) lands, with the rook of a castling and the pawn taken en passant.
pub open spec fn move_steps(m: BoardModel, mv: ChessMove) -> Seq<(usize, bool)> {
    let fr = mv.from.0 as int;
    let ff = mv.from.1 as int;
    let tr = mv.to.0 as int;
    let tf = mv.to.1 as int;
    let moved = m.at(fr, ff);
    let captured = m.at(tr, tf);
    (if moved != Piece::Empty { seq![off_step(moved, fr, ff)] } else { Seq::empty() })
        + (if captured != Piece::Empty { seq![off_step(captured, tr, tf)] } else { Seq::empty() })
        + match mv.move_type {
            MoveType::Castling => seq![on_step(moved, tr, tf)] + rook_steps(m, tf),
            MoveType::EnPassant => seq![on_step(moved, tr, tf)] + en_passant_steps(m, moved, tr, tf),
            MoveType::Promotion(p) => seq![on_step(p, tr, tf)],
            MoveType::Normal => seq![on_step(moved, tr, tf)],
        }
}

pub struct FeatureGenerator;

impl FeatureGenerator {
    /// The inputs switched on by the position's pieces, in square order.
    pub fn active_feature_indices(board: &Board) -> (v: Vec<usize>)
        ensures
            v@ == active_prefix(board@, 64),
            forall|i: int| 0 <= i < v@.len() ==> #[trigger] v@[i] < INPUT_SIZE,
    {
        let ghost m = board@;
        let mut active: Vec<usize> = Vec::new();
        let mut i: usize = 0;
        while i < 64
            invariant
                i <= 64,
                m == board@,
                active@ == active_prefix(m, i as int),
                forall|k: int| 0 <= k < active@.len() ==> #[trigger] active@[k] < INPUT_SIZE,
            decreases 64 - i,
        {
            let rank = i / 8;
            let file = i % 8;
            let piece = board.squares[rank][file];
            if piece != Piece::Empty {
                let square_index = rank * 8 + file;
                active.push(Self::piece_to_feature(piece, square_index));
            }
            i = i + 1;
        }
        active
    }

    /// The input a piece on a square switches on.
    pub fn piece_to_feature(piece: Piece, square_index: usize) -> (f: usize)
        requires
            white(piece) ==> square_index <= usize::MAX - 384,
            !white(piece) ==> square_index <= 63,
        ensures
            f == feature_of(piece, square_index as int),
            piece != Piece::Empty && square_index < 64 ==> f < INPUT_SIZE,
    {
        let piece_type = Self::piece_type_index(piece);
        let is_white = Self::piece_is_white(piece);
        if is_white {
            piece_type * 64 + square_index
        } else {
            384 + piece_type * 64 + (63 - square_index)
        }
    }

    pub fn piece_type_index(piece: Piece) -> (i: usize)
        ensures
            i == type_index(piece),
    {
        match piece {
            Piece::WhitePawn | Piece::BlackPawn => 0,
            Piece::WhiteKnight | Piece::BlackKnight => 1,
            Piece::WhiteBishop | Piece::BlackBishop => 2,
            Piece::WhiteRook | Piece::BlackRook => 3,
            Piece::WhiteQueen | Piece::BlackQueen => 4,
            Piece::WhiteKing | Piece::BlackKing => 5,
            Piece::Empty => 12,
        }
    }

    pub fn piece_is_white(piece: Piece) -> (r: bool)
        ensures
            r == white(piece),
    {
        match piece {
            Piece::WhitePawn | Piece::WhiteKnight | Piece::WhiteBishop | Piece::WhiteRook
            | Piece::WhiteQueen | Piece::WhiteKing => true,
            _ => false,
        }
    }

    /// The input changes of a move from the position before it (see `move_steps`).
    pub fn move_feature_steps(before: &Board, mv: &ChessMove) -> (steps: Vec<(usize, bool)>)
        requires
            mv.from.0 < 8 && mv.from.1 < 8 && mv.to.0 < 8 && mv.to.1 < 8,
            mv.move_type is EnPassant && before@.at(mv.from.0 as int, mv.from.1 as int) == Piece::WhitePawn
                ==> mv.to.0 + 1 < 8,
            mv.move_type is EnPassant && before@.at(mv.from.0 as int, mv.from.1 as int) == Piece::BlackPawn
                ==> mv.to.0 >= 1,
        ensures
            steps@ == move_steps(before@, *mv),
            steps_exact(before@, *mv) ==> apply_steps(active_inputs(before@), steps@)
                == active_inputs(before@.after_move(mv.from, mv.to, mv.move_type)),
    {
        proof {
            if steps_exact(before@, *mv) {
                lemma_move_steps_exact(*before, *mv);
            }
        }
        let (fr, ff) = mv.from;
        let (tr, tf) = mv.to;
        let moved = before.squares[fr][ff];
        let captured = before.squares[tr][tf];
        let mut steps: Vec<(usize, bool)> = Vec::new();
        if moved != Piece::Empty {
            steps.push((Self::piece_to_feature(moved, fr * 8 + ff), false));
        }
        if captured != Piece::Empty {
            steps.push((Self::piece_to_feature(captured, tr * 8 + tf), false));
        }
        match mv.move_type {
            MoveType::Castling => {
                steps.push((Self::piece_to_feature(moved, tr * 8 + tf), true));
                Self::push_rook_steps(before, tf, &mut steps);
            },
            MoveType::EnPassant => {
                steps.push((Self::piece_to_feature(moved, tr * 8 + tf), true));
                Self::push_en_passant_steps(before, moved, tr, tf, &mut steps);
            },
            MoveType::Promotion(p) => {
                steps.push((Self::piece_to_feature(p, tr * 8 + tf), true));
            },
            MoveType::Normal => {
                steps.push((Self::piece_to_feature(moved, tr * 8 + tf), true));
            },
        }
        assert(steps@ =~= move_steps(before@, *mv));
        steps
    }

    fn push_rook_steps(before: &Board, tf: usize, steps: &mut Vec<(usize, bool)>)
        ensures
            final(steps)@ == old(steps)@ + rook_steps(before@, tf as int),
    {
        let back: usize = if before.turn == Color::White { 7 } else { 0 };
        if tf == 6 {
            let rook = before.squares[back][7];
            steps.push((Self::piece_to_feature(rook, back * 8 + 7), false));
            steps.push((Self::piece_to_feature(rook, back * 8 + 5), true));
        } else if tf == 2 {
            let rook = before.squares[back][0];
            steps.push((Self::piece_to_feature(rook, back * 8), false));
            steps.push((Self::piece_to_feature(rook, back * 8 + 3), true));
        }
        assert(steps@ =~= old(steps)@ + rook_steps(before@, tf as int));
    }

    fn push_en_passant_steps(before: &Board, moved: Piece, tr: usize, tf: usize, steps: &mut Vec<(usize, bool)>)
        requires
            tr < 8 && tf < 8,
            moved == Piece::WhitePawn ==> tr + 1 < 8,
            moved == Piece::BlackPawn ==> tr >= 1,
        ensures
            final(steps)@ == old(steps)@ + en_passant_steps(before@, moved, tr as int, tf as int),
    {
        if moved == Piece::WhitePawn || moved == Piece::BlackPawn {
            let cr: usize = if moved == Piece::WhitePawn { tr + 1 } else { tr - 1 };
            let pawn = before.squares[cr][tf];
            if pawn != Piece::Empty {
                steps.push((Self::piece_to_feature(pawn, cr * 8 + tf), false));
            }
        }
        assert(steps@ =~= old(steps)@ + en_passant_steps(before@, moved, tr as int, tf as int));
    }

    /// The square of an input: its index modulo 64, as (rank, file).
    pub fn feature_index_to_square(feature_index: usize) -> (sq: (usize, usize))
        ensures
            sq == ((feature_index % 64 / 8) as usize, (feature_index % 64 % 8) as usize),
            sq.0 * 8 + sq.1 == feature_index % 64,
    {
        let square = feature_index % 64;
        let rank = square / 8;
        let file = square % 8;
        (rank, file)
    }
}

/// Every feature a piece switches on is a valid input index.
pub proof fn lemma_feature_in_range(p: Piece, square: int)
    requires
        p != Piece::Empty,
        0 <= square < 64,
    ensures
        0 <= feature_of(p, square) < 768,
{
}

} // verus!
