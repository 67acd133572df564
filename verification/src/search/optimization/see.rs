use vstd::prelude::*;
use crate::board::board::{Board, BoardModel, on_board, square_text, lemma_square_text_roundtrip};
use crate::board::chess_move::{ChessMove, MoveType};
use crate::nnue::incremental::{shaped, lemma_put};
use crate::board::pieces::Piece;
use crate::evaluation::Score;

verus! {

/// The exchange value of a piece, in pawns (a king counts 200).
pub open spec fn exchange_value(p: Piece) -> int {
    match p {
        Piece::WhitePawn | Piece::BlackPawn => 1,
        Piece::WhiteKnight | Piece::BlackKnight => 3,
        Piece::WhiteBishop | Piece::BlackBishop => 3,
        Piece::WhiteRook | Piece::BlackRook => 5,
        Piece::WhiteQueen | Piece::BlackQueen => 9,
        Piece::WhiteKing | Piece::BlackKing => 200,
        Piece::Empty => 0,
    }
}

/// How the capture is carried out: the move the coordinate interface makes for it.
pub open spec fn capture_plan(m: BoardModel, mv: ChessMove) -> Option<((usize, usize), (usize, usize), crate::board::chess_move::MoveType)> {
    m.move_plan(square_text(mv.from), square_text(mv.to))
}

/// The value of the piece standing on `sq` if some legal move of the side to move reaches it.
pub open spec fn recapture_value(m: BoardModel, sq: (usize, usize)) -> int {
    let captured = m.at(sq.0 as int, sq.1 as int);
    if captured != Piece::Empty && exists|i: int| 0 <= i < m.legal_moves().len() && #[trigger] m.legal_moves()[i].to == sq {
        exchange_value(captured)
    } else {
        0
    }
}

/// A one-step static exchange: the captured piece's value less the smaller of the
/// capturer's value and what the opponent can take back on the square; zero for
/// a non-capture or a move the coordinate interface refuses.
pub open spec fn exchange(m: BoardModel, mv: ChessMove) -> int {
    let target = m.at(mv.to.0 as int, mv.to.1 as int);
    if target == Piece::Empty {
        0
    } else {
        match capture_plan(m, mv) {
            None => 0,
            Some(plan) => {
                let after = m.after_move(plan.0, plan.1, plan.2);
                let attacker = exchange_value(m.at(mv.from.0 as int, mv.from.1 as int));
                let back = recapture_value(after, mv.to);
                exchange_value(target) - if back < attacker { back } else { attacker }
            },
        }
    }
}

/// The capture can be played out and answered without overflowing a move counter.
pub open spec fn exchange_playable(m: BoardModel, mv: ChessMove) -> bool {
    &&& on_board(mv.from.0 as int, mv.from.1 as int)
    &&& on_board(mv.to.0 as int, mv.to.1 as int)
    &&& capture_plan(m, mv) matches Some(plan) ==> {
        &&& m.can_execute(plan.0, plan.1, plan.2)
        &&& m.after_move(plan.0, plan.1, plan.2).counters_ok()
    }
}

/// The piece that stands on the target square once the capture is played: the
/// capturer itself, or the queen a capturing pawn promotes to.
proof fn lemma_capturer_lands(b: Board, mv: ChessMove)
    requires
        on_board(mv.from.0 as int, mv.from.1 as int),
        on_board(mv.to.0 as int, mv.to.1 as int),
        b@.at(mv.to.0 as int, mv.to.1 as int) != Piece::Empty,
        capture_plan(b@, mv) is Some,
    ensures
        ({
            let m = b@;
            let plan = capture_plan(m, mv).unwrap();
            let after = m.after_move(plan.0, plan.1, plan.2);
            &&& plan.0 == mv.from && plan.1 == mv.to
            &&& after.at(mv.to.0 as int, mv.to.1 as int) != Piece::Empty
            &&& exchange_value(after.at(mv.to.0 as int, mv.to.1 as int)) >= exchange_value(m.at(mv.from.0 as int, mv.from.1 as int))
            &&& exchange_value(m.at(mv.from.0 as int, mv.from.1 as int)) >= 0
        }),
{
    let m = b@;
    assert forall|i: int| 0 <= i < 8 implies #[trigger] m.grid[i].len() == 8 by {}
    assert(shaped(m));
    lemma_square_text_roundtrip(mv.from);
    lemma_square_text_roundtrip(mv.to);
    let plan = capture_plan(m, mv).unwrap();
    let (fr, ff) = (mv.from.0 as int, mv.from.1 as int);
    let (tr, tf) = (mv.to.0 as int, mv.to.1 as int);
    let piece = m.at(fr, ff);
    assert(fr != tr || ff != tf);
    let land = match plan.2 { MoveType::Promotion(pp) => pp, _ => piece };
    lemma_put(m, tr, tf, land);
    let m1 = m.with_grid(m.put(tr, tf, land));
    lemma_put(m1, fr, ff, Piece::Empty);
    let m2 = m1.with_grid(m1.put(fr, ff, Piece::Empty));
    assert(m2.at(tr, tf) == land);
    match plan.2 {
        MoveType::Castling => {
            let back: int = if m.turn == crate::board::board::Color::White { 7 } else { 0 };
            if tf == 6 {
                lemma_put(m2, back, 5, m2.at(back, 7));
                let m3 = m2.with_grid(m2.put(back, 5, m2.at(back, 7)));
                lemma_put(m3, back, 7, Piece::Empty);
                assert(m3.with_grid(m3.put(back, 7, Piece::Empty)).at(tr, tf) == land);
            } else if tf == 2 {
                lemma_put(m2, back, 3, m2.at(back, 0));
                let m3 = m2.with_grid(m2.put(back, 3, m2.at(back, 0)));
                lemma_put(m3, back, 0, Piece::Empty);
                assert(m3.with_grid(m3.put(back, 0, Piece::Empty)).at(tr, tf) == land);
            }
        },
        _ => {},
    }
}

/// A move onto an empty square, and a move the coordinate interface refuses, gains nothing.
pub proof fn lemma_exchange_no_capture(m: BoardModel, mv: ChessMove)
    requires
        m.at(mv.to.0 as int, mv.to.1 as int) == Piece::Empty || capture_plan(m, mv) is None,
    ensures
        exchange(m, mv) == 0,
{
}

/// A capture that the opponent can answer on the same square costs the capturer:
/// its exchange value is the value of the piece taken less the value of the piece
/// taking; a capture that cannot be answered there is worth the piece taken.
pub proof fn lemma_exchange_answered(b: Board, mv: ChessMove)
    requires
        on_board(mv.from.0 as int, mv.from.1 as int),
        on_board(mv.to.0 as int, mv.to.1 as int),
        b@.at(mv.to.0 as int, mv.to.1 as int) != Piece::Empty,
        capture_plan(b@, mv) is Some,
    ensures
        ({
            let m = b@;
            let plan = capture_plan(m, mv).unwrap();
            let after = m.after_move(plan.0, plan.1, plan.2);
            let answered = exists|i: int| 0 <= i < after.legal_moves().len() && #[trigger] after.legal_moves()[i].to == mv.to;
            &&& answered ==> exchange(m, mv) == exchange_value(m.at(mv.to.0 as int, mv.to.1 as int))
                - exchange_value(m.at(mv.from.0 as int, mv.from.1 as int))
            &&& !answered ==> exchange(m, mv) == exchange_value(m.at(mv.to.0 as int, mv.to.1 as int))
        }),
{
    lemma_capturer_lands(b, mv);
}

pub struct StaticExchangeEvaluation;

impl StaticExchangeEvaluation {
    pub fn evaluate(board: &Board, chess_move: ChessMove) -> (s: Score)
        requires
            exchange_playable(board@, chess_move),
        ensures
            s == exchange(board@, chess_move),
    {
        let target_piece = board.squares[chess_move.to.0][chess_move.to.1];
        if target_piece == Piece::Empty {
            return 0;
        }
        let mut board_copy = *board;
        let from_str = Board::square_to_string(chess_move.from);
        let to_str = Board::square_to_string(chess_move.to);
        proof {
            assert(from_str@ == square_text(chess_move.from));
            assert(to_str@ == square_text(chess_move.to));
        }
        if board_copy.make_move(from_str.as_str(), to_str.as_str()).is_err() {
            return 0;
        }
        let target_value = Self::piece_value(target_piece);
        let attacker_value = Self::piece_value(board.squares[chess_move.from.0][chess_move.from.1]);
        let recapture_score = Self::evaluate_recaptures(&board_copy, chess_move.to);
        target_value - if recapture_score < attacker_value { recapture_score } else { attacker_value }
    }

    fn evaluate_recaptures(board: &Board, square: (usize, usize)) -> (v: Score)
        requires
            board@.counters_ok(),
            on_board(square.0 as int, square.1 as int),
        ensures
            v == recapture_value(board@, square),
    {
        let mut best_recapture: i32 = 0;
        let moves = board.generate_moves();
        let mut i: usize = 0;
        while i < moves.len()
            invariant
                i <= moves@.len(),
                moves@ == board@.legal_moves(),
                on_board(square.0 as int, square.1 as int),
                best_recapture == if board@.at(square.0 as int, square.1 as int) != Piece::Empty
                    && exists|j: int| 0 <= j < i && #[trigger] moves@[j].to == square {
                    exchange_value(board@.at(square.0 as int, square.1 as int))
                } else {
                    0
                },
            decreases moves@.len() - i,
        {
            let mv = moves[i];
            if mv.to.0 == square.0 && mv.to.1 == square.1 {
                let captured = board.squares[square.0][square.1];
                if captured != Piece::Empty {
                    let value = Self::piece_value(captured);
                    if value > best_recapture {
                        best_recapture = value;
                    }
                }
                assert(moves@[i as int].to == square);
            }
            i = i + 1;
        }
        best_recapture
    }

    /// The exchange value of a piece, in pawns.
    pub fn piece_value(piece: Piece) -> (v: Score)
        ensures
            v == exchange_value(piece),
    {
        match piece {
            Piece::WhitePawn | Piece::BlackPawn => 1,
            Piece::WhiteKnight | Piece::BlackKnight => 3,
            Piece::WhiteBishop | Piece::BlackBishop => 3,
            Piece::WhiteRook | Piece::BlackRook => 5,
            Piece::WhiteQueen | Piece::BlackQueen => 9,
            Piece::WhiteKing | Piece::BlackKing => 200,
            Piece::Empty => 0,
        }
    }

    /// A capture of a piece worth at least the capturer.
    pub fn is_good_capture(board: &Board, chess_move: ChessMove) -> (r: bool)
        requires
            on_board(chess_move.from.0 as int, chess_move.from.1 as int),
            on_board(chess_move.to.0 as int, chess_move.to.1 as int),
        ensures
            r == (board@.at(chess_move.to.0 as int, chess_move.to.1 as int) != Piece::Empty
                && exchange_value(board@.at(chess_move.to.0 as int, chess_move.to.1 as int))
                    >= exchange_value(board@.at(chess_move.from.0 as int, chess_move.from.1 as int))),
    {
        let target = board.squares[chess_move.to.0][chess_move.to.1];
        if target == Piece::Empty {
            return false;
        }
        let attacker = board.squares[chess_move.from.0][chess_move.from.1];
        let target_value = Self::piece_value(target);
        let attacker_value = Self::piece_value(attacker);
        target_value >= attacker_value
    }

    /// A capture that loses material in the exchange.
    pub fn is_bad_capture(board: &Board, chess_move: ChessMove) -> (r: bool)
        requires
            exchange_playable(board@, chess_move),
        ensures
            r == (exchange(board@, chess_move) < 0),
    {
        Self::evaluate(board, chess_move) < 0
    }
}

} // verus!
