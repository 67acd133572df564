//! A plain quiescence search: stand pat on the hand-crafted score and try every
//! capture in generation order until one refutes the window. Each capture
//! takes a piece off the board, so the search ends.

use vstd::prelude::*;
use crate::board::board::{Board, BoardModel, on_board, Color};
use crate::board::chess_move::{ChessMove, MoveType};
use crate::board::pieces::Piece;
use crate::evaluation::{Evaluator, Score, hand_crafted};
use crate::evaluation::advanced::pawns::pawns_in_range;
use crate::search::qnode::{capture_list, imax};
use crate::transposition_table::TranspositionTable;

verus! {

/// One for an occupied square, zero for an empty one.
pub open spec fn occupied(p: Piece) -> int {
    if p != Piece::Empty { 1 } else { 0 }
}

/// The occupied squares among the first `n` of a rank.
pub open spec fn row_count(row: Seq<Piece>, n: int) -> int
    decreases n,
{
    if n <= 0 { 0 } else { row_count(row, n - 1) + occupied(row[n - 1]) }
}

/// The occupied squares among the first `n` ranks.
pub open spec fn grid_count(g: Seq<Seq<Piece>>, n: int) -> int
    decreases n,
{
    if n <= 0 { 0 } else { grid_count(g, n - 1) + row_count(g[n - 1], 8) }
}

/// The number of pieces on the board.
pub open spec fn piece_count(g: Seq<Seq<Piece>>) -> nat {
    let c = grid_count(g, 8);
    if c >= 0 { c as nat } else { 0 }
}

/// Eight ranks of eight squares.
pub open spec fn grid_shape(g: Seq<Seq<Piece>>) -> bool {
    g.len() == 8 && forall|r: int| 0 <= r < 8 ==> #[trigger] g[r].len() == 8
}

proof fn lemma_row_count_bounds(row: Seq<Piece>, n: int)
    ensures
        0 <= row_count(row, n),
    decreases n,
{
    if n > 0 {
        lemma_row_count_bounds(row, n - 1);
    }
}

proof fn lemma_grid_count_bounds(g: Seq<Seq<Piece>>, n: int)
    ensures
        0 <= grid_count(g, n),
    decreases n,
{
    if n > 0 {
        lemma_grid_count_bounds(g, n - 1);
        lemma_row_count_bounds(g[n - 1], 8);
    }
}

proof fn lemma_row_put(row: Seq<Piece>, f: int, p: Piece, n: int)
    requires
        0 <= f < row.len(),
        n <= row.len(),
    ensures
        row_count(row.update(f, p), n) == row_count(row, n) + (if f < n { occupied(p) - occupied(row[f]) } else { 0 }),
    decreases n,
{
    if n > 0 {
        lemma_row_put(row, f, p, n - 1);
    }
}

proof fn lemma_grid_put(g: Seq<Seq<Piece>>, r: int, row: Seq<Piece>, n: int)
    requires
        0 <= r < g.len(),
        n <= g.len(),
    ensures
        grid_count(g.update(r, row), n) == grid_count(g, n) + (if r < n { row_count(row, 8) - row_count(g[r], 8) } else { 0 }),
    decreases n,
{
    if n > 0 {
        lemma_grid_put(g, r, row, n - 1);
    }
}

/// Putting a piece on a square changes the count by what leaves and what arrives.
proof fn lemma_put_count(m: BoardModel, r: int, f: int, p: Piece)
    requires
        grid_shape(m.grid),
        on_board(r, f),
    ensures
        grid_shape(m.put(r, f, p)),
        grid_count(m.put(r, f, p), 8) == grid_count(m.grid, 8) - occupied(m.at(r, f)) + occupied(p),
        m.put(r, f, p)[r][f] == p,
        forall|r2: int, f2: int| (r2 != r || f2 != f) && 0 <= r2 < 8 && 0 <= f2 < 8 ==> #[trigger] m.put(r, f, p)[r2][f2] == m.grid[r2][f2],
{
    let g = m.grid;
    lemma_row_put(g[r], f, p, 8);
    lemma_grid_put(g, r, g[r].update(f, p), 8);
    assert forall|r2: int| 0 <= r2 < 8 implies #[trigger] m.put(r, f, p)[r2].len() == 8 by {
        if r2 == r {
            assert(m.put(r, f, p)[r2] == g[r].update(f, p));
        }
    }
}

/// Moving what stands on one square onto another and emptying the first never adds a piece.
proof fn lemma_relocate(m: BoardModel, a: (int, int), b: (int, int))
    requires
        grid_shape(m.grid),
        on_board(a.0, a.1),
        on_board(b.0, b.1),
        a != b,
    ensures
        grid_shape({
            let m1 = m.with_grid(m.put(a.0, a.1, m.at(b.0, b.1)));
            m1.put(b.0, b.1, Piece::Empty)
        }),
        grid_count({
            let m1 = m.with_grid(m.put(a.0, a.1, m.at(b.0, b.1)));
            m1.put(b.0, b.1, Piece::Empty)
        }, 8) <= grid_count(m.grid, 8),
{
    let v = m.at(b.0, b.1);
    let m1 = m.with_grid(m.put(a.0, a.1, v));
    lemma_put_count(m, a.0, a.1, v);
    assert(m1.at(b.0, b.1) == v);
    lemma_put_count(m1, b.0, b.1, Piece::Empty);
}

/// A move from an occupied square onto an occupied square leaves fewer pieces.
pub proof fn lemma_capture_shrinks(m: BoardModel, mv: ChessMove)
    requires
        grid_shape(m.grid),
        m.sane_move(mv),
        m.at(mv.to.0 as int, mv.to.1 as int) != Piece::Empty,
    ensures
        grid_shape(m.placed(mv.from, mv.to, mv.move_type)),
        piece_count(m.placed(mv.from, mv.to, mv.move_type)) < piece_count(m.grid),
{
    let (fr, ff) = (mv.from.0 as int, mv.from.1 as int);
    let (tr, tf) = (mv.to.0 as int, mv.to.1 as int);
    let piece = m.at(fr, ff);
    let c0 = grid_count(m.grid, 8);
    let landing = match mv.move_type {
        MoveType::Promotion(pp) => pp,
        _ => piece,
    };
    let b1 = m.with_grid(m.put(tr, tf, landing));
    lemma_put_count(m, tr, tf, landing);
    assert(b1.at(fr, ff) == if fr == tr && ff == tf { landing } else { piece });
    let b2 = b1.with_grid(b1.put(fr, ff, Piece::Empty));
    lemma_put_count(b1, fr, ff, Piece::Empty);
    assert(grid_count(b2.grid, 8) < c0);
    lemma_grid_count_bounds(m.placed(mv.from, mv.to, mv.move_type), 8);
    match mv.move_type {
        MoveType::Castling => {
            let back: int = if m.turn == Color::White { 7 } else { 0 };
            if tf == 6 {
                lemma_relocate(b2, (back, 5), (back, 7));
            } else if tf == 2 {
                lemma_relocate(b2, (back, 3), (back, 0));
            }
        },
        MoveType::EnPassant => {
            if piece == Piece::WhitePawn {
                lemma_put_count(b2, tr + 1, tf, Piece::Empty);
            } else if piece == Piece::BlackPawn {
                lemma_put_count(b2, tr - 1, tf, Piece::Empty);
            }
        },
        _ => {},
    }
}

/// The quiescence search of a position for the window (alpha, beta): its score
/// and whether every visited position could be evaluated and searched.
pub open spec fn qs(m: BoardModel, alpha: int, beta: int) -> (int, bool)
    decreases piece_count(m.grid), 1int, 0int,
{
    if !pawns_in_range(m) || !grid_shape(m.grid) {
        (0, false)
    } else {
        let se = hand_crafted(m);
        if se >= beta {
            (beta, true)
        } else if !m.counters_ok() {
            (0, false)
        } else {
            let caps = capture_list(m, m.legal_moves().len() as int);
            qs_loop(m, caps, 0, se, imax(alpha, se), beta)
        }
    }
}

/// The search of the captures from index `i` on, with the best score and alpha so far.
pub open spec fn qs_loop(m: BoardModel, caps: Seq<ChessMove>, i: int, best: int, alpha: int, beta: int) -> (int, bool)
    decreases piece_count(m.grid), 0int, caps.len() - i,
{
    if i < 0 || i >= caps.len() {
        (best, true)
    } else {
        let mv = caps[i];
        if !grid_shape(m.grid) || !m.sane_move(mv) || m.at(mv.to.0 as int, mv.to.1 as int) == Piece::Empty {
            qs_loop(m, caps, i + 1, best, alpha, beta)
        } else {
            proof {
                lemma_capture_shrinks(m, mv);
            }
            let r = qs(m.after_move(mv.from, mv.to, mv.move_type), -beta, -alpha);
            let score = -r.0;
            let best2 = imax(best, score);
            let alpha2 = imax(alpha, score);
            if !r.1 {
                (0, false)
            } else if alpha2 >= beta {
                (best2, true)
            } else {
                qs_loop(m, caps, i + 1, best2, alpha2, beta)
            }
        }
    }
}

/// The positions of a board form eight ranks of eight squares.
proof fn lemma_board_shape(b: Board)
    ensures
        grid_shape(b@.grid),
{
}

/// The stand-alone quiescence search.
pub struct QuiescenceSearch;

impl QuiescenceSearch {
    /// The score of the position for the window (alpha, beta): beta when the
    /// static score already reaches it, else the best of the static score and
    /// the negated scores of the captures tried in generation order, stopping
    /// once alpha reaches beta.
    pub fn search(board: &Board, alpha: Score, beta: Score, tt: &mut TranspositionTable) -> (s: Score)
        requires
            alpha > i32::MIN,
            beta > i32::MIN,
            qs(board@, alpha as int, beta as int).1,
        ensures
            s == qs(board@, alpha as int, beta as int).0,
            s > i32::MIN,
            final(tt)@ == old(tt)@,
        decreases piece_count(board@.grid),
    {
        let ghost m = board@;
        let ghost alpha0 = alpha as int;
        proof {
            lemma_board_shape(*board);
        }
        let static_eval = Evaluator::hand_crafted_evaluate(board);
        if static_eval >= beta {
            return beta;
        }
        let mut best_alpha = alpha;
        if static_eval > best_alpha {
            best_alpha = static_eval;
        }
        let all_moves = board.generate_moves();
        let mut moves: Vec<ChessMove> = Vec::new();
        let mut k: usize = 0;
        while k < all_moves.len()
            invariant
                k <= all_moves@.len(),
                all_moves@ == m.legal_moves(),
                m == board@,
                m.all_sane(all_moves@, 0),
                moves@ == capture_list(m, k as int),
                forall|j: int| 0 <= j < moves@.len() ==> m.sane_move(#[trigger] moves@[j]),
            decreases all_moves@.len() - k,
        {
            let mv = all_moves[k];
            assert(m.sane_move(all_moves@[k as int]));
            if board.squares[mv.to.0][mv.to.1] != Piece::Empty {
                moves.push(mv);
            }
            k = k + 1;
        }
        let ghost caps = moves@;
        let ghost total = qs_loop(m, caps, 0, static_eval as int, best_alpha as int, beta as int);
        assert(total == qs(m, alpha0, beta as int));
        let mut best_score = static_eval;
        let mut i: usize = 0;
        while i < moves.len()
            invariant
                i <= caps.len(),
                caps == moves@,
                m == board@,
                grid_shape(m.grid),
                m.counters_ok(),
                pawns_in_range(m),
                beta > i32::MIN,
                forall|j: int| 0 <= j < caps.len() ==> m.sane_move(#[trigger] caps[j]),
                best_score >= static_eval,
                best_alpha >= static_eval,
                static_eval > -200000,
                total.1,
                total == qs_loop(m, caps, i as int, best_score as int, best_alpha as int, beta as int),
                total == qs(m, alpha0, beta as int),
                alpha0 == alpha,
                tt@ == old(tt)@,
            decreases caps.len() - i,
        {
            let mv = moves[i];
            assert(m.sane_move(caps[i as int]));
            let mut board_copy = *board;
            if board.squares[mv.to.0][mv.to.1] == Piece::Empty {
                i = i + 1;
                continue;
            }
            let res = board_copy.execute_move(mv.from, mv.to, mv.move_type);
            if res.is_err() {
                i = i + 1;
                continue;
            }
            let ghost child = m.after_move(mv.from, mv.to, mv.move_type);
            let ghost r = qs(child, -(beta as int), -(best_alpha as int));
            let ghost next_best = imax(best_score as int, -r.0);
            let ghost next_alpha = imax(best_alpha as int, -r.0);
            proof {
                lemma_capture_shrinks(m, mv);
                assert(board_copy@ == child);
                assert(total == if !r.1 {
                    (0int, false)
                } else if next_alpha >= beta {
                    (next_best, true)
                } else {
                    qs_loop(m, caps, i + 1, next_best, next_alpha, beta as int)
                });
            }
            let score_neg = Self::search(&board_copy, -beta, -best_alpha, tt);
            let score = -score_neg;
            if score > best_score {
                best_score = score;
            }
            if score > best_alpha {
                best_alpha = score;
            }
            if best_alpha >= beta {
                return best_score;
            }
            i = i + 1;
        }
        best_score
    }

    /// Whether the last move landed on an empty square, that is, took nothing.
    pub fn is_quiet(board: &Board, last_move: ChessMove) -> (r: bool)
        requires
            on_board(last_move.to.0 as int, last_move.to.1 as int),
        ensures
            r == (board@.at(last_move.to.0 as int, last_move.to.1 as int) == Piece::Empty),
    {
        board.squares[last_move.to.0][last_move.to.1] == Piece::Empty
    }
}

} // verus!
