//! Aspiration windows: a search of four plies or more starts with a narrow
//! window around the previous iteration's score and widens the side that
//! fails until the score falls inside.

use vstd::prelude::*;
use crate::board::board::{Board, BoardModel};
use crate::evaluation::{Evaluator, EvaluationMode, Score};
use crate::move_ordering::MoveOrderer;
use crate::search::optimization::alphabeta;
use crate::search::optimization::alphabeta::{AlphaBeta, AbEnv, AbState, lemma_ab_floor, lemma_ab_ceiling, lemma_best_root_move_is_legal, lemma_ab_no_abort};
use crate::transposition_table::TranspositionTable;

verus! {

/// How far a window lies inside the range of scores that a search of two plies
/// or more can give, with room for one widening on each side.
pub open spec fn window_slack(alpha: int, beta: int, w: int) -> nat {
    let low = alpha + 200000 + 2 * w;
    let high = 200000 + 2 * w - beta;
    ((if low > 0 { low } else { 0 }) + (if high > 0 { high } else { 0 })) as nat
}

/// The window size is positive and small enough that widening never overflows.
pub open spec fn window_ok(w: int) -> bool {
    0 < w <= 100_000_000
}

/// The re-searches of an aspiration search from the window (alpha, beta): a
/// score at or below alpha lowers alpha to twice the window below it, a score
/// at or above beta raises beta to twice the window above it, and a score
/// inside is the answer. Gives the score, the search state after it, whether
/// every search could be carried out, and the number of re-searches.
pub open spec fn asp_loop(
    env: AbEnv,
    st: AbState,
    m: BoardModel,
    depth: int,
    alpha: int,
    beta: int,
    w: int,
    n: int,
) -> (int, AbState, bool, int)
    decreases window_slack(alpha, beta, w),
{
    let r = alphabeta::ab(env, st, m, depth, alpha, beta);
    if !r.2 {
        (0, r.1, false, n)
    } else if depth < 2 || !window_ok(w) || alpha >= beta {
        (r.0, r.1, true, n)
    } else if r.0 <= alpha {
        proof {
            lemma_ab_floor(env, st, m, depth, alpha, beta);
        }
        asp_loop(env, r.1, m, depth, r.0 - 2 * w, beta, w, n + 1)
    } else if r.0 >= beta {
        proof {
            lemma_ab_ceiling(env, st, m, depth, alpha, beta);
        }
        asp_loop(env, r.1, m, depth, alpha, r.0 + 2 * w, w, n + 1)
    } else {
        (r.0, r.1, true, n)
    }
}

/// Every re-search starts at the root, so the move the aspiration search
/// records as best is one of the position's legal moves (or the one recorded
/// before, when it records none).
pub proof fn lemma_asp_best_move_is_legal(env: AbEnv, st: AbState, m: BoardModel, depth: int, alpha: int, beta: int, w: int, n: int)
    requires
        depth >= st.root_depth,
    ensures
        ({
            let b = asp_loop(env, st, m, depth, alpha, beta, w, n).1.best_move_at_root;
            b == st.best_move_at_root || (b matches Some(mv) && m.legal_moves().contains(mv))
        }),
    decreases window_slack(alpha, beta, w),
{
    lemma_best_root_move_is_legal(env, st, m, depth, alpha, beta);
    let r = alphabeta::ab(env, st, m, depth, alpha, beta);
    if r.2 && !(depth < 2 || !window_ok(w) || alpha >= beta) {
        if r.0 <= alpha {
            lemma_ab_floor(env, st, m, depth, alpha, beta);
            lemma_asp_best_move_is_legal(env, r.1, m, depth, r.0 - 2 * w, beta, w, n + 1);
        } else if r.0 >= beta {
            lemma_ab_ceiling(env, st, m, depth, alpha, beta);
            lemma_asp_best_move_is_legal(env, r.1, m, depth, alpha, r.0 + 2 * w, w, n + 1);
        }
    }
}

/// Without a node limit the aspiration re-searches never mark the search aborted.
pub proof fn lemma_asp_no_abort(env: AbEnv, st: AbState, m: BoardModel, depth: int, alpha: int, beta: int, w: int, n: int)
    requires
        env.node_limit is None,
        !st.is_aborted,
    ensures
        !asp_loop(env, st, m, depth, alpha, beta, w, n).1.is_aborted,
    decreases window_slack(alpha, beta, w),
{
    lemma_ab_no_abort(env, st, m, depth, alpha, beta);
    let r = alphabeta::ab(env, st, m, depth, alpha, beta);
    if r.2 && !(depth < 2 || !window_ok(w) || alpha >= beta) {
        if r.0 <= alpha {
            lemma_ab_floor(env, st, m, depth, alpha, beta);
            lemma_asp_no_abort(env, r.1, m, depth, r.0 - 2 * w, beta, w, n + 1);
        } else if r.0 >= beta {
            lemma_ab_ceiling(env, st, m, depth, alpha, beta);
            lemma_asp_no_abort(env, r.1, m, depth, alpha, r.0 + 2 * w, w, n + 1);
        }
    }
}

/// The aspiration window around the previous iteration's score.
pub struct AspirationWindows {
    pub window_size: Score,
    pub re_searches: u32,
}

impl AspirationWindows {
    pub fn new() -> (a: Self)
        ensures
            a.window_size == 50,
            a.re_searches == 0,
    {
        AspirationWindows { window_size: 50, re_searches: 0 }
    }

    /// The search of a position to a depth with a fresh hand-crafted evaluator.
    pub fn search(
        &mut self,
        ab: &mut AlphaBeta,
        board: &mut Board,
        depth: u32,
        prev_score: Score,
        tt: &mut TranspositionTable,
        orderer: &mut MoveOrderer,
    ) -> (s: Score)
        requires
            old(orderer).wf(),
            depth < 4 ==> alphabeta::ab(old(ab).env(old(orderer)), old(ab).state(old(tt)@, old(orderer)), old(board)@, depth as int, -200000, 200000).2,
            depth >= 4 ==> {
                &&& window_ok(old(self).window_size as int)
                &&& i32::MIN < prev_score - old(self).window_size
                &&& prev_score + old(self).window_size <= i32::MAX
                &&& asp_loop(old(ab).env(old(orderer)), old(ab).state(old(tt)@, old(orderer)), old(board)@, depth as int,
                    prev_score - old(self).window_size, prev_score + old(self).window_size, old(self).window_size as int, 0).2
            },
        ensures
            *final(board) == *old(board),
            final(self).window_size == old(self).window_size,
            final(ab).same_settings(old(ab)),
            final(orderer).wf(),
            final(orderer).history_table() == old(orderer).history_table(),
            final(orderer).depth_limit() == old(orderer).depth_limit(),
            (old(ab).stop_flag is None || !final(ab).is_aborted) ==> {
                if depth < 4 {
                    let r = alphabeta::ab(old(ab).env(old(orderer)), old(ab).state(old(tt)@, old(orderer)), old(board)@, depth as int, -200000, 200000);
                    s == r.0 && final(ab).state(final(tt)@, final(orderer)) == r.1 && final(self).re_searches == 0
                } else {
                    let r = asp_loop(old(ab).env(old(orderer)), old(ab).state(old(tt)@, old(orderer)), old(board)@, depth as int,
                        prev_score - old(self).window_size, prev_score + old(self).window_size, old(self).window_size as int, 0);
                    s == r.0 && final(ab).state(final(tt)@, final(orderer)) == r.1 && final(self).re_searches == r.3
                }
            },
            depth >= old(ab).root_depth ==> final(ab).root_depth <= depth && {
                ||| final(ab).best_move_at_root == old(ab).best_move_at_root
                ||| (final(ab).best_move_at_root matches Some(mv) && old(board)@.legal_moves().contains(mv))
            },
    {
        let evaluator = Evaluator::new();
        self.search_with_eval(ab, board, depth, prev_score, tt, orderer, &evaluator)
    }

    /// The search of a position to a depth: below four plies one search with
    /// the full window; from four plies on the aspiration re-searches of
    /// `asp_loop`, starting from the window around the previous score. Unless
    /// the stop signal aborts the searcher, the score, the state left behind and
    /// the number of re-searches are those of the specification.
    pub fn search_with_eval<N>(
        &mut self,
        ab: &mut AlphaBeta,
        board: &mut Board,
        depth: u32,
        prev_score: Score,
        tt: &mut TranspositionTable,
        orderer: &mut MoveOrderer,
        evaluator: &Evaluator<N>,
    ) -> (s: Score)
        requires
            evaluator.nnue_network is None || evaluator.mode == EvaluationMode::Handcrafted,
            old(orderer).wf(),
            depth < 4 ==> alphabeta::ab(old(ab).env(old(orderer)), old(ab).state(old(tt)@, old(orderer)), old(board)@, depth as int, -200000, 200000).2,
            depth >= 4 ==> {
                &&& window_ok(old(self).window_size as int)
                &&& i32::MIN < prev_score - old(self).window_size
                &&& prev_score + old(self).window_size <= i32::MAX
                &&& asp_loop(old(ab).env(old(orderer)), old(ab).state(old(tt)@, old(orderer)), old(board)@, depth as int,
                    prev_score - old(self).window_size, prev_score + old(self).window_size, old(self).window_size as int, 0).2
            },
        ensures
            *final(board) == *old(board),
            final(self).window_size == old(self).window_size,
            final(ab).same_settings(old(ab)),
            final(orderer).wf(),
            final(orderer).history_table() == old(orderer).history_table(),
            final(orderer).depth_limit() == old(orderer).depth_limit(),
            (old(ab).stop_flag is None || !final(ab).is_aborted) ==> {
                if depth < 4 {
                    let r = alphabeta::ab(old(ab).env(old(orderer)), old(ab).state(old(tt)@, old(orderer)), old(board)@, depth as int, -200000, 200000);
                    s == r.0 && final(ab).state(final(tt)@, final(orderer)) == r.1 && final(self).re_searches == 0
                } else {
                    let r = asp_loop(old(ab).env(old(orderer)), old(ab).state(old(tt)@, old(orderer)), old(board)@, depth as int,
                        prev_score - old(self).window_size, prev_score + old(self).window_size, old(self).window_size as int, 0);
                    s == r.0 && final(ab).state(final(tt)@, final(orderer)) == r.1 && final(self).re_searches == r.3
                }
            },
            depth >= old(ab).root_depth ==> final(ab).root_depth <= depth && {
                ||| final(ab).best_move_at_root == old(ab).best_move_at_root
                ||| (final(ab).best_move_at_root matches Some(mv) && old(board)@.legal_moves().contains(mv))
            },
    {
        self.re_searches = 0;
        if depth < 4 {
            return ab.search_with_eval(board, depth, -200000, 200000, tt, orderer, evaluator);
        }
        let ghost m = board@;
        let ghost env = ab.env(orderer);
        let w = self.window_size;
        let mut alpha = prev_score - w;
        let mut beta = prev_score + w;
        let ghost slack0 = window_slack(alpha as int, beta as int, w as int);
        let ghost total = asp_loop(env, ab.state(tt@, orderer), m, depth as int, alpha as int, beta as int, w as int, 0);
        loop
            invariant
                m == board@,
                *board == *old(board),
                depth >= 4,
                w == self.window_size,
                w == old(self).window_size,
                window_ok(w as int),
                evaluator.nnue_network is None || evaluator.mode == EvaluationMode::Handcrafted,
                orderer.wf(),
                orderer.history_table() == old(orderer).history_table(),
                orderer.depth_limit() == old(orderer).depth_limit(),
                env == old(ab).env(old(orderer)),
                ab.same_settings(old(ab)),
                old(ab).is_aborted ==> ab.is_aborted,
                alpha < beta,
                alpha > i32::MIN,
                beta > i32::MIN,
                slack0 <= 2_700_000_000,
                self.re_searches as int * 2 + window_slack(alpha as int, beta as int, w as int) <= slack0,
                total == asp_loop(old(ab).env(old(orderer)), old(ab).state(old(tt)@, old(orderer)), old(board)@, depth as int,
                    prev_score - old(self).window_size, prev_score + old(self).window_size, old(self).window_size as int, 0),
                total.2,
                (old(ab).stop_flag is None || !ab.is_aborted) ==> total == asp_loop(env, ab.state(tt@, orderer), m, depth as int,
                    alpha as int, beta as int, w as int, self.re_searches as int),
                depth >= old(ab).root_depth ==> ab.root_depth <= depth && {
                    ||| ab.best_move_at_root == old(ab).best_move_at_root
                    ||| (ab.best_move_at_root matches Some(mv) && m.legal_moves().contains(mv))
                },
            decreases window_slack(alpha as int, beta as int, w as int),
        {
            let ghost st_here = ab.state(tt@, orderer);
            let ghost r = alphabeta::ab(env, st_here, m, depth as int, alpha as int, beta as int);
            let score = ab.search_with_eval(board, depth, alpha, beta, tt, orderer, evaluator);
            if score <= alpha {
                alpha = score - w * 2;
                self.re_searches = self.re_searches + 1;
                continue;
            }
            if score >= beta {
                beta = score + w * 2;
                self.re_searches = self.re_searches + 1;
                continue;
            }
            return score;
        }
    }
}

} // verus!
