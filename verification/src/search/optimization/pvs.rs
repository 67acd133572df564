//! Principal variation search: the first move of each node gets the full
//! window, the others a null window around alpha, and a move that lands
//! inside the window is searched again with the full window.

use vstd::prelude::*;
use crate::board::board::{Board, BoardModel, on_board, square_text, lemma_square_text_roundtrip, lemma_plan_executable};
use crate::board::chess_move::ChessMove;
use crate::board::pieces::Piece;
use crate::evaluation::{Evaluator, Score, hand_crafted};
use crate::evaluation::advanced::pawns::pawns_in_range;
use crate::move_ordering::{MoveOrderer, scorable, sorted_order, with_killer};
use crate::search::qnode::imax;
use crate::search::optimization::alphabeta::{AbEnv, order_keys, sorted_moves, lemma_sorted_order_unique, lemma_order_key_matches};
use crate::search::optimization::quiescence::{grid_shape, piece_count, lemma_capture_shrinks};
use crate::transposition_table::{TranspositionTable, TableModel, BoundType, zobrist, stored, keeps_existing};

verus! {

/// What a principal variation search carries from node to node: its counters,
/// the transposition table and the killer moves.
pub ghost struct PvState {
    pub nodes: int,
    pub qnodes: int,
    pub cutoffs: int,
    pub full_window_searches: int,
    pub table: TableModel,
    pub killers: Seq<(Option<ChessMove>, Option<ChessMove>)>,
}

/// The move that `make_move` plays for the coordinates of a generated move.
pub open spec fn planned(m: BoardModel, mv: ChessMove) -> Option<((usize, usize), (usize, usize), crate::board::chess_move::MoveType)> {
    m.move_plan(square_text(mv.from), square_text(mv.to))
}

/// The quiescence search of the principal variation search.
pub open spec fn pvq(m: BoardModel, st: PvState, alpha: int, beta: int) -> (int, PvState, bool)
    decreases piece_count(m.grid), 1int, 0int,
{
    if st.qnodes >= u64::MAX || !pawns_in_range(m) || !grid_shape(m.grid) {
        (0, st, false)
    } else {
        let st1 = PvState { qnodes: st.qnodes + 1, ..st };
        let se = hand_crafted(m);
        if se >= beta {
            (beta, st1, true)
        } else if !m.counters_ok() {
            (0, st1, false)
        } else {
            pvq_loop(m, st1, m.legal_moves(), 0, se, imax(alpha, se), beta)
        }
    }
}

/// The quiescence search over the moves from index `i` on: captures that
/// `make_move` can play are searched, other moves skipped.
pub open spec fn pvq_loop(m: BoardModel, st: PvState, moves: Seq<ChessMove>, i: int, best: int, alpha: int, beta: int) -> (int, PvState, bool)
    decreases piece_count(m.grid), 0int, moves.len() - i,
{
    if i < 0 || i >= moves.len() {
        (best, st, true)
    } else {
        let mv = moves[i];
        if !m.sane_move(mv) || m.at(mv.to.0 as int, mv.to.1 as int) == Piece::Empty {
            pvq_loop(m, st, moves, i + 1, best, alpha, beta)
        } else {
            match planned(m, mv) {
                None => pvq_loop(m, st, moves, i + 1, best, alpha, beta),
                Some((f, t, mt)) => {
                    if !grid_shape(m.grid) || !m.sane_move(ChessMove { from: f, to: t, move_type: mt })
                        || m.at(t.0 as int, t.1 as int) == Piece::Empty {
                        pvq_loop(m, st, moves, i + 1, best, alpha, beta)
                    } else {
                        proof {
                            lemma_capture_shrinks(m, ChessMove { from: f, to: t, move_type: mt });
                        }
                        let r = pvq(m.after_move(f, t, mt), st, -beta, -alpha);
                        if !r.2 {
                            (0, r.1, false)
                        } else {
                            let score = -r.0;
                            let best2 = imax(best, score);
                            let alpha2 = imax(alpha, score);
                            if alpha2 >= beta {
                                (best2, r.1, true)
                            } else {
                                pvq_loop(m, r.1, moves, i + 1, best2, alpha2, beta)
                            }
                        }
                    }
                },
            }
        }
    }
}

/// The state after storing a node's result in the table.
pub open spec fn pv_finish(st: PvState, m: BoardModel, depth: int, best: int) -> (int, PvState, bool) {
    let h = zobrist(m);
    if st.table.entries.contains_key(h) && !keeps_existing(st.table, h, depth as u32) && st.table.collisions >= u64::MAX {
        (0, st, false)
    } else {
        (best, PvState { table: stored(st.table, h, depth as u32, best as i32, BoundType::Exact), ..st }, true)
    }
}

/// The principal variation search of a position to a depth: its score, the
/// state after it, and whether every step could be carried out.
pub open spec fn pvs(env: AbEnv, st: PvState, m: BoardModel, depth: int, alpha: int, beta: int) -> (int, PvState, bool)
    decreases depth, 1int, 0int,
{
    if depth <= 0 {
        pvq(m, st, alpha, beta)
    } else if st.nodes >= u64::MAX || !m.counters_ok() {
        (0, st, false)
    } else {
        let st1 = PvState { nodes: st.nodes + 1, ..st };
        if m.legal_moves().len() == 0 {
            if m.in_check(m.turn) {
                if depth > 20 { (0, st1, false) } else { (-100000 + (20 - depth), st1, true) }
            } else {
                (0, st1, true)
            }
        } else if !(forall|k: int| 0 <= k < m.legal_moves().len() ==> scorable(m, #[trigger] m.legal_moves()[k], None)) {
            (0, st1, false)
        } else {
            let keys = order_keys(env, st1.killers, m.legal_moves(), m, depth, None);
            pvs_loop(env, st1, m, depth, sorted_moves(keys, m.legal_moves()), 0, -200000, alpha, beta, true)
        }
    }
}

/// The search of one move after the first: a null window around alpha, and
/// the full window again when the score lands strictly inside it.
pub open spec fn pvs_later(env: AbEnv, st: PvState, child: BoardModel, depth: int, alpha: int, beta: int) -> (int, PvState, bool)
    decreases depth, 0int, 0int,
{
    if depth <= 0 || alpha >= i32::MAX {
        (0, st, false)
    } else {
        let r1 = pvs(env, st, child, depth - 1, -alpha - 1, -alpha);
        let nws = -r1.0;
        if !r1.2 {
            (0, r1.1, false)
        } else if nws > alpha && nws < beta {
            if r1.1.full_window_searches >= u32::MAX {
                (0, r1.1, false)
            } else {
                let r2 = pvs(env, PvState { full_window_searches: r1.1.full_window_searches + 1, ..r1.1 }, child, depth - 1, -beta, -nws);
                (-r2.0, r2.1, r2.2)
            }
        } else {
            (nws, r1.1, true)
        }
    }
}

/// The principal variation search over the ordered moves from index `i` on;
/// `first` holds until a move has been played.
pub open spec fn pvs_loop(
    env: AbEnv,
    st: PvState,
    m: BoardModel,
    depth: int,
    moves: Seq<ChessMove>,
    i: int,
    best: int,
    alpha: int,
    beta: int,
    first: bool,
) -> (int, PvState, bool)
    decreases depth, 0int, moves.len() - i,
{
    if i < 0 || i >= moves.len() || depth <= 0 {
        pv_finish(st, m, depth, best)
    } else {
        let mv = moves[i];
        if !m.sane_move(mv) {
            pvs_loop(env, st, m, depth, moves, i + 1, best, alpha, beta, first)
        } else {
            match planned(m, mv) {
                None => pvs_loop(env, st, m, depth, moves, i + 1, best, alpha, beta, first),
                Some((f, t, mt)) => {
                    let child = m.after_move(f, t, mt);
                    let r = if first {
                        if st.full_window_searches >= u32::MAX {
                            (0, st, false)
                        } else {
                            let r0 = pvs(env, PvState { full_window_searches: st.full_window_searches + 1, ..st }, child, depth - 1, -beta, -alpha);
                            (-r0.0, r0.1, r0.2)
                        }
                    } else {
                        pvs_later(env, st, child, depth, alpha, beta)
                    };
                    if !r.2 {
                        (0, r.1, false)
                    } else {
                        let score = r.0;
                        let best2 = imax(best, score);
                        let alpha2 = imax(alpha, score);
                        if alpha2 >= beta {
                            if r.1.cutoffs >= u64::MAX {
                                (0, r.1, false)
                            } else {
                                pv_finish(
                                    PvState {
                                        cutoffs: r.1.cutoffs + 1,
                                        killers: with_killer(r.1.killers, env.depth_limit as int, depth, mv),
                                        ..r.1
                                    },
                                    m,
                                    depth,
                                    best2,
                                )
                            }
                        } else {
                            pvs_loop(env, r.1, m, depth, moves, i + 1, best2, alpha2, beta, false)
                        }
                    }
                },
            }
        }
    }
}

/// The principal variation searcher's counters.
pub struct PrincipalVariationSearch {
    pub nodes: u64,
    pub qnodes: u64,
    pub cutoffs: u64,
    pub full_window_searches: u32,
}

impl PrincipalVariationSearch {
    pub open spec fn env(&self, orderer: &MoveOrderer) -> AbEnv {
        AbEnv { node_limit: None, history: orderer.history_table(), depth_limit: orderer.depth_limit() }
    }

    /// The search state held by this searcher, the table and the orderer.
    pub open spec fn state(&self, table: TableModel, orderer: &MoveOrderer) -> PvState {
        PvState {
            nodes: self.nodes as int,
            qnodes: self.qnodes as int,
            cutoffs: self.cutoffs as int,
            full_window_searches: self.full_window_searches as int,
            table,
            killers: orderer.killers(),
        }
    }

    pub fn new() -> (p: Self)
        ensures
            p.nodes == 0 && p.qnodes == 0 && p.cutoffs == 0 && p.full_window_searches == 0,
    {
        PrincipalVariationSearch { nodes: 0, qnodes: 0, cutoffs: 0, full_window_searches: 0 }
    }

    /// The principal variation search of a position to a depth: its score and
    /// the state it leaves (counters, table and killers) are those of `pvs`.
    pub fn search(
        &mut self,
        board: &mut Board,
        depth: u32,
        alpha: Score,
        beta: Score,
        tt: &mut TranspositionTable,
        orderer: &mut MoveOrderer,
    ) -> (s: Score)
        requires
            old(orderer).wf(),
            alpha > i32::MIN,
            beta > i32::MIN,
            pvs(old(self).env(old(orderer)), old(self).state(old(tt)@, old(orderer)), old(board)@, depth as int, alpha as int, beta as int).2,
        ensures
            *final(board) == *old(board),
            final(orderer).wf(),
            final(orderer).history_table() == old(orderer).history_table(),
            final(orderer).depth_limit() == old(orderer).depth_limit(),
            s > i32::MIN,
            ({
                let r = pvs(old(self).env(old(orderer)), old(self).state(old(tt)@, old(orderer)), old(board)@, depth as int, alpha as int, beta as int);
                s == r.0 && final(self).state(final(tt)@, final(orderer)) == r.1
            }),
        decreases depth, 1int,
    {
        let ghost m = board@;
        let ghost env = self.env(orderer);
        let ghost total = pvs(env, self.state(tt@, orderer), m, depth as int, alpha as int, beta as int);
        if depth == 0 {
            return self.quiescence(board, alpha, beta, tt, orderer);
        }
        self.nodes = self.nodes + 1;
        let mut moves = board.generate_moves();
        if moves.len() == 0 {
            if board.is_in_check(board.turn) {
                return -100000 + (20 - depth) as Score;
            } else {
                return 0;
            }
        }
        let ghost legal = moves@;
        let ghost keys = order_keys(env, orderer.killers(), legal, m, depth as int, None);
        assert forall|j: int| 0 <= j < legal.len() implies #[trigger] keys[j] == orderer.score_keys(legal, m, depth as int, None)[j] by {
            lemma_order_key_matches(env, *orderer, legal[j], m, depth as int, None);
        }
        assert(keys =~= orderer.score_keys(legal, m, depth as int, None));
        orderer.sort_moves(&mut moves, board, depth, None);
        proof {
            let idx = choose|idx: Seq<int>| #[trigger] sorted_order(orderer.score_keys(legal, m, depth as int, None), idx)
                && forall|k: int| 0 <= k < idx.len() ==> #[trigger] moves@[k] == legal[idx[k]];
            let chosen = choose|idx: Seq<int>| sorted_order(keys, idx);
            lemma_sorted_order_unique(keys, idx, chosen);
            assert(moves@ =~= sorted_moves(keys, legal));
            assert forall|k: int| 0 <= k < moves@.len() implies m.sane_move(#[trigger] moves@[k]) by {
                assert(m.sane_move(legal[idx[k]]));
            }
        }
        let ghost sorted = moves@;
        assert(total == pvs_loop(env, self.state(tt@, orderer), m, depth as int, sorted, 0, -200000, alpha as int, beta as int, true));
        let mut best_score: Score = -200000;
        let mut cur_alpha = alpha;
        let mut first_move = true;
        let mut i: usize = 0;
        let mut done = false;
        while !done && i < moves.len()
            invariant
                i <= sorted.len(),
                sorted == moves@,
                m == board@,
                *board == *old(board),
                m.counters_ok(),
                depth >= 1,
                forall|k: int| 0 <= k < sorted.len() ==> m.sane_move(#[trigger] sorted[k]),
                orderer.wf(),
                orderer.history_table() == old(orderer).history_table(),
                orderer.depth_limit() == old(orderer).depth_limit(),
                env == old(self).env(old(orderer)),
                beta > i32::MIN,
                cur_alpha >= alpha,
                alpha > i32::MIN,
                best_score >= -200000,
                total == pvs(old(self).env(old(orderer)), old(self).state(old(tt)@, old(orderer)), old(board)@, depth as int, alpha as int, beta as int),
                total.2,
                !done ==> total == pvs_loop(env, self.state(tt@, orderer), m, depth as int, sorted, i as int, best_score as int, cur_alpha as int, beta as int, first_move),
                done ==> total == pv_finish(self.state(tt@, orderer), m, depth as int, best_score as int),
            decreases sorted.len() - i + (if done { 0int } else { 1int }),
        {
            let mv = moves[i];
            assert(m.sane_move(sorted[i as int]));
            let from = Board::square_to_string(mv.from);
            let to = Board::square_to_string(mv.to);
            proof {
                assert(from@ =~= square_text(mv.from));
                assert(to@ =~= square_text(mv.to));
                lemma_plan_executable(m, from@, to@);
            }
            let mut next_board = *board;
            let res = next_board.make_move(from.as_str(), to.as_str());
            if res.is_err() {
                i = i + 1;
            } else {
                let ghost st_here = self.state(tt@, orderer);
                let ghost plan = planned(m, mv).unwrap();
                let ghost child = m.after_move(plan.0, plan.1, plan.2);
                assert(next_board@ == child);
                let ghost later = pvs_later(env, st_here, child, depth as int, cur_alpha as int, beta as int);
                proof {
                    if !first_move {
                        assert(later.2);
                        let r1 = pvs(env, st_here, child, depth - 1, -(cur_alpha as int) - 1, -(cur_alpha as int));
                        assert(r1.2);
                        assert(cur_alpha < i32::MAX);
                    }
                }
                let score: Score;
                if first_move {
                    self.full_window_searches = self.full_window_searches + 1;
                    let sn = self.search(&mut next_board, depth - 1, -beta, -cur_alpha, tt, orderer);
                    score = -sn;
                } else {
                    let nws_neg = self.search(&mut next_board, depth - 1, -cur_alpha - 1, -cur_alpha, tt, orderer);
                    let null_window_score = -nws_neg;
                    proof {
                        if null_window_score > cur_alpha && null_window_score < beta {
                            assert(self.state(tt@, orderer).full_window_searches < u32::MAX);
                        }
                    }
                    if null_window_score > cur_alpha && null_window_score < beta {
                        self.full_window_searches = self.full_window_searches + 1;
                        let sn = self.search(&mut next_board, depth - 1, -beta, -null_window_score, tt, orderer);
                        score = -sn;
                    } else {
                        score = null_window_score;
                    }
                }
                if score > best_score {
                    best_score = score;
                }
                if score > cur_alpha {
                    cur_alpha = score;
                }
                first_move = false;
                if cur_alpha >= beta {
                    self.cutoffs = self.cutoffs + 1;
                    orderer.record_killer(depth, mv);
                    done = true;
                } else {
                    i = i + 1;
                }
            }
        }
        tt.store(board, depth, best_score, BoundType::Exact);
        best_score
    }

    /// The quiescence search: stand pat on the static score, then the captures
    /// in generation order, played through their coordinates.
    fn quiescence(&mut self, board: &Board, alpha: Score, beta: Score, tt: &mut TranspositionTable, orderer: &MoveOrderer) -> (s: Score)
        requires
            alpha > i32::MIN,
            beta > i32::MIN,
            pvq(board@, old(self).state(old(tt)@, orderer), alpha as int, beta as int).2,
        ensures
            final(tt)@ == old(tt)@,
            s > i32::MIN,
            ({
                let r = pvq(board@, old(self).state(old(tt)@, orderer), alpha as int, beta as int);
                s == r.0 && final(self).state(final(tt)@, orderer) == r.1
            }),
        decreases piece_count(board@.grid),
    {
        let ghost m = board@;
        let ghost total = pvq(m, self.state(tt@, orderer), alpha as int, beta as int);
        self.qnodes = self.qnodes + 1;
        let static_eval = Evaluator::hand_crafted_evaluate(board);
        if static_eval >= beta {
            return beta;
        }
        let mut cur_alpha = alpha;
        if static_eval > cur_alpha {
            cur_alpha = static_eval;
        }
        let moves = board.generate_moves();
        let ghost legal = moves@;
        assert(total == pvq_loop(m, self.state(tt@, orderer), legal, 0, static_eval as int, cur_alpha as int, beta as int));
        let mut best_score = static_eval;
        let mut i: usize = 0;
        let mut done = false;
        while !done && i < moves.len()
            invariant
                i <= legal.len(),
                legal == moves@,
                m == board@,
                grid_shape(m.grid),
                m.counters_ok(),
                m.all_sane(legal, 0),
                tt@ == old(tt)@,
                beta > i32::MIN,
                cur_alpha >= static_eval,
                best_score >= static_eval,
                static_eval > -200000,
                total == pvq(m, old(self).state(old(tt)@, orderer), alpha as int, beta as int),
                total.2,
                !done ==> total == pvq_loop(m, self.state(tt@, orderer), legal, i as int, best_score as int, cur_alpha as int, beta as int),
                done ==> total == (best_score as int, self.state(tt@, orderer), true),
            decreases legal.len() - i + (if done { 0int } else { 1int }),
        {
            let mv = moves[i];
            assert(m.sane_move(legal[i as int]));
            if board.squares[mv.to.0][mv.to.1] == Piece::Empty {
                i = i + 1;
            } else {
                let from = Board::square_to_string(mv.from);
                let to = Board::square_to_string(mv.to);
                proof {
                    assert(from@ =~= square_text(mv.from));
                    assert(to@ =~= square_text(mv.to));
                    lemma_plan_executable(m, from@, to@);
                    lemma_square_text_roundtrip(mv.from);
                    lemma_square_text_roundtrip(mv.to);
                }
                let mut board_copy = *board;
                let res = board_copy.make_move(from.as_str(), to.as_str());
                if res.is_err() {
                    i = i + 1;
                } else {
                    let ghost plan = planned(m, mv).unwrap();
                    proof {
                        lemma_capture_shrinks(m, ChessMove { from: plan.0, to: plan.1, move_type: plan.2 });
                    }
                    let score_neg = self.quiescence(&board_copy, -beta, -cur_alpha, tt, orderer);
                    let score = -score_neg;
                    if score > best_score {
                        best_score = score;
                    }
                    if score > cur_alpha {
                        cur_alpha = score;
                    }
                    if cur_alpha >= beta {
                        done = true;
                    } else {
                        i = i + 1;
                    }
                }
            }
        }
        best_score
    }
}

} // verus!
