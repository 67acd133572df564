//! The alpha-beta search with its capture-only quiescence search, move
//! ordering, killer moves, the transposition table and a node limit; a stop
//! signal shared with another thread can end it early.

use vstd::prelude::*;
use std::sync::Arc;
use std::sync::atomic::AtomicBool;
use vstd::set_lib::{lemma_int_range, lemma_subset_equality, set_int_range};
use crate::board::board::{Board, BoardModel};
use crate::board::chess_move::{ChessMove, MoveType, mk_move};
use crate::board::pieces::Piece;
use crate::evaluation::{Evaluator, EvaluationMode, Score, hand_crafted};
use crate::evaluation::advanced::pawns::pawns_in_range;
use crate::move_ordering::{MoveOrderer, hash_hit, mvv_lva, killer_list, same_squares, history_index, scorable, sorted_order, with_killer};
use crate::search::qnode::imax;
use crate::search::optimization::quiescence::{grid_shape, piece_count, lemma_capture_shrinks};
use crate::transposition_table::{TranspositionTable, TableModel, BoundType, zobrist, hit, stored, keeps_existing};

verus! {

/// What stays fixed during a search: the node limit and the parts of the move
/// orderer that the search reads but never changes.
pub ghost struct AbEnv {
    pub node_limit: Option<u64>,
    pub history: Seq<u32>,
    pub depth_limit: u32,
}

/// What a search carries from node to node: its counters, the best root move,
/// the deepest depth started, whether it was aborted, the transposition table
/// and the killer moves.
pub ghost struct AbState {
    pub nodes: int,
    pub qnodes: int,
    pub cutoffs: int,
    pub best_move_at_root: Option<ChessMove>,
    pub root_depth: int,
    pub is_aborted: bool,
    pub table: TableModel,
    pub killers: Seq<(Option<ChessMove>, Option<ChessMove>)>,
}

/// The killer moves of a depth in the given killer slots.
pub open spec fn killers_here(env: AbEnv, killers: Seq<(Option<ChessMove>, Option<ChessMove>)>, depth: int) -> Seq<ChessMove> {
    if depth > env.depth_limit { Seq::<ChessMove>::empty() } else { killer_list(killers[depth]) }
}

/// One of the killer moves joins the same squares as the move.
pub open spec fn killer_match(kl: Seq<ChessMove>, mv: ChessMove) -> bool {
    exists|k: int| 0 <= k < kl.len() && #[trigger] same_squares(kl[k], mv)
}

/// The history counter of a move (zero outside the table).
pub open spec fn history_here(env: AbEnv, mv: ChessMove) -> int {
    let i = history_index(mv);
    if 0 <= i < env.history.len() { env.history[i] as int } else { 0 }
}

/// The ordering score of a move with the given killer slots (the move
/// orderer's score, with its killers taken from the search state).
pub open spec fn order_key(
    env: AbEnv,
    killers: Seq<(Option<ChessMove>, Option<ChessMove>)>,
    mv: ChessMove,
    m: BoardModel,
    depth: int,
    hm: Option<ChessMove>,
) -> int {
    if hash_hit(hm, mv) {
        16000
    } else if m.at(mv.to.0 as int, mv.to.1 as int) != Piece::Empty {
        mvv_lva(m, mv, m.at(mv.to.0 as int, mv.to.1 as int))
    } else if killer_match(killers_here(env, killers, depth), mv) {
        8000
    } else {
        let h = history_here(env, mv) as u32 as i32;
        if h < 7999 { h as int } else { 7999 }
    }
}

/// The ordering scores of a list of moves.
pub open spec fn order_keys(
    env: AbEnv,
    killers: Seq<(Option<ChessMove>, Option<ChessMove>)>,
    moves: Seq<ChessMove>,
    m: BoardModel,
    depth: int,
    hm: Option<ChessMove>,
) -> Seq<int> {
    Seq::new(moves.len(), |i: int| order_key(env, killers, moves[i], m, depth, hm))
}

/// The moves by decreasing key, equal keys in their original order.
pub open spec fn sorted_moves(keys: Seq<int>, moves: Seq<ChessMove>) -> Seq<ChessMove> {
    let idx = choose|idx: Seq<int>| sorted_order(keys, idx);
    Seq::new(moves.len(), |i: int| moves[idx[i]])
}

/// Position `x` comes before position `y` in a stable sort by decreasing key.
pub open spec fn ranks_before(keys: Seq<int>, x: int, y: int) -> bool {
    keys[x] > keys[y] || (keys[x] == keys[y] && x < y)
}

/// A stable order lists every position exactly once.
proof fn lemma_sorted_order_covers(keys: Seq<int>, idx: Seq<int>, j: int)
    requires
        sorted_order(keys, idx),
        0 <= j < keys.len(),
    ensures
        exists|p: int| 0 <= p < idx.len() && idx[p] == j,
{
    let n = keys.len() as int;
    assert(idx.no_duplicates()) by {
        assert forall|a: int, b: int| 0 <= a < idx.len() && 0 <= b < idx.len() && a != b implies idx[a] != idx[b] by {
            if a < b {
                assert(keys[idx[a]] > keys[idx[b]] || (keys[idx[a]] == keys[idx[b]] && idx[a] < idx[b]));
            } else {
                assert(keys[idx[b]] > keys[idx[a]] || (keys[idx[b]] == keys[idx[a]] && idx[b] < idx[a]));
            }
        }
    }
    idx.unique_seq_to_set();
    lemma_int_range(0, n);
    assert(idx.to_set().subset_of(set_int_range(0, n)));
    lemma_subset_equality(idx.to_set(), set_int_range(0, n));
    assert(set_int_range(0, n).contains(j));
    assert(idx.to_set().contains(j));
    assert(idx.contains(j));
}

/// Two stable orders of the same keys agree on their first `k` positions.
proof fn lemma_sorted_prefix(keys: Seq<int>, a: Seq<int>, b: Seq<int>, k: int)
    requires
        sorted_order(keys, a),
        sorted_order(keys, b),
        0 <= k <= keys.len(),
    ensures
        forall|i: int| 0 <= i < k ==> a[i] == b[i],
    decreases k,
{
    if k > 0 {
        lemma_sorted_prefix(keys, a, b, k - 1);
        let x = a[k - 1];
        let y = b[k - 1];
        if x != y {
            if ranks_before(keys, x, y) {
                lemma_sorted_order_covers(keys, b, x);
                let p = choose|p: int| 0 <= p < b.len() && b[p] == x;
                if p < k - 1 {
                    assert(a[p] == b[p]);
                    assert(keys[a[p]] > keys[a[k - 1]] || (keys[a[p]] == keys[a[k - 1]] && a[p] < a[k - 1]));
                } else {
                    assert(keys[b[k - 1]] > keys[b[p]] || (keys[b[k - 1]] == keys[b[p]] && b[k - 1] < b[p]));
                }
            } else {
                lemma_sorted_order_covers(keys, a, y);
                let p = choose|p: int| 0 <= p < a.len() && a[p] == y;
                if p < k - 1 {
                    assert(a[p] == b[p]);
                    assert(keys[b[p]] > keys[b[k - 1]] || (keys[b[p]] == keys[b[k - 1]] && b[p] < b[k - 1]));
                } else {
                    assert(keys[a[k - 1]] > keys[a[p]] || (keys[a[k - 1]] == keys[a[p]] && a[k - 1] < a[p]));
                }
            }
        }
    }
}

/// The stable order of a list of keys is unique.
pub proof fn lemma_sorted_order_unique(keys: Seq<int>, a: Seq<int>, b: Seq<int>)
    requires
        sorted_order(keys, a),
        sorted_order(keys, b),
    ensures
        a == b,
{
    lemma_sorted_prefix(keys, a, b, keys.len() as int);
    assert(a =~= b);
}

/// The ordering key with the orderer's own killers is the orderer's score.
pub proof fn lemma_order_key_matches(env: AbEnv, o: MoveOrderer, mv: ChessMove, m: BoardModel, depth: int, hm: Option<ChessMove>)
    requires
        env.history == o.history_table(),
        env.depth_limit == o.depth_limit(),
    ensures
        order_key(env, o.killers(), mv, m, depth, hm) == o.move_score(mv, m, depth, hm),
{
    assert(killers_here(env, o.killers(), depth) == o.killers_at(depth));
    assert(history_here(env, mv) == o.history_of(mv));
}

/// The search state after storing a node's result in the table.
pub open spec fn ab_finish(st: AbState, m: BoardModel, depth: int, best: int) -> (int, AbState, bool) {
    let h = zobrist(m);
    if st.table.entries.contains_key(h) && !keeps_existing(st.table, h, depth as u32) && st.table.collisions >= u64::MAX {
        (0, st, false)
    } else {
        (best, AbState { table: stored(st.table, h, depth as u32, best as i32, BoundType::Exact), ..st }, true)
    }
}

/// Whether the node limit has been reached, and whether counting the nodes overflows.
pub open spec fn limit_reached(env: AbEnv, st: AbState) -> bool {
    match env.node_limit {
        Some(l) => st.nodes + st.qnodes >= l,
        None => false,
    }
}

pub open spec fn count_overflows(env: AbEnv, st: AbState) -> bool {
    env.node_limit is Some && st.nodes + st.qnodes > u64::MAX
}

/// The quiescence search of the alpha-beta search: its score, the state after
/// it, and whether every step could be carried out without failing.
pub open spec fn abq(env: AbEnv, st: AbState, m: BoardModel, alpha: int, beta: int) -> (int, AbState, bool)
    decreases piece_count(m.grid), 1int, 0int,
{
    if st.is_aborted {
        (0, st, true)
    } else if count_overflows(env, st) {
        (0, st, false)
    } else if limit_reached(env, st) {
        (0, AbState { is_aborted: true, ..st }, true)
    } else if st.qnodes >= u64::MAX || !pawns_in_range(m) || !grid_shape(m.grid) {
        (0, st, false)
    } else {
        let st1 = AbState { qnodes: st.qnodes + 1, ..st };
        let se = hand_crafted(m);
        if se >= beta {
            (beta, st1, true)
        } else if !m.counters_ok() {
            (0, st1, false)
        } else {
            abq_loop(env, st1, m, m.legal_moves(), 0, se, imax(alpha, se), beta)
        }
    }
}

/// The quiescence search over the moves from index `i` on: captures are
/// searched, other moves skipped.
pub open spec fn abq_loop(
    env: AbEnv,
    st: AbState,
    m: BoardModel,
    moves: Seq<ChessMove>,
    i: int,
    best: int,
    alpha: int,
    beta: int,
) -> (int, AbState, bool)
    decreases piece_count(m.grid), 0int, moves.len() - i,
{
    if i < 0 || i >= moves.len() {
        (best, st, true)
    } else {
        let mv = moves[i];
        if !grid_shape(m.grid) || !m.sane_move(mv) || m.at(mv.to.0 as int, mv.to.1 as int) == Piece::Empty {
            abq_loop(env, st, m, moves, i + 1, best, alpha, beta)
        } else {
            proof {
                lemma_capture_shrinks(m, mv);
            }
            let r = abq(env, st, m.after_move(mv.from, mv.to, mv.move_type), -beta, -alpha);
            if !r.2 {
                (0, r.1, false)
            } else if r.1.is_aborted {
                (0, r.1, true)
            } else {
                let score = -r.0;
                let best2 = imax(best, score);
                let alpha2 = imax(alpha, score);
                if alpha2 >= beta {
                    (best2, r.1, true)
                } else {
                    abq_loop(env, r.1, m, moves, i + 1, best2, alpha2, beta)
                }
            }
        }
    }
}

/// The alpha-beta search of a position to a depth: its score, the state after
/// it, and whether every step could be carried out without failing.
pub open spec fn ab(env: AbEnv, st: AbState, m: BoardModel, depth: int, alpha: int, beta: int) -> (int, AbState, bool)
    decreases depth, 1int, 0int,
{
    if st.is_aborted {
        (0, st, true)
    } else if count_overflows(env, st) {
        (0, st, false)
    } else if limit_reached(env, st) {
        (0, AbState { is_aborted: true, ..st }, true)
    } else {
        let st1 = if depth > st.root_depth { AbState { root_depth: depth, ..st } } else { st };
        let is_root = depth == st1.root_depth;
        if depth <= 0 {
            abq(env, st1, m, alpha, beta)
        } else if st1.nodes >= u64::MAX {
            (0, st1, false)
        } else {
            let st2 = AbState { nodes: st1.nodes + 1, ..st1 };
            let h = zobrist(m);
            let found = hit(st2.table, h, depth as u32);
            if (found && st2.table.hits >= u64::MAX) || (!found && st2.table.misses >= u64::MAX) {
                (0, st2, false)
            } else {
                let t3 = if found {
                    TableModel { hits: (st2.table.hits + 1) as u64, ..st2.table }
                } else {
                    TableModel { misses: (st2.table.misses + 1) as u64, ..st2.table }
                };
                let st3 = AbState { table: t3, ..st2 };
                let hm = if found { Some(mk_move(0, 0, 0, 0, MoveType::Normal)) } else { None };
                if !m.counters_ok() {
                    (0, st3, false)
                } else if m.legal_moves().len() == 0 {
                    if m.in_check(m.turn) {
                        if depth > 20 { (0, st3, false) } else { (-100000 + (20 - depth), st3, true) }
                    } else {
                        (0, st3, true)
                    }
                } else if !(forall|k: int| 0 <= k < m.legal_moves().len() ==> scorable(m, #[trigger] m.legal_moves()[k], hm)) {
                    (0, st3, false)
                } else {
                    let keys = order_keys(env, st3.killers, m.legal_moves(), m, depth, hm);
                    ab_loop(env, st3, m, depth, sorted_moves(keys, m.legal_moves()), 0, -200000, alpha, beta, is_root)
                }
            }
        }
    }
}

/// The alpha-beta search over the ordered moves from index `i` on.
pub open spec fn ab_loop(
    env: AbEnv,
    st: AbState,
    m: BoardModel,
    depth: int,
    moves: Seq<ChessMove>,
    i: int,
    best: int,
    alpha: int,
    beta: int,
    is_root: bool,
) -> (int, AbState, bool)
    decreases depth, 0int, moves.len() - i,
{
    if i < 0 || i >= moves.len() || depth <= 0 {
        ab_finish(st, m, depth, best)
    } else {
        let mv = moves[i];
        if !m.sane_move(mv) {
            ab_loop(env, st, m, depth, moves, i + 1, best, alpha, beta, is_root)
        } else {
            let r = ab(env, st, m.after_move(mv.from, mv.to, mv.move_type), depth - 1, -beta, -alpha);
            if !r.2 {
                (0, r.1, false)
            } else if r.1.is_aborted {
                (0, r.1, true)
            } else {
                let score = -r.0;
                let best2 = imax(best, score);
                let improved = score > alpha;
                let alpha2 = if improved { score } else { alpha };
                let st2 = if improved && is_root { AbState { best_move_at_root: Some(mv), ..r.1 } } else { r.1 };
                if alpha2 >= beta {
                    if st2.cutoffs >= u64::MAX {
                        (0, st2, false)
                    } else {
                        ab_finish(
                            AbState {
                                cutoffs: st2.cutoffs + 1,
                                killers: with_killer(st2.killers, env.depth_limit as int, depth, mv),
                                ..st2
                            },
                            m,
                            depth,
                            best2,
                        )
                    }
                } else {
                    ab_loop(env, st2, m, depth, moves, i + 1, best2, alpha2, beta, is_root)
                }
            }
        }
    }
}

/// The alpha-beta loop never answers below the best score it starts from
/// (or zero, when it stops).
pub proof fn lemma_ab_loop_floor(
    env: AbEnv,
    st: AbState,
    m: BoardModel,
    depth: int,
    moves: Seq<ChessMove>,
    i: int,
    best: int,
    alpha: int,
    beta: int,
    is_root: bool,
)
    ensures
        ab_loop(env, st, m, depth, moves, i, best, alpha, beta, is_root).0 >= if best < 0 { best } else { 0 },
    decreases moves.len() - i,
{
    if !(i < 0 || i >= moves.len() || depth <= 0) && m.sane_move(moves[i]) {
        let mv = moves[i];
        let r = ab(env, st, m.after_move(mv.from, mv.to, mv.move_type), depth - 1, -beta, -alpha);
        let score = -r.0;
        let improved = score > alpha;
        let alpha2 = if improved { score } else { alpha };
        let st2 = if improved && is_root { AbState { best_move_at_root: Some(mv), ..r.1 } } else { r.1 };
        lemma_ab_loop_floor(env, st2, m, depth, moves, i + 1, imax(best, score), alpha2, beta, is_root);
    } else if !(i < 0 || i >= moves.len() || depth <= 0) {
        lemma_ab_loop_floor(env, st, m, depth, moves, i + 1, best, alpha, beta, is_root);
    }
}

/// A search of at least one ply scores at least -200000.
pub proof fn lemma_ab_floor(env: AbEnv, st: AbState, m: BoardModel, depth: int, alpha: int, beta: int)
    requires
        depth >= 1,
    ensures
        ab(env, st, m, depth, alpha, beta).0 >= -200000,
{
    let st1 = if depth > st.root_depth { AbState { root_depth: depth, ..st } } else { st };
    let st2 = AbState { nodes: st1.nodes + 1, ..st1 };
    let h = zobrist(m);
    let found = hit(st2.table, h, depth as u32);
    let t3 = if found {
        TableModel { hits: (st2.table.hits + 1) as u64, ..st2.table }
    } else {
        TableModel { misses: (st2.table.misses + 1) as u64, ..st2.table }
    };
    let st3 = AbState { table: t3, ..st2 };
    let hm = if found { Some(mk_move(0, 0, 0, 0, MoveType::Normal)) } else { None };
    let keys = order_keys(env, st3.killers, m.legal_moves(), m, depth, hm);
    lemma_ab_loop_floor(env, st3, m, depth, sorted_moves(keys, m.legal_moves()), 0, -200000, alpha, beta, depth == st1.root_depth);
}

/// The alpha-beta loop at two plies or more never answers above 200000 when it
/// starts from a best score no greater.
pub proof fn lemma_ab_loop_ceiling(
    env: AbEnv,
    st: AbState,
    m: BoardModel,
    depth: int,
    moves: Seq<ChessMove>,
    i: int,
    best: int,
    alpha: int,
    beta: int,
    is_root: bool,
)
    requires
        depth >= 2,
        best <= 200000,
    ensures
        ab_loop(env, st, m, depth, moves, i, best, alpha, beta, is_root).0 <= 200000,
    decreases moves.len() - i,
{
    if !(i < 0 || i >= moves.len()) && m.sane_move(moves[i]) {
        let mv = moves[i];
        let r = ab(env, st, m.after_move(mv.from, mv.to, mv.move_type), depth - 1, -beta, -alpha);
        lemma_ab_floor(env, st, m.after_move(mv.from, mv.to, mv.move_type), depth - 1, -beta, -alpha);
        let score = -r.0;
        let improved = score > alpha;
        let alpha2 = if improved { score } else { alpha };
        let st2 = if improved && is_root { AbState { best_move_at_root: Some(mv), ..r.1 } } else { r.1 };
        lemma_ab_loop_ceiling(env, st2, m, depth, moves, i + 1, imax(best, score), alpha2, beta, is_root);
    } else if !(i < 0 || i >= moves.len()) {
        lemma_ab_loop_ceiling(env, st, m, depth, moves, i + 1, best, alpha, beta, is_root);
    }
}

/// A search of at least two plies scores at most 200000.
pub proof fn lemma_ab_ceiling(env: AbEnv, st: AbState, m: BoardModel, depth: int, alpha: int, beta: int)
    requires
        depth >= 2,
    ensures
        ab(env, st, m, depth, alpha, beta).0 <= 200000,
{
    let st1 = if depth > st.root_depth { AbState { root_depth: depth, ..st } } else { st };
    let st2 = AbState { nodes: st1.nodes + 1, ..st1 };
    let h = zobrist(m);
    let found = hit(st2.table, h, depth as u32);
    let t3 = if found {
        TableModel { hits: (st2.table.hits + 1) as u64, ..st2.table }
    } else {
        TableModel { misses: (st2.table.misses + 1) as u64, ..st2.table }
    };
    let st3 = AbState { table: t3, ..st2 };
    let hm = if found { Some(mk_move(0, 0, 0, 0, MoveType::Normal)) } else { None };
    let keys = order_keys(env, st3.killers, m.legal_moves(), m, depth, hm);
    lemma_ab_loop_ceiling(env, st3, m, depth, sorted_moves(keys, m.legal_moves()), 0, -200000, alpha, beta, depth == st1.root_depth);
}

/// The first position from `i` on whose key is below `k`, or the length.
spec fn split_point(keys: Seq<int>, idx: Seq<int>, k: int, i: int) -> int
    decreases idx.len() - i,
{
    if i < 0 || i >= idx.len() || keys[idx[i]] < k {
        i
    } else {
        split_point(keys, idx, k, i + 1)
    }
}

proof fn lemma_split_point(keys: Seq<int>, idx: Seq<int>, k: int, i: int)
    requires
        0 <= i <= idx.len(),
    ensures
        i <= split_point(keys, idx, k, i) <= idx.len(),
        forall|a: int| i <= a < split_point(keys, idx, k, i) ==> keys[#[trigger] idx[a]] >= k,
        split_point(keys, idx, k, i) < idx.len() ==> keys[idx[split_point(keys, idx, k, i)]] < k,
    decreases idx.len() - i,
{
    if i < idx.len() && keys[idx[i]] >= k {
        lemma_split_point(keys, idx, k, i + 1);
    }
}

/// Every list of keys has a stable order by decreasing key.
proof fn lemma_sorted_order_exists(keys: Seq<int>)
    ensures
        exists|idx: Seq<int>| sorted_order(keys, idx),
    decreases keys.len(),
{
    if keys.len() == 0 {
        assert(sorted_order(keys, Seq::<int>::empty()));
    } else {
        let n = keys.len() - 1;
        let init = keys.drop_last();
        lemma_sorted_order_exists(init);
        let idx0 = choose|idx: Seq<int>| sorted_order(init, idx);
        let kk = keys[n];
        lemma_split_point(init, idx0, kk, 0);
        let p = split_point(init, idx0, kk, 0);
        let idx = idx0.insert(p, n);
        assert forall|j: int| 0 <= j < idx0.len() implies keys[idx0[j]] == init[#[trigger] idx0[j]] by {}
        assert forall|k: int| 0 <= k < idx.len() implies 0 <= #[trigger] idx[k] < keys.len() by {
            if k < p {
                assert(idx[k] == idx0[k]);
            } else if k > p {
                assert(idx[k] == idx0[k - 1]);
            }
        }
        assert forall|a: int, b: int| 0 <= a < b < idx.len()
            implies keys[#[trigger] idx[a]] > keys[#[trigger] idx[b]] || (keys[idx[a]] == keys[idx[b]] && idx[a] < idx[b]) by {
            if b < p {
                assert(idx[a] == idx0[a] && idx[b] == idx0[b]);
                assert(init[idx0[a]] > init[idx0[b]] || (init[idx0[a]] == init[idx0[b]] && idx0[a] < idx0[b]));
            } else if b == p {
                assert(idx[a] == idx0[a] && idx[b] == n);
                assert(init[idx0[a]] >= kk);
            } else if a < p {
                assert(idx[a] == idx0[a] && idx[b] == idx0[b - 1]);
                assert(init[idx0[a]] > init[idx0[b - 1]] || (init[idx0[a]] == init[idx0[b - 1]] && idx0[a] < idx0[b - 1]));
            } else if a == p {
                assert(idx[a] == n && idx[b] == idx0[b - 1]);
                if b - 1 > p {
                    assert(init[idx0[p]] > init[idx0[b - 1]] || (init[idx0[p]] == init[idx0[b - 1]] && idx0[p] < idx0[b - 1]));
                }
                assert(init[idx0[p]] < kk);
            } else {
                assert(idx[a] == idx0[a - 1] && idx[b] == idx0[b - 1]);
                assert(init[idx0[a - 1]] > init[idx0[b - 1]] || (init[idx0[a - 1]] == init[idx0[b - 1]] && idx0[a - 1] < idx0[b - 1]));
            }
        }
        assert(sorted_order(keys, idx));
    }
}

/// Sorting by keys only rearranges the moves.
proof fn lemma_sorted_moves_from(keys: Seq<int>, moves: Seq<ChessMove>)
    requires
        keys.len() == moves.len(),
    ensures
        forall|i: int| 0 <= i < moves.len() ==> moves.contains(#[trigger] sorted_moves(keys, moves)[i]),
{
    lemma_sorted_order_exists(keys);
    let idx = choose|idx: Seq<int>| sorted_order(keys, idx);
    assert forall|i: int| 0 <= i < moves.len() implies moves.contains(#[trigger] sorted_moves(keys, moves)[i]) by {
        assert(0 <= idx[i] < keys.len());
        assert(sorted_moves(keys, moves)[i] == moves[idx[i]]);
    }
}

/// Without a node limit the quiescence search never marks itself aborted.
proof fn lemma_abq_no_abort(env: AbEnv, st: AbState, m: BoardModel, alpha: int, beta: int)
    requires
        env.node_limit is None,
        !st.is_aborted,
    ensures
        !abq(env, st, m, alpha, beta).1.is_aborted,
    decreases piece_count(m.grid), 1int, 0int,
{
    if !(st.qnodes >= u64::MAX || !pawns_in_range(m) || !grid_shape(m.grid)) {
        let st1 = AbState { qnodes: st.qnodes + 1, ..st };
        let se = hand_crafted(m);
        if se < beta && m.counters_ok() {
            lemma_abq_loop_no_abort(env, st1, m, m.legal_moves(), 0, se, imax(alpha, se), beta);
        }
    }
}

proof fn lemma_abq_loop_no_abort(env: AbEnv, st: AbState, m: BoardModel, moves: Seq<ChessMove>, i: int, best: int, alpha: int, beta: int)
    requires
        env.node_limit is None,
        !st.is_aborted,
    ensures
        !abq_loop(env, st, m, moves, i, best, alpha, beta).1.is_aborted,
    decreases piece_count(m.grid), 0int, moves.len() - i,
{
    if !(i < 0 || i >= moves.len()) {
        let mv = moves[i];
        if !grid_shape(m.grid) || !m.sane_move(mv) || m.at(mv.to.0 as int, mv.to.1 as int) == Piece::Empty {
            lemma_abq_loop_no_abort(env, st, m, moves, i + 1, best, alpha, beta);
        } else {
            lemma_capture_shrinks(m, mv);
            lemma_abq_no_abort(env, st, m.after_move(mv.from, mv.to, mv.move_type), -beta, -alpha);
            let r = abq(env, st, m.after_move(mv.from, mv.to, mv.move_type), -beta, -alpha);
            let score = -r.0;
            lemma_abq_loop_no_abort(env, r.1, m, moves, i + 1, imax(best, score), imax(alpha, score), beta);
        }
    }
}

/// Without a node limit an alpha-beta search never marks itself aborted.
pub proof fn lemma_ab_no_abort(env: AbEnv, st: AbState, m: BoardModel, depth: int, alpha: int, beta: int)
    requires
        env.node_limit is None,
        !st.is_aborted,
    ensures
        !ab(env, st, m, depth, alpha, beta).1.is_aborted,
    decreases depth, 1int, 0int,
{
    let st1 = if depth > st.root_depth { AbState { root_depth: depth, ..st } } else { st };
    if depth <= 0 {
        lemma_abq_no_abort(env, st1, m, alpha, beta);
    } else if st1.nodes < u64::MAX {
        let st2 = AbState { nodes: st1.nodes + 1, ..st1 };
        let h = zobrist(m);
        let found = hit(st2.table, h, depth as u32);
        let t3 = if found {
            TableModel { hits: (st2.table.hits + 1) as u64, ..st2.table }
        } else {
            TableModel { misses: (st2.table.misses + 1) as u64, ..st2.table }
        };
        let st3 = AbState { table: t3, ..st2 };
        let hm = if found { Some(mk_move(0, 0, 0, 0, MoveType::Normal)) } else { None };
        let keys = order_keys(env, st3.killers, m.legal_moves(), m, depth, hm);
        lemma_ab_loop_no_abort(env, st3, m, depth, sorted_moves(keys, m.legal_moves()), 0, -200000, alpha, beta, depth == st1.root_depth);
    }
}

proof fn lemma_ab_loop_no_abort(
    env: AbEnv,
    st: AbState,
    m: BoardModel,
    depth: int,
    moves: Seq<ChessMove>,
    i: int,
    best: int,
    alpha: int,
    beta: int,
    is_root: bool,
)
    requires
        env.node_limit is None,
        !st.is_aborted,
    ensures
        !ab_loop(env, st, m, depth, moves, i, best, alpha, beta, is_root).1.is_aborted,
    decreases depth, 0int, moves.len() - i,
{
    if !(i < 0 || i >= moves.len() || depth <= 0) {
        let mv = moves[i];
        if !m.sane_move(mv) {
            lemma_ab_loop_no_abort(env, st, m, depth, moves, i + 1, best, alpha, beta, is_root);
        } else {
            lemma_ab_no_abort(env, st, m.after_move(mv.from, mv.to, mv.move_type), depth - 1, -beta, -alpha);
            let r = ab(env, st, m.after_move(mv.from, mv.to, mv.move_type), depth - 1, -beta, -alpha);
            let score = -r.0;
            let improved = score > alpha;
            let alpha2 = if improved { score } else { alpha };
            let st2 = if improved && is_root { AbState { best_move_at_root: Some(mv), ..r.1 } } else { r.1 };
            lemma_ab_loop_no_abort(env, st2, m, depth, moves, i + 1, imax(best, score), alpha2, beta, is_root);
        }
    }
}

/// The quiescence search leaves the best root move and the root depth alone.
proof fn lemma_abq_keeps_root(env: AbEnv, st: AbState, m: BoardModel, alpha: int, beta: int)
    ensures
        abq(env, st, m, alpha, beta).1.best_move_at_root == st.best_move_at_root,
        abq(env, st, m, alpha, beta).1.root_depth == st.root_depth,
    decreases piece_count(m.grid), 1int, 0int,
{
    if !st.is_aborted && !count_overflows(env, st) && !limit_reached(env, st)
        && !(st.qnodes >= u64::MAX || !pawns_in_range(m) || !grid_shape(m.grid)) {
        let st1 = AbState { qnodes: st.qnodes + 1, ..st };
        let se = hand_crafted(m);
        if se < beta && m.counters_ok() {
            lemma_abq_loop_keeps_root(env, st1, m, m.legal_moves(), 0, se, imax(alpha, se), beta);
        }
    }
}

proof fn lemma_abq_loop_keeps_root(
    env: AbEnv,
    st: AbState,
    m: BoardModel,
    moves: Seq<ChessMove>,
    i: int,
    best: int,
    alpha: int,
    beta: int,
)
    ensures
        abq_loop(env, st, m, moves, i, best, alpha, beta).1.best_move_at_root == st.best_move_at_root,
        abq_loop(env, st, m, moves, i, best, alpha, beta).1.root_depth == st.root_depth,
    decreases piece_count(m.grid), 0int, moves.len() - i,
{
    if !(i < 0 || i >= moves.len()) {
        let mv = moves[i];
        if !grid_shape(m.grid) || !m.sane_move(mv) || m.at(mv.to.0 as int, mv.to.1 as int) == Piece::Empty {
            lemma_abq_loop_keeps_root(env, st, m, moves, i + 1, best, alpha, beta);
        } else {
            lemma_capture_shrinks(m, mv);
            lemma_abq_keeps_root(env, st, m.after_move(mv.from, mv.to, mv.move_type), -beta, -alpha);
            let r = abq(env, st, m.after_move(mv.from, mv.to, mv.move_type), -beta, -alpha);
            let score = -r.0;
            lemma_abq_loop_keeps_root(env, r.1, m, moves, i + 1, imax(best, score), imax(alpha, score), beta);
        }
    }
}

/// Below the root, a search leaves the best root move and the root depth alone.
proof fn lemma_ab_keeps_root(env: AbEnv, st: AbState, m: BoardModel, depth: int, alpha: int, beta: int)
    requires
        depth < st.root_depth,
    ensures
        ab(env, st, m, depth, alpha, beta).1.best_move_at_root == st.best_move_at_root,
        ab(env, st, m, depth, alpha, beta).1.root_depth == st.root_depth,
    decreases depth, 1int, 0int,
{
    if !st.is_aborted && !count_overflows(env, st) && !limit_reached(env, st) {
        if depth <= 0 {
            lemma_abq_keeps_root(env, st, m, alpha, beta);
        } else if st.nodes < u64::MAX {
            let st2 = AbState { nodes: st.nodes + 1, ..st };
            let h = zobrist(m);
            let found = hit(st2.table, h, depth as u32);
            let t3 = if found {
                TableModel { hits: (st2.table.hits + 1) as u64, ..st2.table }
            } else {
                TableModel { misses: (st2.table.misses + 1) as u64, ..st2.table }
            };
            let st3 = AbState { table: t3, ..st2 };
            let hm = if found { Some(mk_move(0, 0, 0, 0, MoveType::Normal)) } else { None };
            let keys = order_keys(env, st3.killers, m.legal_moves(), m, depth, hm);
            lemma_ab_loop_keeps_root(env, st3, m, depth, sorted_moves(keys, m.legal_moves()), 0, -200000, alpha, beta, false);
        }
    }
}

proof fn lemma_ab_loop_keeps_root(
    env: AbEnv,
    st: AbState,
    m: BoardModel,
    depth: int,
    moves: Seq<ChessMove>,
    i: int,
    best: int,
    alpha: int,
    beta: int,
    is_root: bool,
)
    requires
        !is_root,
        depth <= st.root_depth,
    ensures
        ab_loop(env, st, m, depth, moves, i, best, alpha, beta, is_root).1.best_move_at_root == st.best_move_at_root,
        ab_loop(env, st, m, depth, moves, i, best, alpha, beta, is_root).1.root_depth == st.root_depth,
    decreases depth, 0int, moves.len() - i,
{
    if !(i < 0 || i >= moves.len() || depth <= 0) {
        let mv = moves[i];
        if !m.sane_move(mv) {
            lemma_ab_loop_keeps_root(env, st, m, depth, moves, i + 1, best, alpha, beta, is_root);
        } else {
            lemma_ab_keeps_root(env, st, m.after_move(mv.from, mv.to, mv.move_type), depth - 1, -beta, -alpha);
            let r = ab(env, st, m.after_move(mv.from, mv.to, mv.move_type), depth - 1, -beta, -alpha);
            let score = -r.0;
            let alpha2 = if score > alpha { score } else { alpha };
            lemma_ab_loop_keeps_root(env, r.1, m, depth, moves, i + 1, imax(best, score), alpha2, beta, is_root);
        }
    }
}

/// At the root, the loop records as best move either nothing new or one of the
/// moves it was given.
proof fn lemma_ab_loop_root_move(
    env: AbEnv,
    st: AbState,
    m: BoardModel,
    depth: int,
    moves: Seq<ChessMove>,
    i: int,
    best: int,
    alpha: int,
    beta: int,
)
    requires
        depth == st.root_depth,
        forall|j: int| 0 <= j < moves.len() ==> m.legal_moves().contains(#[trigger] moves[j]),
    ensures
        ({
            let b = ab_loop(env, st, m, depth, moves, i, best, alpha, beta, true).1.best_move_at_root;
            b == st.best_move_at_root || (b matches Some(mv) && m.legal_moves().contains(mv))
        }),
        ab_loop(env, st, m, depth, moves, i, best, alpha, beta, true).1.root_depth == st.root_depth,
    decreases moves.len() - i,
{
    if !(i < 0 || i >= moves.len() || depth <= 0) {
        let mv = moves[i];
        if !m.sane_move(mv) {
            lemma_ab_loop_root_move(env, st, m, depth, moves, i + 1, best, alpha, beta);
        } else {
            lemma_ab_keeps_root(env, st, m.after_move(mv.from, mv.to, mv.move_type), depth - 1, -beta, -alpha);
            let r = ab(env, st, m.after_move(mv.from, mv.to, mv.move_type), depth - 1, -beta, -alpha);
            let score = -r.0;
            let improved = score > alpha;
            let alpha2 = if improved { score } else { alpha };
            let st2 = if improved { AbState { best_move_at_root: Some(mv), ..r.1 } } else { r.1 };
            lemma_ab_loop_root_move(env, st2, m, depth, moves, i + 1, imax(best, score), alpha2, beta);
        }
    }
}

/// The move a root search records as best is one of the position's legal moves
/// (or the one recorded before, when the search records none).
pub proof fn lemma_best_root_move_is_legal(env: AbEnv, st: AbState, m: BoardModel, depth: int, alpha: int, beta: int)
    requires
        depth >= st.root_depth,
    ensures
        ({
            let b = ab(env, st, m, depth, alpha, beta).1.best_move_at_root;
            b == st.best_move_at_root || (b matches Some(mv) && m.legal_moves().contains(mv))
        }),
        ab(env, st, m, depth, alpha, beta).1.root_depth <= depth,
{
    if !st.is_aborted && !count_overflows(env, st) && !limit_reached(env, st) {
        let st1 = if depth > st.root_depth { AbState { root_depth: depth, ..st } } else { st };
        if depth <= 0 {
            lemma_abq_keeps_root(env, st1, m, alpha, beta);
        } else if st1.nodes < u64::MAX {
            let st2 = AbState { nodes: st1.nodes + 1, ..st1 };
            let h = zobrist(m);
            let found = hit(st2.table, h, depth as u32);
            let t3 = if found {
                TableModel { hits: (st2.table.hits + 1) as u64, ..st2.table }
            } else {
                TableModel { misses: (st2.table.misses + 1) as u64, ..st2.table }
            };
            let st3 = AbState { table: t3, ..st2 };
            let hm = if found { Some(mk_move(0, 0, 0, 0, MoveType::Normal)) } else { None };
            let keys = order_keys(env, st3.killers, m.legal_moves(), m, depth, hm);
            lemma_sorted_moves_from(keys, m.legal_moves());
            lemma_ab_loop_root_move(env, st3, m, depth, sorted_moves(keys, m.legal_moves()), 0, -200000, alpha, beta);
        }
    }
}

/// The alpha-beta searcher: counters, the best root move, the node limit and
/// the stop signal.
pub struct AlphaBeta {
    pub nodes: u64,
    pub qnodes: u64,
    pub cutoffs: u64,
    pub best_move_at_root: Option<ChessMove>,
    pub root_depth: u32,
    pub node_limit: Option<u64>,
    pub is_aborted: bool,
    pub stop_flag: Option<Arc<AtomicBool>>,
    pub gpu_batch_min: usize,
    pub gpu_max_depth: u32,
    pub gpu_batches: u64,
    pub gpu_children_total: u64,
    pub hints_used: u64,
}

impl AlphaBeta {
    /// The fixed part of a search by this searcher with this orderer.
    pub open spec fn env(&self, orderer: &MoveOrderer) -> AbEnv {
        AbEnv { node_limit: self.node_limit, history: orderer.history_table(), depth_limit: orderer.depth_limit() }
    }

    /// The search state held by this searcher, the table and the orderer.
    pub open spec fn state(&self, table: TableModel, orderer: &MoveOrderer) -> AbState {
        AbState {
            nodes: self.nodes as int,
            qnodes: self.qnodes as int,
            cutoffs: self.cutoffs as int,
            best_move_at_root: self.best_move_at_root,
            root_depth: self.root_depth as int,
            is_aborted: self.is_aborted,
            table,
            killers: orderer.killers(),
        }
    }

    /// The settings that a search leaves alone.
    pub open spec fn same_settings(&self, other: &AlphaBeta) -> bool {
        &&& self.node_limit == other.node_limit
        &&& self.stop_flag == other.stop_flag
        &&& self.gpu_batch_min == other.gpu_batch_min
        &&& self.gpu_max_depth == other.gpu_max_depth
        &&& self.gpu_batches == other.gpu_batches
        &&& self.gpu_children_total == other.gpu_children_total
        &&& self.hints_used == other.hints_used
    }

    pub fn new() -> (a: Self)
        ensures
            a.nodes == 0 && a.qnodes == 0 && a.cutoffs == 0,
            a.best_move_at_root is None,
            a.root_depth == 0,
            a.node_limit is None,
            !a.is_aborted,
            a.stop_flag is None,
            a.gpu_batch_min == 8 && a.gpu_max_depth == 16,
            a.gpu_batches == 0 && a.gpu_children_total == 0 && a.hints_used == 0,
    {
        AlphaBeta {
            nodes: 0,
            qnodes: 0,
            cutoffs: 0,
            best_move_at_root: None,
            root_depth: 0,
            node_limit: None,
            is_aborted: false,
            stop_flag: None,
            gpu_batch_min: 8,
            gpu_max_depth: 16,
            gpu_batches: 0,
            gpu_children_total: 0,
            hints_used: 0,
        }
    }

    /// Shares a stop signal with the searcher.
    pub fn set_stop_flag(&mut self, flag: Arc<AtomicBool>)
        ensures
            final(self).stop_flag == Some(flag),
            final(self).nodes == old(self).nodes && final(self).qnodes == old(self).qnodes,
            final(self).cutoffs == old(self).cutoffs,
            final(self).best_move_at_root == old(self).best_move_at_root,
            final(self).root_depth == old(self).root_depth,
            final(self).node_limit == old(self).node_limit,
            final(self).is_aborted == old(self).is_aborted,
    {
        self.stop_flag = Some(flag);
    }

    /// Whether the search must stop: it was aborted before, or the stop signal
    /// is raised now, which aborts it. Only the abort mark can change.
    fn must_abort(&mut self) -> (r: bool)
        ensures
            r == final(self).is_aborted,
            old(self).is_aborted ==> r,
            old(self).stop_flag is None ==> r == old(self).is_aborted,
            r && !old(self).is_aborted ==> old(self).stop_flag is Some,
            *final(self) == (AlphaBeta { is_aborted: final(self).is_aborted, ..*old(self) }),
    {
        if self.is_aborted {
            return true;
        }
        let raised = match &self.stop_flag {
            Some(flag) => flag.load(std::sync::atomic::Ordering::Relaxed),
            None => false,
        };
        if raised {
            self.is_aborted = true;
            return true;
        }
        false
    }

    /// The alpha-beta search of a position to a depth with a fresh hand-crafted
    /// evaluator.
    pub fn search(
        &mut self,
        board: &mut Board,
        depth: u32,
        alpha: Score,
        beta: Score,
        tt: &mut TranspositionTable,
        orderer: &mut MoveOrderer,
    ) -> (s: Score)
        requires
            old(orderer).wf(),
            alpha > i32::MIN,
            beta > i32::MIN,
            ab(old(self).env(old(orderer)), old(self).state(old(tt)@, old(orderer)), old(board)@, depth as int, alpha as int, beta as int).2,
        ensures
            *final(board) == *old(board),
            final(self).same_settings(old(self)),
            old(self).is_aborted ==> final(self).is_aborted,
            final(orderer).wf(),
            final(orderer).history_table() == old(orderer).history_table(),
            final(orderer).depth_limit() == old(orderer).depth_limit(),
            s > i32::MIN,
            depth >= 1 ==> s >= -200000,
            depth >= 2 ==> s <= 200000,
            (old(self).stop_flag is None || !final(self).is_aborted) ==> {
                let r = ab(old(self).env(old(orderer)), old(self).state(old(tt)@, old(orderer)), old(board)@, depth as int, alpha as int, beta as int);
                s == r.0 && final(self).state(final(tt)@, final(orderer)) == r.1
            },
            depth < old(self).root_depth ==> final(self).best_move_at_root == old(self).best_move_at_root
                && final(self).root_depth == old(self).root_depth,
            depth >= old(self).root_depth ==> final(self).root_depth <= depth && {
                ||| final(self).best_move_at_root == old(self).best_move_at_root
                ||| (final(self).best_move_at_root matches Some(mv) && old(board)@.legal_moves().contains(mv))
            },
    {
        let evaluator = Evaluator::new();
        self.search_with_eval(board, depth, alpha, beta, tt, orderer, &evaluator)
    }

    /// The alpha-beta search of a position to a depth. Unless the stop signal
    /// aborts it, its score and the state it leaves (counters, best root move,
    /// table and killers) are those of the search `ab`: moves ordered by the
    /// orderer, each searched with the negated window, alpha raised by better
    /// scores, a cutoff recorded as a killer, and the result stored in the table.
    pub fn search_with_eval<N>(
        &mut self,
        board: &mut Board,
        depth: u32,
        alpha: Score,
        beta: Score,
        tt: &mut TranspositionTable,
        orderer: &mut MoveOrderer,
        evaluator: &Evaluator<N>,
    ) -> (s: Score)
        requires
            evaluator.nnue_network is None || evaluator.mode == EvaluationMode::Handcrafted,
            old(orderer).wf(),
            alpha > i32::MIN,
            beta > i32::MIN,
            ab(old(self).env(old(orderer)), old(self).state(old(tt)@, old(orderer)), old(board)@, depth as int, alpha as int, beta as int).2,
        ensures
            *final(board) == *old(board),
            final(self).same_settings(old(self)),
            old(self).is_aborted ==> final(self).is_aborted,
            final(orderer).wf(),
            final(orderer).history_table() == old(orderer).history_table(),
            final(orderer).depth_limit() == old(orderer).depth_limit(),
            s > i32::MIN,
            depth >= 1 ==> s >= -200000,
            depth >= 2 ==> s <= 200000,
            (old(self).stop_flag is None || !final(self).is_aborted) ==> {
                let r = ab(old(self).env(old(orderer)), old(self).state(old(tt)@, old(orderer)), old(board)@, depth as int, alpha as int, beta as int);
                s == r.0 && final(self).state(final(tt)@, final(orderer)) == r.1
            },
            depth < old(self).root_depth ==> final(self).best_move_at_root == old(self).best_move_at_root
                && final(self).root_depth == old(self).root_depth,
            depth >= old(self).root_depth ==> final(self).root_depth <= depth && {
                ||| final(self).best_move_at_root == old(self).best_move_at_root
                ||| (final(self).best_move_at_root matches Some(mv) && old(board)@.legal_moves().contains(mv))
            },
        decreases depth,
    {
        let ghost m = board@;
        let ghost env = self.env(orderer);
        let ghost total = ab(env, self.state(tt@, orderer), m, depth as int, alpha as int, beta as int);
        if self.must_abort() {
            return 0;
        }
        if let Some(limit) = self.node_limit {
            if self.total_nodes() >= limit {
                self.is_aborted = true;
                return 0;
            }
        }
        if depth > self.root_depth {
            self.root_depth = depth;
        }
        let ghost root_after = self.root_depth;
        let is_root = depth == self.root_depth;
        if depth == 0 {
            return self.quiescence(board, alpha, beta, tt, orderer, evaluator);
        }
        self.nodes = self.nodes + 1;
        let found = tt.lookup(board, depth);
        let hash_move = match found {
            Some(_) => Some(ChessMove::new(0, 0, 0, 0)),
            None => None,
        };
        let mut moves = board.generate_moves();
        if moves.len() == 0 {
            if board.is_in_check(board.turn) {
                return -100000 + (20 - depth) as Score;
            } else {
                return 0;
            }
        }
        let ghost legal = moves@;
        let ghost keys = order_keys(env, orderer.killers(), legal, m, depth as int, hash_move);
        assert forall|j: int| 0 <= j < legal.len() implies #[trigger] keys[j] == orderer.score_keys(legal, m, depth as int, hash_move)[j] by {
            lemma_order_key_matches(env, *orderer, legal[j], m, depth as int, hash_move);
        }
        assert(keys =~= orderer.score_keys(legal, m, depth as int, hash_move));
        orderer.sort_moves(&mut moves, board, depth, hash_move);
        proof {
            let idx = choose|idx: Seq<int>| #[trigger] sorted_order(orderer.score_keys(legal, m, depth as int, hash_move), idx)
                && forall|k: int| 0 <= k < idx.len() ==> #[trigger] moves@[k] == legal[idx[k]];
            let chosen = choose|idx: Seq<int>| sorted_order(keys, idx);
            lemma_sorted_order_unique(keys, idx, chosen);
            assert(moves@ =~= sorted_moves(keys, legal));
            assert forall|k: int| 0 <= k < moves@.len() implies m.sane_move(#[trigger] moves@[k]) by {
                assert(m.sane_move(legal[idx[k]]));
            }
            assert forall|k: int| 0 <= k < moves@.len() implies legal.contains(#[trigger] moves@[k]) by {
                assert(moves@[k] == legal[idx[k]]);
            }
        }
        let ghost sorted = moves@;
        assert(total == ab_loop(env, self.state(tt@, orderer), m, depth as int, sorted, 0, -200000, alpha as int, beta as int, is_root));
        let mut best_score: Score = -200000;
        let mut cur_alpha = alpha;
        let mut i: usize = 0;
        let mut done = false;
        while !done && i < moves.len()
            invariant
                i <= sorted.len(),
                sorted == moves@,
                m == board@,
                *board == *old(board),
                m.counters_ok(),
                depth >= 1,
                forall|k: int| 0 <= k < sorted.len() ==> m.sane_move(#[trigger] sorted[k]),
                forall|k: int| 0 <= k < sorted.len() ==> legal.contains(#[trigger] sorted[k]),
                legal == m.legal_moves(),
                root_after >= depth,
                root_after == (if depth > old(self).root_depth { depth } else { old(self).root_depth }),
                self.root_depth == root_after,
                is_root <==> depth == root_after,
                !is_root ==> self.best_move_at_root == old(self).best_move_at_root,
                is_root ==> self.best_move_at_root == old(self).best_move_at_root
                    || (self.best_move_at_root matches Some(bm) && legal.contains(bm)),
                evaluator.nnue_network is None || evaluator.mode == EvaluationMode::Handcrafted,
                orderer.wf(),
                orderer.history_table() == old(orderer).history_table(),
                orderer.depth_limit() == old(orderer).depth_limit(),
                env == old(self).env(old(orderer)),
                self.same_settings(old(self)),
                beta > i32::MIN,
                cur_alpha >= alpha,
                alpha > i32::MIN,
                best_score >= -200000,
                depth >= 2 ==> best_score <= 200000,
                total == ab(old(self).env(old(orderer)), old(self).state(old(tt)@, old(orderer)), old(board)@, depth as int, alpha as int, beta as int),
                total.2,
                !done ==> !self.is_aborted
                    && total == ab_loop(env, self.state(tt@, orderer), m, depth as int, sorted, i as int, best_score as int, cur_alpha as int, beta as int, is_root),
                done ==> (self.is_aborted && old(self).stop_flag is Some)
                    || (!self.is_aborted && total == ab_finish(self.state(tt@, orderer), m, depth as int, best_score as int)),
            decreases sorted.len() - i + (if done { 0int } else { 1int }),
        {
            if self.must_abort() {
                done = true;
            } else {
                let mv = moves[i];
                assert(m.sane_move(sorted[i as int]));
                let mut nb = *board;
                assert(m.can_execute(mv.from, mv.to, mv.move_type));
                let res = nb.execute_move(mv.from, mv.to, mv.move_type);
                if res.is_err() {
                    i = i + 1;
                } else {
                    let ghost child = m.after_move(mv.from, mv.to, mv.move_type);
                    let ghost st_here = self.state(tt@, orderer);
                    let ghost r = ab(env, st_here, child, depth - 1, -(beta as int), -(cur_alpha as int));
                    assert(nb@ == child);
                    let score_neg = self.search_with_eval(&mut nb, depth - 1, -beta, -cur_alpha, tt, orderer, evaluator);
                    if self.is_aborted {
                        return 0;
                    }
                    let score = -score_neg;
                    if score > best_score {
                        best_score = score;
                    }
                    if score > cur_alpha {
                        cur_alpha = score;
                        if is_root {
                            self.best_move_at_root = Some(mv);
                        }
                    }
                    if cur_alpha >= beta {
                        self.cutoffs = self.cutoffs + 1;
                        orderer.record_killer(depth, mv);
                        done = true;
                    } else {
                        i = i + 1;
                    }
                }
            }
        }
        if !self.is_aborted {
            tt.store(board, depth, best_score, BoundType::Exact);
        }
        best_score
    }

    /// The quiescence search of the alpha-beta search: stand pat on the static
    /// score, then the captures in generation order with the negated window.
    fn quiescence<N>(
        &mut self,
        board: &Board,
        alpha: Score,
        beta: Score,
        tt: &mut TranspositionTable,
        orderer: &MoveOrderer,
        evaluator: &Evaluator<N>,
    ) -> (s: Score)
        requires
            evaluator.nnue_network is None || evaluator.mode == EvaluationMode::Handcrafted,
            alpha > i32::MIN,
            beta > i32::MIN,
            abq(old(self).env(orderer), old(self).state(old(tt)@, orderer), board@, alpha as int, beta as int).2,
        ensures
            final(self).same_settings(old(self)),
            old(self).is_aborted ==> final(self).is_aborted,
            final(tt)@ == old(tt)@,
            final(self).best_move_at_root == old(self).best_move_at_root,
            final(self).root_depth == old(self).root_depth,
            s > i32::MIN,
            (old(self).stop_flag is None || !final(self).is_aborted) ==> {
                let r = abq(old(self).env(orderer), old(self).state(old(tt)@, orderer), board@, alpha as int, beta as int);
                s == r.0 && final(self).state(final(tt)@, orderer) == r.1
            },
        decreases piece_count(board@.grid),
    {
        let ghost m = board@;
        let ghost env = self.env(orderer);
        let ghost total = abq(env, self.state(tt@, orderer), m, alpha as int, beta as int);
        if self.must_abort() {
            return 0;
        }
        if let Some(limit) = self.node_limit {
            if self.total_nodes() >= limit {
                self.is_aborted = true;
                return 0;
            }
        }
        self.qnodes = self.qnodes + 1;
        let static_eval = evaluator.evaluate(board);
        if static_eval >= beta {
            return beta;
        }
        let mut cur_alpha = alpha;
        if static_eval > cur_alpha {
            cur_alpha = static_eval;
        }
        let moves = board.generate_moves();
        let ghost legal = moves@;
        assert(total == abq_loop(env, self.state(tt@, orderer), m, legal, 0, static_eval as int, cur_alpha as int, beta as int));
        let mut best_score = static_eval;
        let mut i: usize = 0;
        let mut done = false;
        while !done && i < moves.len()
            invariant
                i <= legal.len(),
                legal == moves@,
                m == board@,
                grid_shape(m.grid),
                m.counters_ok(),
                m.all_sane(legal, 0),
                evaluator.nnue_network is None || evaluator.mode == EvaluationMode::Handcrafted,
                env == old(self).env(orderer),
                self.same_settings(old(self)),
                self.best_move_at_root == old(self).best_move_at_root,
                self.root_depth == old(self).root_depth,
                tt@ == old(tt)@,
                beta > i32::MIN,
                cur_alpha >= static_eval,
                best_score >= static_eval,
                static_eval > -200000,
                total == abq(old(self).env(orderer), old(self).state(old(tt)@, orderer), m, alpha as int, beta as int),
                total.2,
                !done ==> !self.is_aborted
                    && total == abq_loop(env, self.state(tt@, orderer), m, legal, i as int, best_score as int, cur_alpha as int, beta as int),
                done ==> (self.is_aborted && old(self).stop_flag is Some)
                    || (!self.is_aborted && total == (best_score as int, self.state(tt@, orderer), true)),
            decreases legal.len() - i + (if done { 0int } else { 1int }),
        {
            if self.must_abort() {
                done = true;
            } else {
                let mv = moves[i];
                assert(m.sane_move(legal[i as int]));
                if board.squares[mv.to.0][mv.to.1] == Piece::Empty {
                    i = i + 1;
                } else {
                    let mut board_copy = *board;
                    assert(m.can_execute(mv.from, mv.to, mv.move_type));
                    let res = board_copy.execute_move(mv.from, mv.to, mv.move_type);
                    if res.is_err() {
                        i = i + 1;
                    } else {
                        let ghost child = m.after_move(mv.from, mv.to, mv.move_type);
                        proof {
                            lemma_capture_shrinks(m, mv);
                            assert(board_copy@ == child);
                        }
                        let score_neg = self.quiescence(&board_copy, -beta, -cur_alpha, tt, orderer, evaluator);
                        if self.must_abort() {
                            return 0;
                        }
                        let score = -score_neg;
                        if score > best_score {
                            best_score = score;
                        }
                        if score > cur_alpha {
                            cur_alpha = score;
                        }
                        if cur_alpha >= beta {
                            done = true;
                        } else {
                            i = i + 1;
                        }
                    }
                }
            }
        }
        best_score
    }

    /// All nodes visited so far, main search and quiescence together.
    pub fn total_nodes(&self) -> (t: u64)
        requires
            self.nodes + self.qnodes <= u64::MAX,
        ensures
            t == self.nodes + self.qnodes,
    {
        self.nodes + self.qnodes
    }
}

} // verus!
