//! Iterative deepening: one search per depth, each started from the previous
//! iteration's score, until the depth, the node budget, the clock or the stop
//! signal ends it. The best move is the root move of the last complete
//! iteration that found one.

use vstd::prelude::*;
use std::sync::Arc;
use std::sync::atomic::AtomicBool;
use std::time::{Duration, Instant};
use crate::board::board::{Board, BoardModel};
use crate::board::chess_move::ChessMove;
use crate::evaluation::{Evaluator, EvaluationMode, Score};
use crate::move_ordering::MoveOrderer;
use crate::search::optimization::alphabeta;
use crate::search::optimization::alphabeta::{AlphaBeta, AbEnv, AbState, lemma_ab_no_abort};
use crate::search::optimization::aspiration::{AspirationWindows, asp_loop, window_ok, lemma_asp_no_abort};
use crate::transposition_table::{TranspositionTable, TableModel, TranspositionEntry};

verus! {

#[verifier::external_type_specification]
#[verifier::external_body]
pub struct ExInstant(Instant);

/// `Instant::now` of std: the current time. Nothing is promised of it.
#[verifier::external_body]
pub(crate) fn now() -> Instant {
    Instant::now()
}

/// `Instant::elapsed` of std: the time since `start`. Nothing is promised of it.
#[verifier::external_body]
pub(crate) fn elapsed_since(start: &Instant) -> Duration {
    start.elapsed()
}

/// `Duration::as_nanos` of std: the whole duration in nanoseconds. A `Duration`
/// is opaque to the verifier and each one measured here comes from the clock,
/// so the count is left unstated.
#[verifier::external_body]
pub(crate) fn nanos_of(d: &Duration) -> u128 {
    d.as_nanos()
}

/// The table a search starts with: empty, sized for 16 MB.
pub open spec fn fresh_table() -> TableModel {
    TableModel {
        entries: Map::<u64, TranspositionEntry>::empty(),
        age: 0,
        max_entries: (16 * 1024 * 1024 / 32) as usize,
        hits: 0,
        misses: 0,
        collisions: 0,
    }
}

/// The killer slots a search starts with: empty for every depth up to the limit.
pub open spec fn fresh_killers(limit: int) -> Seq<(Option<ChessMove>, Option<ChessMove>)> {
    Seq::new((limit + 1) as nat, |d: int| (None::<ChessMove>, None::<ChessMove>))
}

/// The history counters a search starts with: all zero.
pub open spec fn fresh_history() -> Seq<u32> {
    Seq::new(768, |i: int| 0u32)
}

/// The state of a search that has not started.
pub open spec fn fresh_state(limit: int) -> AbState {
    AbState {
        nodes: 0,
        qnodes: 0,
        cutoffs: 0,
        best_move_at_root: None,
        root_depth: 0,
        is_aborted: false,
        table: fresh_table(),
        killers: fresh_killers(limit),
    }
}

/// One iteration at a depth from the previous score: the root move and the
/// deepest depth are forgotten, then below four plies one full-window search,
/// from four plies on the aspiration re-searches with a window of 50.
pub open spec fn iteration(env: AbEnv, st: AbState, m: BoardModel, depth: int, prev: int) -> (int, AbState, bool) {
    let st0 = AbState { best_move_at_root: None, root_depth: 0, ..st };
    if depth < 4 {
        alphabeta::ab(env, st0, m, depth, -200000, 200000)
    } else if i32::MIN < prev - 50 && prev + 50 <= i32::MAX {
        let r = asp_loop(env, st0, m, depth, prev - 50, prev + 50, 50, 0);
        (r.0, r.1, r.2)
    } else {
        (0, st0, false)
    }
}

/// The root move after an iteration: the one it found, else the one before.
pub open spec fn kept_move(st: AbState, best: Option<ChessMove>) -> Option<ChessMove> {
    match st.best_move_at_root {
        Some(b) => Some(b),
        None => best,
    }
}

/// Iterative deepening from depth `depth` to `max_depth` without a clock:
/// the best move, its score, the deepest complete depth, the state after it,
/// and whether every search could be carried out.
pub open spec fn id_depths(
    env: AbEnv,
    st: AbState,
    m: BoardModel,
    depth: int,
    max_depth: int,
    score: int,
    best: Option<ChessMove>,
    achieved: int,
) -> (Option<ChessMove>, int, int, AbState, bool)
    decreases max_depth + 1 - depth,
{
    if depth > max_depth || depth < 1 {
        (best, score, achieved, st, true)
    } else {
        let r = iteration(env, st, m, depth, score);
        if !r.2 {
            (best, score, achieved, r.1, false)
        } else if r.1.is_aborted {
            (best, score, achieved, r.1, true)
        } else {
            id_depths(env, r.1, m, depth + 1, max_depth, r.0, kept_move(r.1, best), depth)
        }
    }
}

/// Without a node limit an iteration never marks the search aborted.
pub proof fn lemma_iteration_no_abort(env: AbEnv, st: AbState, m: BoardModel, depth: int, prev: int)
    requires
        env.node_limit is None,
        !st.is_aborted,
    ensures
        !iteration(env, st, m, depth, prev).1.is_aborted,
{
    let st0 = AbState { best_move_at_root: None, root_depth: 0, ..st };
    if depth < 4 {
        lemma_ab_no_abort(env, st0, m, depth, -200000, 200000);
    } else if i32::MIN < prev - 50 && prev + 50 <= i32::MAX {
        lemma_asp_no_abort(env, st0, m, depth, prev - 50, prev + 50, 50, 0);
    }
}

/// The time budget of a search in nanoseconds: the whole milliseconds (taken
/// as a 64-bit count) times a million.
pub open spec fn budget_ns(ms: u128) -> int {
    ((ms as u64) as u128) * 1_000_000
}

/// One more depth after a run of iterative deepening: when the run was carried
/// out and not aborted, the iteration at depth `d`; otherwise the run as it stands.
pub open spec fn id_step(env: AbEnv, m: BoardModel, p: (Option<ChessMove>, int, int, AbState, bool), d: int)
    -> (Option<ChessMove>, int, int, AbState, bool)
{
    if !(p.4 && !p.3.is_aborted) {
        p
    } else {
        let r = iteration(env, p.3, m, d, p.1);
        if !r.2 {
            (p.0, p.1, p.2, r.1, false)
        } else if r.1.is_aborted {
            (p.0, p.1, p.2, r.1, true)
        } else {
            (kept_move(r.1, p.0), r.0, d, r.1, true)
        }
    }
}

/// Deepening to one more depth is one more step of the shallower run.
pub proof fn lemma_id_extend(
    env: AbEnv,
    st: AbState,
    m: BoardModel,
    a: int,
    k: int,
    score: int,
    best: Option<ChessMove>,
    achieved: int,
)
    requires
        1 <= a <= k + 1,
        !st.is_aborted,
    ensures
        id_depths(env, st, m, a, k + 1, score, best, achieved)
            == id_step(env, m, id_depths(env, st, m, a, k, score, best, achieved), k + 1),
    decreases k + 1 - a,
{
    let r = iteration(env, st, m, a, score);
    if a <= k {
        if r.2 && !r.1.is_aborted {
            lemma_id_extend(env, r.1, m, a + 1, k, r.0, kept_move(r.1, best), a);
        }
    } else {
        assert(id_depths(env, st, m, a, k, score, best, achieved) == (best, score, achieved, st, true));
        if r.2 && !r.1.is_aborted {
            assert(id_depths(env, r.1, m, a + 1, k + 1, r.0, kept_move(r.1, best), a)
                == (kept_move(r.1, best), r.0, a, r.1, true));
        }
    }
}

/// Iterative deepening within a node budget, from depth `depth` to 64: it
/// stops once the budget is spent or a search was aborted.
pub open spec fn id_nodes(
    env: AbEnv,
    st: AbState,
    m: BoardModel,
    depth: int,
    max_nodes: int,
    score: int,
    best: Option<ChessMove>,
    achieved: int,
) -> (Option<ChessMove>, int, int, AbState, bool)
    decreases 65 - depth,
{
    if depth > 64 || depth < 1 {
        (best, score, achieved, st, true)
    } else if st.nodes + st.qnodes > u64::MAX {
        (best, score, achieved, st, false)
    } else if st.nodes + st.qnodes >= max_nodes || st.is_aborted {
        (best, score, achieved, st, true)
    } else {
        let r = iteration(env, st, m, depth, score);
        if !r.2 {
            (best, score, achieved, r.1, false)
        } else if r.1.is_aborted {
            (kept_move(r.1, best), score, achieved, r.1, true)
        } else {
            id_nodes(env, r.1, m, depth + 1, max_nodes, r.0, kept_move(r.1, best), depth)
        }
    }
}

/// One step of publishing a helper thread's result: a thread whose finished
/// depth goes beyond the deepest published so far publishes its move and score.
pub open spec fn publish(acc: (Option<ChessMove>, i32, u32), r: (u32, Option<ChessMove>, i32)) -> (Option<ChessMove>, i32, u32) {
    if r.0 > acc.2 { (r.1, r.2, r.0) } else { acc }
}

/// The published move, score and depth after the results of the helper threads, in order.
pub open spec fn published(results: Seq<(u32, Option<ChessMove>, i32)>, start: (Option<ChessMove>, i32, u32)) -> (Option<ChessMove>, i32, u32)
    decreases results.len(),
{
    if results.len() == 0 {
        start
    } else {
        publish(published(results.drop_last(), start), results.last())
    }
}

/// The result of a search shared by helper threads: each result is the depth a
/// thread finished, its best move and its score; starting from the first legal
/// move at depth zero, the deepest result wins (the earliest among equals).
pub fn merge_thread_results(results: &Vec<(u32, Option<ChessMove>, Score)>, first_move: ChessMove) -> (r: (Option<ChessMove>, Score, u32))
    ensures
        r == published(results@, (Some(first_move), 0, 0)),
        forall|i: int| 0 <= i < results@.len() ==> (#[trigger] results@[i]).0 <= r.2,
        r.2 == 0 || exists|i: int| 0 <= i < results@.len() && (#[trigger] results@[i]).0 == r.2 && results@[i].1 == r.0,
{
    let ghost start = (Some(first_move), 0i32, 0u32);
    let mut best_move: Option<ChessMove> = Some(first_move);
    let mut best_score: Score = 0;
    let mut best_depth: u32 = 0;
    let mut i: usize = 0;
    while i < results.len()
        invariant
            i <= results@.len(),
            (best_move, best_score, best_depth) == published(results@.take(i as int), start),
            forall|k: int| 0 <= k < i ==> (#[trigger] results@[k]).0 <= best_depth,
            best_depth == 0 || exists|k: int| 0 <= k < i && (#[trigger] results@[k]).0 == best_depth && results@[k].1 == best_move,
        decreases results@.len() - i,
    {
        proof {
            assert(results@.take(i + 1).drop_last() =~= results@.take(i as int));
            assert(results@.take(i + 1).last() == results@[i as int]);
        }
        let (depth, mv, score) = results[i];
        if depth > best_depth {
            best_move = mv;
            best_score = score;
            best_depth = depth;
        }
        i = i + 1;
    }
    proof {
        assert(results@.take(results@.len() as int) =~= results@);
    }
    (best_move, best_score, best_depth)
}

/// The searcher of iterative deepening: the best move so far, its score, the
/// depth reached, the time spent, the alpha-beta searcher and the stop signal.
pub struct IterativeDeepening {
    pub best_move: Option<ChessMove>,
    pub best_score: Score,
    pub depth_achieved: u32,
    pub time_spent_ms: u128,
    pub ab: AlphaBeta,
    pub stop_flag: Option<Arc<AtomicBool>>,
    pub gpu_enabled: bool,
    pub gpu_batch_min: usize,
    pub gpu_max_depth: u32,
    pub gpu_checked: bool,
    /// The clock readings, in nanoseconds since the start, that the last timed
    /// search took to decide whether to go on.
    pub clock_readings: Ghost<Seq<u128>>,
}

impl IterativeDeepening {
    pub fn new() -> (s: Self)
        ensures
            s.best_move is None,
            s.best_score == 0,
            s.depth_achieved == 0,
            s.time_spent_ms == 0,
            s.stop_flag is None,
            !s.gpu_enabled && s.gpu_batch_min == 8 && s.gpu_max_depth == 16 && !s.gpu_checked,
    {
        IterativeDeepening {
            best_move: None,
            best_score: 0,
            depth_achieved: 0,
            time_spent_ms: 0,
            ab: AlphaBeta::new(),
            stop_flag: None,
            gpu_enabled: false,
            gpu_batch_min: 8,
            gpu_max_depth: 16,
            gpu_checked: false,
            clock_readings: Ghost(Seq::empty()),
        }
    }

    /// Turns the accelerator on or off; turning it off forgets the check made.
    pub fn set_gpu_enabled(&mut self, enabled: bool)
        ensures
            final(self).gpu_enabled == enabled,
            final(self).gpu_checked == (old(self).gpu_checked && enabled),
            final(self).gpu_batch_min == old(self).gpu_batch_min,
            final(self).gpu_max_depth == old(self).gpu_max_depth,
    {
        self.gpu_enabled = enabled;
        if !enabled {
            self.gpu_checked = false;
        }
    }

    /// The smallest batch for the accelerator, at least two.
    pub fn set_gpu_batch_min(&mut self, min: usize)
        ensures
            final(self).gpu_batch_min == if min >= 2 { min } else { 2 },
            final(self).gpu_enabled == old(self).gpu_enabled,
            final(self).gpu_max_depth == old(self).gpu_max_depth,
    {
        self.gpu_batch_min = if min >= 2 { min } else { 2 };
    }

    pub fn set_gpu_max_depth(&mut self, depth: u32)
        ensures
            final(self).gpu_max_depth == depth,
            final(self).gpu_enabled == old(self).gpu_enabled,
            final(self).gpu_batch_min == old(self).gpu_batch_min,
    {
        self.gpu_max_depth = depth;
    }

    /// Forgets whether the accelerator was checked.
    pub fn invalidate_gpu(&mut self)
        ensures
            !final(self).gpu_checked,
            final(self).gpu_enabled == old(self).gpu_enabled,
    {
        self.gpu_checked = false;
    }

    /// Shares a stop signal with the searcher.
    pub fn set_stop_flag(&mut self, flag: Arc<AtomicBool>)
        ensures
            final(self).stop_flag == Some(flag),
            final(self).best_move == old(self).best_move,
            final(self).best_score == old(self).best_score,
            final(self).depth_achieved == old(self).depth_achieved,
            final(self).gpu_enabled == old(self).gpu_enabled,
            final(self).gpu_batch_min == old(self).gpu_batch_min,
            final(self).gpu_max_depth == old(self).gpu_max_depth,
    {
        self.stop_flag = Some(flag);
    }

    fn stop_requested(&self) -> (r: bool)
        ensures
            self.stop_flag is None ==> !r,
    {
        match &self.stop_flag {
            Some(flag) => flag.load(std::sync::atomic::Ordering::Relaxed),
            None => false,
        }
    }

    /// A fresh alpha-beta searcher with the settings and the stop signal of this one.
    fn fresh_searcher(&self, node_limit: Option<u64>) -> (ab: AlphaBeta)
        ensures
            ab.nodes == 0 && ab.qnodes == 0 && ab.cutoffs == 0,
            ab.best_move_at_root is None,
            ab.root_depth == 0,
            !ab.is_aborted,
            ab.node_limit == node_limit,
            ab.stop_flag is None <==> self.stop_flag is None,
    {
        let mut ab = AlphaBeta::new();
        ab.gpu_batch_min = self.gpu_batch_min;
        ab.gpu_max_depth = self.gpu_max_depth;
        ab.node_limit = node_limit;
        match &self.stop_flag {
            Some(flag) => {
                ab.set_stop_flag(Arc::clone(flag));
            },
            None => {},
        }
        ab
    }

    /// Searches to `max_depth` plies or until the time limit passes, with a
    /// fresh hand-crafted evaluator.
    pub fn search(&mut self, board: &mut Board, max_depth: u32, time_limit_ms: Option<u128>) -> (r: Option<ChessMove>)
        requires
            old(board)@.counters_ok(),
            old(board)@.legal_moves().len() > 0 ==> id_depths(
                AbEnv { node_limit: None, history: fresh_history(), depth_limit: max_depth },
                fresh_state(max_depth as int),
                old(board)@,
                1,
                max_depth as int,
                old(self).best_score as int,
                Some(old(board)@.legal_moves()[0]),
                old(self).depth_achieved as int,
            ).4,
        ensures
            *final(board) == *old(board),
            old(board)@.legal_moves().len() == 0 <==> r is None,
            old(board)@.legal_moves().len() > 0 ==> r == final(self).best_move,
            r matches Some(mv) ==> old(board)@.legal_moves().contains(mv),
            old(board)@.legal_moves().len() > 0 && old(self).stop_flag is None && time_limit_ms is None ==> {
                let d = id_depths(
                    AbEnv { node_limit: None, history: fresh_history(), depth_limit: max_depth },
                    fresh_state(max_depth as int),
                    old(board)@,
                    1,
                    max_depth as int,
                    old(self).best_score as int,
                    Some(old(board)@.legal_moves()[0]),
                    old(self).depth_achieved as int,
                );
                &&& final(self).best_move == d.0
                &&& final(self).best_score == d.1
                &&& final(self).depth_achieved == d.2
            },
            time_limit_ms matches Some(ms) ==> forall|i: int| 0 <= i < final(self).clock_readings@.len() - 1
                ==> #[trigger] final(self).clock_readings@[i] <= budget_ns(ms),
            old(board)@.legal_moves().len() > 0 && old(self).stop_flag is None ==> exists|cut: int| {
                let p = #[trigger] id_depths(
                    AbEnv { node_limit: None, history: fresh_history(), depth_limit: max_depth },
                    fresh_state(max_depth as int),
                    old(board)@,
                    1,
                    cut,
                    old(self).best_score as int,
                    Some(old(board)@.legal_moves()[0]),
                    old(self).depth_achieved as int,
                );
                &&& 0 <= cut <= max_depth
                &&& final(self).best_move == p.0
                &&& final(self).best_score == p.1
                &&& final(self).depth_achieved == p.2
                &&& cut < max_depth ==> (time_limit_ms matches Some(ms)
                    && final(self).clock_readings@.len() > 0
                    && final(self).clock_readings@.last() > budget_ns(ms))
            },
    {
        let evaluator = Evaluator::new();
        self.search_with_eval(board, max_depth, time_limit_ms, &evaluator)
    }

    /// Searches to `max_depth` plies or until the time limit passes. Without a
    /// stop signal and without a time limit, the best move, its score and the
    /// depth reached are those of `id_depths`; otherwise the search ends at a
    /// depth where the signal or the clock stopped it.
    pub fn search_with_eval<N>(
        &mut self,
        board: &mut Board,
        max_depth: u32,
        time_limit_ms: Option<u128>,
        evaluator: &Evaluator<N>,
    ) -> (r: Option<ChessMove>)
        requires
            evaluator.nnue_network is None || evaluator.mode == EvaluationMode::Handcrafted,
            old(board)@.counters_ok(),
            old(board)@.legal_moves().len() > 0 ==> id_depths(
                AbEnv { node_limit: None, history: fresh_history(), depth_limit: max_depth },
                fresh_state(max_depth as int),
                old(board)@,
                1,
                max_depth as int,
                old(self).best_score as int,
                Some(old(board)@.legal_moves()[0]),
                old(self).depth_achieved as int,
            ).4,
        ensures
            *final(board) == *old(board),
            old(board)@.legal_moves().len() == 0 <==> r is None,
            old(board)@.legal_moves().len() > 0 ==> r == final(self).best_move,
            r matches Some(mv) ==> old(board)@.legal_moves().contains(mv),
            old(board)@.legal_moves().len() > 0 && old(self).stop_flag is None && time_limit_ms is None ==> {
                let d = id_depths(
                    AbEnv { node_limit: None, history: fresh_history(), depth_limit: max_depth },
                    fresh_state(max_depth as int),
                    old(board)@,
                    1,
                    max_depth as int,
                    old(self).best_score as int,
                    Some(old(board)@.legal_moves()[0]),
                    old(self).depth_achieved as int,
                );
                &&& final(self).best_move == d.0
                &&& final(self).best_score == d.1
                &&& final(self).depth_achieved == d.2
            },
            time_limit_ms matches Some(ms) ==> forall|i: int| 0 <= i < final(self).clock_readings@.len() - 1
                ==> #[trigger] final(self).clock_readings@[i] <= budget_ns(ms),
            old(board)@.legal_moves().len() > 0 && old(self).stop_flag is None ==> exists|cut: int| {
                let p = #[trigger] id_depths(
                    AbEnv { node_limit: None, history: fresh_history(), depth_limit: max_depth },
                    fresh_state(max_depth as int),
                    old(board)@,
                    1,
                    cut,
                    old(self).best_score as int,
                    Some(old(board)@.legal_moves()[0]),
                    old(self).depth_achieved as int,
                );
                &&& 0 <= cut <= max_depth
                &&& final(self).best_move == p.0
                &&& final(self).best_score == p.1
                &&& final(self).depth_achieved == p.2
                &&& cut < max_depth ==> (time_limit_ms matches Some(ms)
                    && final(self).clock_readings@.len() > 0
                    && final(self).clock_readings@.last() > budget_ns(ms))
            },
    {
        let start = now();
        self.clock_readings = Ghost(Seq::empty());
        let moves = board.generate_moves();
        if moves.len() == 0 {
            return None;
        }
        let ghost m = board@;
        let ghost env = AbEnv { node_limit: None, history: fresh_history(), depth_limit: max_depth };
        let ghost total = id_depths(env, fresh_state(max_depth as int), m, 1, max_depth as int,
            self.best_score as int, Some(moves@[0]), self.depth_achieved as int);
        let limit_nanos: Option<u128> = match time_limit_ms {
            Some(ms) => {
                let whole_ms = #[verifier::truncate] (ms as u64);
                Some(whole_ms as u128 * 1_000_000)
            },
            None => None,
        };
        let mut tt = TranspositionTable::new(16);
        let mut orderer = MoveOrderer::new(max_depth);
        self.ab = self.fresh_searcher(None);
        let mut aspiration = AspirationWindows::new();
        self.best_move = Some(moves[0]);
        proof {
            assert(m.legal_moves()[0] == moves@[0]);
            assert(orderer.killers() =~= fresh_killers(max_depth as int));
            assert(orderer.history_table() =~= fresh_history());
            assert(self.ab.state(tt@, &orderer) == fresh_state(max_depth as int));
            assert(self.ab.env(&orderer) == env);
        }
        let ghost ob = old(self).best_score as int;
        let ghost oa = old(self).depth_achieved as int;
        let ghost l0 = Some(m.legal_moves()[0]);
        let ghost fresh = fresh_state(max_depth as int);
        let ghost mut cut: int = 0;
        let ghost mut timed_out = false;
        proof {
            assert(id_depths(env, fresh, m, 1, 0, ob, l0, oa) == (l0, ob, oa, fresh, true));
        }
        let mut depth: u32 = 1;
        let mut done = false;
        while !done && depth <= max_depth
            invariant
                env == (AbEnv { node_limit: None, history: fresh_history(), depth_limit: max_depth }),
                fresh == fresh_state(max_depth as int),
                !fresh.is_aborted,
                ob == old(self).best_score as int,
                oa == old(self).depth_achieved as int,
                l0 == Some(m.legal_moves()[0]),
                0 <= cut <= max_depth,
                limit_nanos matches Some(l) ==> time_limit_ms matches Some(ms) && l == budget_ns(ms),
                limit_nanos matches Some(l) ==> forall|i: int| 0 <= i < self.clock_readings@.len() - (if timed_out { 1int } else { 0int })
                    ==> #[trigger] self.clock_readings@[i] <= l,
                timed_out ==> done && limit_nanos is Some && self.clock_readings@.len() > 0
                    && self.clock_readings@.last() > limit_nanos.unwrap(),
                old(self).stop_flag is None ==> {
                    let p = id_depths(env, fresh, m, 1, cut, ob, l0, oa);
                    &&& p.4
                    &&& self.best_move == p.0
                    &&& self.best_score == p.1
                    &&& self.depth_achieved == p.2
                    &&& (!done ==> !p.3.is_aborted && self.ab.state(tt@, &orderer) == p.3 && cut == depth - 1)
                    &&& (done && !timed_out ==> cut == max_depth)
                },
                m == board@,
                *board == *old(board),
                m.counters_ok(),
                evaluator.nnue_network is None || evaluator.mode == EvaluationMode::Handcrafted,
                1 <= depth,
                depth <= max_depth + 1 || (done && depth == max_depth + 1),
                aspiration.window_size == 50,
                limit_nanos is None <==> time_limit_ms is None,
                orderer.wf(),
                orderer.depth_limit() == max_depth,
                self.ab.env(&orderer) == env,
                self.ab.node_limit is None,
                self.ab.stop_flag is None <==> old(self).stop_flag is None,
                self.best_move is Some,
                self.best_move matches Some(bm) && m.legal_moves().contains(bm),
                self.stop_flag == old(self).stop_flag,
                total == id_depths(env, fresh_state(max_depth as int), m, 1, max_depth as int,
                    old(self).best_score as int, Some(m.legal_moves()[0]), old(self).depth_achieved as int),
                total.4 || m.legal_moves().len() == 0,
                moves@ == m.legal_moves(),
                moves@.len() > 0,
                !done ==> !self.ab.is_aborted && total == id_depths(env, self.ab.state(tt@, &orderer), m, depth as int, max_depth as int,
                    self.best_score as int, self.best_move, self.depth_achieved as int),
                done && old(self).stop_flag is None && time_limit_ms is None ==>
                    total.0 == self.best_move && total.1 == self.best_score && total.2 == self.depth_achieved,
            decreases max_depth + 1 - depth + (if done { 0int } else { 1int }),
        {
            let mut stop_now = self.stop_requested();
            if !stop_now {
                match limit_nanos {
                    Some(limit) => {
                        let spent = elapsed_since(&start);
                        let ns = nanos_of(&spent);
                        self.clock_readings = Ghost(self.clock_readings@.push(ns));
                        if ns > limit {
                            stop_now = true;
                            proof {
                                timed_out = true;
                            }
                        }
                    },
                    None => {},
                }
            }
            if stop_now {
                proof {
                    if old(self).stop_flag is None && time_limit_ms is None {
                        assert(false);
                    }
                }
                done = true;
            } else {
                self.ab.best_move_at_root = None;
                self.ab.root_depth = 0;
                let ghost st_before = self.ab.state(tt@, &orderer);
                let ghost it = iteration(env, st_before, m, depth as int, self.best_score as int);
                let ghost det = old(self).stop_flag is None;
                let ghost pre = id_depths(env, fresh, m, 1, cut, ob, l0, oa);
                proof {
                    if det {
                        lemma_id_extend(env, fresh, m, 1, cut, ob, l0, oa);
                        assert(iteration(env, st_before, m, depth as int, self.best_score as int)
                            == iteration(env, pre.3, m, depth as int, pre.1));
                        lemma_iteration_no_abort(env, pre.3, m, depth as int, pre.1);
                    }
                    assert(it.2);
                    if depth >= 4 {
                        assert(i32::MIN < self.best_score - 50 && self.best_score + 50 <= i32::MAX);
                    }
                }
                let score = aspiration.search_with_eval(&mut self.ab, board, depth, self.best_score, &mut tt, &mut orderer, evaluator);
                proof {
                    if det || !self.ab.is_aborted {
                        assert(score == it.0);
                        assert(self.ab.state(tt@, &orderer) == it.1);
                    }
                }
                if self.ab.is_aborted || self.stop_requested() {
                    proof {
                        if det && time_limit_ms is None {
                            assert(it.1.is_aborted);
                            assert(total.0 == self.best_move);
                            assert(total.1 == self.best_score);
                            assert(total.2 == self.depth_achieved);
                        }
                    }
                    done = true;
                } else {
                    let ghost prev_best = self.best_move;
                    self.best_score = score;
                    self.depth_achieved = depth;
                    match self.ab.best_move_at_root {
                        Some(best) => {
                            self.best_move = Some(best);
                        },
                        None => {},
                    }
                    proof {
                        if det || !self.ab.is_aborted {
                            assert(self.best_move == kept_move(it.1, prev_best));
                        }
                        if det {
                            cut = depth as int;
                            assert(id_depths(env, fresh, m, 1, cut, ob, l0, oa) == id_step(env, m, pre, depth as int));
                        }
                    }
                    let mut out_of_time = false;
                    match limit_nanos {
                        Some(limit) => {
                            let spent = elapsed_since(&start);
                            let ns = nanos_of(&spent);
                            self.clock_readings = Ghost(self.clock_readings@.push(ns));
                            if ns > limit {
                                out_of_time = true;
                                proof {
                                    timed_out = true;
                                }
                            }
                        },
                        None => {},
                    }
                    if out_of_time || depth == max_depth {
                        proof {
                            if det && time_limit_ms is None {
                                assert(!out_of_time);
                                assert(total == id_depths(env, it.1, m, depth + 1, max_depth as int, it.0, kept_move(it.1, prev_best), depth as int));
                                assert(total.0 == self.best_move);
                                assert(total.1 == self.best_score);
                                assert(total.2 == self.depth_achieved);
                            }
                        }
                        done = true;
                    } else {
                        depth = depth + 1;
                    }
                }
            }
        }
        let spent = elapsed_since(&start);
        self.time_spent_ms = nanos_of(&spent) / 1_000_000;
        self.best_move
    }

    /// Searches deeper and deeper until the searcher has visited `max_nodes`
    /// nodes (the node budget also aborts a search in progress). Without a
    /// stop signal the best move, its score and the depth reached are those of
    /// `id_nodes`.
    pub fn search_with_node_limit<N>(&mut self, board: &mut Board, max_nodes: u64, evaluator: &Evaluator<N>) -> (r: Option<ChessMove>)
        requires
            evaluator.nnue_network is None || evaluator.mode == EvaluationMode::Handcrafted,
            old(board)@.counters_ok(),
            old(board)@.legal_moves().len() > 0 ==> id_nodes(
                AbEnv { node_limit: Some(max_nodes), history: fresh_history(), depth_limit: 64 },
                fresh_state(64),
                old(board)@,
                1,
                max_nodes as int,
                old(self).best_score as int,
                Some(old(board)@.legal_moves()[0]),
                old(self).depth_achieved as int,
            ).4,
        ensures
            *final(board) == *old(board),
            old(board)@.legal_moves().len() == 0 <==> r is None,
            old(board)@.legal_moves().len() > 0 ==> r == final(self).best_move,
            r matches Some(mv) ==> old(board)@.legal_moves().contains(mv),
            old(board)@.legal_moves().len() > 0 && old(self).stop_flag is None ==> {
                let d = id_nodes(
                    AbEnv { node_limit: Some(max_nodes), history: fresh_history(), depth_limit: 64 },
                    fresh_state(64),
                    old(board)@,
                    1,
                    max_nodes as int,
                    old(self).best_score as int,
                    Some(old(board)@.legal_moves()[0]),
                    old(self).depth_achieved as int,
                );
                &&& final(self).best_move == d.0
                &&& final(self).best_score == d.1
                &&& final(self).depth_achieved == d.2
            },
    {
        let start = now();
        let moves = board.generate_moves();
        if moves.len() == 0 {
            return None;
        }
        let ghost m = board@;
        let ghost env = AbEnv { node_limit: Some(max_nodes), history: fresh_history(), depth_limit: 64 };
        let ghost total = id_nodes(env, fresh_state(64), m, 1, max_nodes as int,
            self.best_score as int, Some(moves@[0]), self.depth_achieved as int);
        let mut tt = TranspositionTable::new(16);
        let mut orderer = MoveOrderer::new(64);
        self.ab = self.fresh_searcher(Some(max_nodes));
        let mut aspiration = AspirationWindows::new();
        self.best_move = Some(moves[0]);
        proof {
            assert(m.legal_moves()[0] == moves@[0]);
            assert(orderer.killers() =~= fresh_killers(64));
            assert(orderer.history_table() =~= fresh_history());
            assert(self.ab.state(tt@, &orderer) == fresh_state(64));
            assert(self.ab.env(&orderer) == env);
        }
        let mut depth: u32 = 1;
        let mut done = false;
        while !done && depth <= 64
            invariant
                m == board@,
                *board == *old(board),
                m.counters_ok(),
                evaluator.nnue_network is None || evaluator.mode == EvaluationMode::Handcrafted,
                1 <= depth <= 64,
                aspiration.window_size == 50,
                orderer.wf(),
                orderer.depth_limit() == 64,
                self.ab.env(&orderer) == env,
                self.ab.node_limit == Some(max_nodes),
                self.ab.stop_flag is None <==> old(self).stop_flag is None,
                self.best_move is Some,
                self.best_move matches Some(bm) && m.legal_moves().contains(bm),
                self.stop_flag == old(self).stop_flag,
                total == id_nodes(env, fresh_state(64), m, 1, max_nodes as int,
                    old(self).best_score as int, Some(m.legal_moves()[0]), old(self).depth_achieved as int),
                total.4,
                moves@ == m.legal_moves(),
                !done ==> !self.ab.is_aborted && total == id_nodes(env, self.ab.state(tt@, &orderer), m, depth as int, max_nodes as int,
                    self.best_score as int, self.best_move, self.depth_achieved as int),
                done && old(self).stop_flag is None ==>
                    total.0 == self.best_move && total.1 == self.best_score && total.2 == self.depth_achieved,
            decreases 65 - depth + (if done { 0int } else { 1int }),
        {
            let ghost det = old(self).stop_flag is None;
            let spent_budget = self.ab.total_nodes() >= max_nodes;
            if spent_budget || self.ab.is_aborted || self.stop_requested() {
                done = true;
            } else {
                self.ab.best_move_at_root = None;
                self.ab.root_depth = 0;
                let ghost st_before = self.ab.state(tt@, &orderer);
                let ghost it = iteration(env, st_before, m, depth as int, self.best_score as int);
                let ghost prev_best = self.best_move;
                proof {
                    assert(it.2);
                    if depth >= 4 {
                        assert(i32::MIN < self.best_score - 50 && self.best_score + 50 <= i32::MAX);
                    }
                }
                let score = aspiration.search_with_eval(&mut self.ab, board, depth, self.best_score, &mut tt, &mut orderer, evaluator);
                proof {
                    if det || !self.ab.is_aborted {
                        assert(score == it.0);
                        assert(self.ab.state(tt@, &orderer) == it.1);
                    }
                }
                if !self.ab.is_aborted {
                    self.best_score = score;
                    self.depth_achieved = depth;
                    match self.ab.best_move_at_root {
                        Some(best) => {
                            self.best_move = Some(best);
                        },
                        None => {},
                    }
                    if depth == 64 {
                        proof {
                            assert(total == id_nodes(env, it.1, m, depth + 1, max_nodes as int, it.0, kept_move(it.1, prev_best), depth as int));
                        }
                        done = true;
                    } else {
                        depth = depth + 1;
                    }
                } else {
                    match self.ab.best_move_at_root {
                        Some(best) => {
                            self.best_move = Some(best);
                        },
                        None => {},
                    }
                    done = true;
                }
            }
        }
        let spent = elapsed_since(&start);
        self.time_spent_ms = nanos_of(&spent) / 1_000_000;
        self.best_move
    }
}

} // verus!