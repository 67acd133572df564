//! Search building blocks: pruning and reduction rules, move ordering hooks,
//! transposition-table integration and the quiescence search; and the searcher
//! that consults the opening book before it searches.

pub mod optimization;
pub mod qnode;

use vstd::prelude::*;
use std::sync::Arc;
use std::sync::atomic::AtomicBool;
use crate::board::board::{Board, BoardModel};
use crate::board::chess_move::ChessMove;
use crate::evaluation::{Evaluator, EvaluationMode, NoNetwork, Score};
use crate::move_ordering::MoveOrderer;
use crate::opening_book::{OpeningBook, BookMove, hashable, epd_readable, skipped_line, epd_position, lines_added, line_texts, book_with_lines};
use crate::text::trim_ws;
use crate::transposition_table::{TranspositionTable, TranspositionEntry};
use crate::search::optimization::alphabeta::AbEnv;
use crate::search::optimization::iterative::{
    IterativeDeepening, id_depths, id_nodes, fresh_history, fresh_state, now, elapsed_since, nanos_of, budget_ns,
};

verus! {

/// Counters kept by a search.
#[derive(Debug, Clone, Default)]
pub struct SearchStats {
    pub nodes: u64,
    pub qnodes: u64,
    pub cutoffs: u64,
    pub tt_hits: u64,
    pub tt_misses: u64,
    pub killer_moves_used: u64,
    pub search_depth: u32,
    pub time_ms: u128,
    pub gpu_batches: u64,
    pub gpu_children_total: u64,
    pub hints_used: u64,
    pub tail_gpu_batch_min: u64,
}

/// Counters that have counted nothing yet.
pub open spec fn zero_stats() -> SearchStats {
    SearchStats {
        nodes: 0,
        qnodes: 0,
        cutoffs: 0,
        tt_hits: 0,
        tt_misses: 0,
        killer_moves_used: 0,
        search_depth: 0,
        time_ms: 0,
        gpu_batches: 0,
        gpu_children_total: 0,
        hints_used: 0,
        tail_gpu_batch_min: 0,
    }
}

/// Iterative deepening to `max_depth` from the searcher's previous score and
/// depth can be carried out on the position without failing.
pub open spec fn depth_search_ok(id: IterativeDeepening, m: BoardModel, max_depth: u32) -> bool {
    m.legal_moves().len() > 0 ==> id_depths(
        AbEnv { node_limit: None, history: fresh_history(), depth_limit: max_depth },
        fresh_state(max_depth as int),
        m,
        1,
        max_depth as int,
        id.best_score as int,
        Some(m.legal_moves()[0]),
        id.depth_achieved as int,
    ).4
}

/// Iterative deepening within `max_nodes` nodes can be carried out on the position.
pub open spec fn node_search_ok(id: IterativeDeepening, m: BoardModel, max_nodes: u64) -> bool {
    m.legal_moves().len() > 0 ==> id_nodes(
        AbEnv { node_limit: Some(max_nodes), history: fresh_history(), depth_limit: 64 },
        fresh_state(64),
        m,
        1,
        max_nodes as int,
        id.best_score as int,
        Some(m.legal_moves()[0]),
        id.depth_achieved as int,
    ).4
}

/// The searcher: statistics of the last search, its score, a table, a move
/// orderer, the opening book, the evaluator, iterative deepening and the stop signal.
pub struct Searcher<N> {
    pub stats: SearchStats,
    pub best_score: Score,
    pub tt: TranspositionTable,
    pub move_orderer: MoveOrderer,
    pub opening_book: OpeningBook,
    pub evaluator: Evaluator<N>,
    pub id_search: IterativeDeepening,
    pub stop_flag: Option<Arc<AtomicBool>>,
}

impl Searcher<NoNetwork> {
    /// A searcher with empty statistics, a 16 MB table, an empty book and the
    /// hand-crafted evaluator.
    pub fn new() -> (s: Self)
        ensures
            s.stats == zero_stats(),
            s.best_score == 0,
            s.tt@.entries == Map::<u64, TranspositionEntry>::empty(),
            s.tt@.max_entries == 16 * 1024 * 1024 / 32,
            s.move_orderer.wf(),
            s.move_orderer.depth_limit() == 20,
            s.opening_book.positions@ == Map::<u64, Vec<BookMove>>::empty(),
            !s.opening_book.loaded,
            s.evaluator.nnue_network is None,
            s.evaluator.mode == EvaluationMode::Handcrafted,
            s.id_search.best_move is None,
            s.id_search.best_score == 0,
            s.id_search.depth_achieved == 0,
            s.id_search.stop_flag is None,
            s.stop_flag is None,
    {
        Searcher {
            stats: SearchStats {
                nodes: 0,
                qnodes: 0,
                cutoffs: 0,
                tt_hits: 0,
                tt_misses: 0,
                killer_moves_used: 0,
                search_depth: 0,
                time_ms: 0,
                gpu_batches: 0,
                gpu_children_total: 0,
                hints_used: 0,
                tail_gpu_batch_min: 0,
            },
            best_score: 0,
            tt: TranspositionTable::new(16),
            move_orderer: MoveOrderer::new(20),
            opening_book: OpeningBook::new(),
            evaluator: Evaluator::new(),
            id_search: IterativeDeepening::new(),
            stop_flag: None,
        }
    }
}

impl<N> Searcher<N> {
    /// Replaces the table by an empty one of the given size.
    pub fn set_tt_size(&mut self, size_mb: u32)
        requires
            size_mb * 1024 * 1024 <= usize::MAX,
        ensures
            final(self).tt@.entries == Map::<u64, TranspositionEntry>::empty(),
            final(self).tt@.max_entries == size_mb * 1024 * 1024 / 32,
            final(self).stats == old(self).stats,
            final(self).opening_book == old(self).opening_book,
            final(self).evaluator == old(self).evaluator,
            final(self).id_search == old(self).id_search,
            final(self).stop_flag == old(self).stop_flag,
    {
        self.tt = TranspositionTable::new(size_mb);
    }

    /// Takes another evaluator; the accelerator check is made again.
    pub fn set_evaluator(&mut self, evaluator: Evaluator<N>)
        ensures
            final(self).evaluator == evaluator,
            !final(self).id_search.gpu_checked,
            final(self).id_search.gpu_enabled == old(self).id_search.gpu_enabled,
            final(self).opening_book == old(self).opening_book,
            final(self).stop_flag == old(self).stop_flag,
    {
        self.evaluator = evaluator;
        self.id_search.invalidate_gpu();
    }

    /// Switches the evaluation mode; the accelerator check is made again.
    pub fn set_evaluation_mode(&mut self, mode: EvaluationMode)
        ensures
            final(self).evaluator.mode == mode,
            final(self).evaluator.nnue_network == old(self).evaluator.nnue_network,
            !final(self).id_search.gpu_checked,
            final(self).id_search.gpu_enabled == old(self).id_search.gpu_enabled,
            final(self).opening_book == old(self).opening_book,
            final(self).stop_flag == old(self).stop_flag,
    {
        self.evaluator.set_mode(mode);
        self.id_search.invalidate_gpu();
    }

    pub fn set_gpu_enabled(&mut self, enabled: bool)
        ensures
            final(self).id_search.gpu_enabled == enabled,
            final(self).id_search.gpu_batch_min == old(self).id_search.gpu_batch_min,
            final(self).id_search.gpu_max_depth == old(self).id_search.gpu_max_depth,
            final(self).evaluator == old(self).evaluator,
    {
        self.id_search.set_gpu_enabled(enabled);
    }

    pub fn set_gpu_batch_min(&mut self, min: usize)
        ensures
            final(self).id_search.gpu_batch_min == if min >= 2 { min } else { 2 },
            final(self).id_search.gpu_enabled == old(self).id_search.gpu_enabled,
            final(self).evaluator == old(self).evaluator,
    {
        self.id_search.set_gpu_batch_min(min);
    }

    pub fn set_gpu_max_depth(&mut self, depth: u32)
        ensures
            final(self).id_search.gpu_max_depth == depth,
            final(self).id_search.gpu_enabled == old(self).id_search.gpu_enabled,
            final(self).evaluator == old(self).evaluator,
    {
        self.id_search.set_gpu_max_depth(depth);
    }

    /// Shares a stop signal with the searcher and its iterative deepening.
    pub fn set_stop_flag(&mut self, flag: Arc<AtomicBool>)
        ensures
            final(self).stop_flag == Some(flag),
            final(self).id_search.stop_flag == Some(flag),
            final(self).id_search.best_score == old(self).id_search.best_score,
            final(self).id_search.depth_achieved == old(self).id_search.depth_achieved,
            final(self).opening_book == old(self).opening_book,
            final(self).evaluator == old(self).evaluator,
    {
        self.stop_flag = Some(flag.clone());
        self.id_search.set_stop_flag(flag);
    }

    /// Reads EPD lines into the opening book (see `OpeningBook::load_epd_lines`).
    pub fn load_opening_book_lines(&mut self, lines: &Vec<String>) -> (r: Result<usize, String>)
        requires
            forall|i: int| 0 <= i < lines@.len() ==> epd_readable(#[trigger] trim_ws(lines@[i]@)),
        ensures
            r is Ok <==> forall|i: int| 0 <= i < lines@.len() && !skipped_line(lines@[i]@)
                ==> (#[trigger] epd_position(trim_ws(lines@[i]@))) is Some,
            r is Ok ==> final(self).opening_book.loaded,
            r matches Ok(n) ==> n == lines_added(line_texts(lines@))
                && final(self).opening_book.entries() == book_with_lines(old(self).opening_book.entries(), line_texts(lines@)),
            final(self).evaluator == old(self).evaluator,
            final(self).id_search == old(self).id_search,
            final(self).stop_flag == old(self).stop_flag,
    {
        self.opening_book.load_epd_lines(lines)
    }

    /// The book move when the book knows the position (reported at depth one);
    /// otherwise iterative deepening to `max_depth` within the time budget,
    /// with the statistics, score and time of the search kept.
    pub fn search_with_time_management(&mut self, board: &mut Board, max_depth: u32, time_available_ms: u128) -> (r: (Option<ChessMove>, u32))
        requires
            hashable(old(board)@),
            old(board)@.counters_ok(),
            old(self).evaluator.nnue_network is None || old(self).evaluator.mode == EvaluationMode::Handcrafted,
            depth_search_ok(old(self).id_search, old(board)@, max_depth),
        ensures
            *final(board) == *old(board),
            final(self).opening_book == old(self).opening_book,
            final(self).evaluator == old(self).evaluator,
            final(self).stop_flag == old(self).stop_flag,
            old(self).opening_book.book_move_for(old(board)@) matches Some(mv) ==> {
                &&& r == (Some(mv), 1u32)
                &&& final(self).stats.search_depth == 1
                &&& final(self).id_search == old(self).id_search
                &&& final(self).best_score == old(self).best_score
            },
            old(self).opening_book.book_move_for(old(board)@) is None ==> {
                &&& (r.0 is None <==> old(board)@.legal_moves().len() == 0)
                &&& (r.0 matches Some(mv) ==> old(board)@.legal_moves().contains(mv))
                &&& (old(board)@.legal_moves().len() > 0 ==> r.0 == final(self).id_search.best_move)
                &&& r.1 == final(self).id_search.depth_achieved
                &&& final(self).stats.search_depth == final(self).id_search.depth_achieved
                &&& final(self).stats.nodes == final(self).id_search.ab.nodes
                &&& final(self).stats.qnodes == final(self).id_search.ab.qnodes
                &&& final(self).stats.cutoffs == final(self).id_search.ab.cutoffs
                &&& final(self).best_score == final(self).id_search.best_score
                &&& forall|i: int| 0 <= i < final(self).id_search.clock_readings@.len() - 1
                    ==> #[trigger] final(self).id_search.clock_readings@[i] <= budget_ns(time_available_ms)
                &&& (old(board)@.legal_moves().len() > 0 && old(self).id_search.stop_flag is None ==> exists|cut: int| {
                    let p = #[trigger] id_depths(
                        AbEnv { node_limit: None, history: fresh_history(), depth_limit: max_depth },
                        fresh_state(max_depth as int),
                        old(board)@,
                        1,
                        cut,
                        old(self).id_search.best_score as int,
                        Some(old(board)@.legal_moves()[0]),
                        old(self).id_search.depth_achieved as int,
                    );
                    &&& 0 <= cut <= max_depth
                    &&& r.0 == p.0
                    &&& r.1 == p.2
                    &&& final(self).best_score == p.1
                    &&& cut < max_depth ==> (final(self).id_search.clock_readings@.len() > 0
                        && final(self).id_search.clock_readings@.last() > budget_ns(time_available_ms))
                })
            },
    {
        let start = now();
        if let Some(book_move) = self.opening_book.get_book_move(board) {
            self.stats.search_depth = 1;
            let spent = elapsed_since(&start);
            self.stats.time_ms = nanos_of(&spent) / 1_000_000;
            return (Some(book_move), 1);
        }
        let best_move = self.id_search.search_with_eval(board, max_depth, Some(time_available_ms), &self.evaluator);
        self.stats.search_depth = self.id_search.depth_achieved;
        self.stats.nodes = self.id_search.ab.nodes;
        self.stats.qnodes = self.id_search.ab.qnodes;
        self.stats.cutoffs = self.id_search.ab.cutoffs;
        self.stats.gpu_batches = self.id_search.ab.gpu_batches;
        self.stats.gpu_children_total = self.id_search.ab.gpu_children_total;
        self.stats.hints_used = self.id_search.ab.hints_used;
        self.stats.tail_gpu_batch_min = self.id_search.gpu_batch_min as u64;
        self.best_score = self.id_search.best_score;
        let spent = elapsed_since(&start);
        self.stats.time_ms = nanos_of(&spent) / 1_000_000;
        (best_move, self.id_search.depth_achieved)
    }

    /// The book move (with score zero) when the book knows the position;
    /// otherwise iterative deepening within `max_nodes` nodes and its score.
    /// Without a stop signal the move and score are those of `id_nodes`.
    pub fn search_fixed_nodes(&mut self, board: &mut Board, max_nodes: u64) -> (r: (Option<ChessMove>, Score))
        requires
            hashable(old(board)@),
            old(board)@.counters_ok(),
            old(self).evaluator.nnue_network is None || old(self).evaluator.mode == EvaluationMode::Handcrafted,
            node_search_ok(old(self).id_search, old(board)@, max_nodes),
        ensures
            *final(board) == *old(board),
            final(self).opening_book == old(self).opening_book,
            final(self).evaluator == old(self).evaluator,
            final(self).stop_flag == old(self).stop_flag,
            old(self).opening_book.book_move_for(old(board)@) matches Some(mv) ==> {
                &&& r == (Some(mv), 0i32)
                &&& final(self).stats == old(self).stats
                &&& final(self).id_search == old(self).id_search
            },
            old(self).opening_book.book_move_for(old(board)@) is None ==> {
                &&& (r.0 is None <==> old(board)@.legal_moves().len() == 0)
                &&& (r.0 matches Some(mv) ==> old(board)@.legal_moves().contains(mv))
                &&& final(self).stats.search_depth == final(self).id_search.depth_achieved
                &&& final(self).stats.nodes == final(self).id_search.ab.nodes
                &&& final(self).stats.qnodes == final(self).id_search.ab.qnodes
                &&& final(self).stats.cutoffs == final(self).id_search.ab.cutoffs
                &&& final(self).stats.time_ms == final(self).id_search.time_spent_ms
                &&& final(self).best_score == final(self).id_search.best_score
                &&& r.1 == final(self).id_search.best_score
                &&& (old(board)@.legal_moves().len() > 0 && old(self).id_search.stop_flag is None ==> {
                    let d = id_nodes(
                        AbEnv { node_limit: Some(max_nodes), history: fresh_history(), depth_limit: 64 },
                        fresh_state(64),
                        old(board)@,
                        1,
                        max_nodes as int,
                        old(self).id_search.best_score as int,
                        Some(old(board)@.legal_moves()[0]),
                        old(self).id_search.depth_achieved as int,
                    );
                    r.0 == d.0 && r.1 == d.1
                })
            },
    {
        if let Some(book_move) = self.opening_book.get_book_move(board) {
            return (Some(book_move), 0);
        }
        let mv = self.id_search.search_with_node_limit(board, max_nodes, &self.evaluator);
        self.stats.nodes = self.id_search.ab.nodes;
        self.stats.qnodes = self.id_search.ab.qnodes;
        self.stats.cutoffs = self.id_search.ab.cutoffs;
        self.stats.search_depth = self.id_search.depth_achieved;
        self.stats.time_ms = self.id_search.time_spent_ms;
        self.stats.gpu_batches = self.id_search.ab.gpu_batches;
        self.stats.gpu_children_total = self.id_search.ab.gpu_children_total;
        self.stats.hints_used = self.id_search.ab.hints_used;
        self.stats.tail_gpu_batch_min = self.id_search.gpu_batch_min as u64;
        self.best_score = self.id_search.best_score;
        (mv, self.id_search.best_score)
    }

    /// The book move when the book knows the position; otherwise iterative
    /// deepening to `depth` without a clock. Without a stop signal the move is
    /// that of `id_depths`.
    pub fn find_best_move(&mut self, board: &mut Board, depth: u32) -> (r: Option<ChessMove>)
        requires
            hashable(old(board)@),
            old(board)@.counters_ok(),
            old(self).evaluator.nnue_network is None || old(self).evaluator.mode == EvaluationMode::Handcrafted,
            depth_search_ok(old(self).id_search, old(board)@, depth),
        ensures
            *final(board) == *old(board),
            final(self).opening_book == old(self).opening_book,
            final(self).evaluator == old(self).evaluator,
            final(self).stop_flag == old(self).stop_flag,
            old(self).opening_book.book_move_for(old(board)@) matches Some(mv) ==> {
                &&& r == Some(mv)
                &&& final(self).stats == old(self).stats
                &&& final(self).id_search == old(self).id_search
            },
            old(self).opening_book.book_move_for(old(board)@) is None ==> {
                &&& (r is None <==> old(board)@.legal_moves().len() == 0)
                &&& (r matches Some(mv) ==> old(board)@.legal_moves().contains(mv))
                &&& final(self).stats.search_depth == final(self).id_search.depth_achieved
                &&& final(self).stats.nodes == final(self).id_search.ab.nodes
                &&& final(self).stats.qnodes == final(self).id_search.ab.qnodes
                &&& final(self).stats.cutoffs == final(self).id_search.ab.cutoffs
                &&& final(self).best_score == final(self).id_search.best_score
                &&& (old(board)@.legal_moves().len() > 0 && old(self).id_search.stop_flag is None ==> r == id_depths(
                    AbEnv { node_limit: None, history: fresh_history(), depth_limit: depth },
                    fresh_state(depth as int),
                    old(board)@,
                    1,
                    depth as int,
                    old(self).id_search.best_score as int,
                    Some(old(board)@.legal_moves()[0]),
                    old(self).id_search.depth_achieved as int,
                ).0)
            },
    {
        if let Some(book_move) = self.opening_book.get_book_move(board) {
            return Some(book_move);
        }
        let result = self.id_search.search_with_eval(board, depth, None, &self.evaluator);
        self.stats.nodes = self.id_search.ab.nodes;
        self.stats.qnodes = self.id_search.ab.qnodes;
        self.stats.cutoffs = self.id_search.ab.cutoffs;
        self.stats.search_depth = self.id_search.depth_achieved;
        self.best_score = self.id_search.best_score;
        result
    }
}

} // verus!
