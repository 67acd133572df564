use vstd::prelude::*;
use crate::board::board::Board;
use crate::board::chess_move::ChessMove;
use crate::move_ordering::{MoveOrderer, scorable, sorted_order, with_killer, with_history, history_index};

verus! {

/// The move ordering operations used by the search, on a shared orderer.
pub struct MoveOrderingStrategies;

impl MoveOrderingStrategies {
    /// Orders the moves best first (hash move, captures, killers, history).
    pub fn apply_mvv_lva(
        orderer: &MoveOrderer,
        moves: &mut Vec<ChessMove>,
        board: &Board,
        depth: u32,
        hash_move: Option<ChessMove>,
    )
        requires
            orderer.wf(),
            forall|i: int| 0 <= i < old(moves)@.len() ==> scorable(board@, #[trigger] old(moves)@[i], hash_move),
        ensures
            final(moves)@.len() == old(moves)@.len(),
            exists|idx: Seq<int>| {
                &&& #[trigger] sorted_order(orderer.score_keys(old(moves)@, board@, depth as int, hash_move), idx)
                &&& forall|k: int| 0 <= k < idx.len() ==> #[trigger] final(moves)@[k] == old(moves)@[idx[k]]
            },
    {
        orderer.sort_moves(moves, board, depth, hash_move);
    }

    pub fn apply_killer_moves(orderer: &MoveOrderer, depth: u32) -> (v: Vec<ChessMove>)
        requires
            orderer.wf(),
        ensures
            v@ == orderer.killers_at(depth as int),
    {
        orderer.get_killers(depth)
    }

    pub fn record_killer_move(orderer: &mut MoveOrderer, depth: u32, mv: ChessMove)
        requires
            old(orderer).wf(),
        ensures
            final(orderer).wf(),
            final(orderer).depth_limit() == old(orderer).depth_limit(),
            final(orderer).history_table() == old(orderer).history_table(),
            final(orderer).killers() == with_killer(old(orderer).killers(), old(orderer).depth_limit() as int, depth as int, mv),
    {
        orderer.record_killer(depth, mv);
    }

    pub fn update_history_heuristic(orderer: &mut MoveOrderer, mv: ChessMove, depth: u32)
        requires
            old(orderer).wf(),
            depth * depth <= u32::MAX,
            mv.to.0 * 8 + mv.to.1 <= usize::MAX,
        ensures
            final(orderer).wf(),
            final(orderer).depth_limit() == old(orderer).depth_limit(),
            final(orderer).killers() == old(orderer).killers(),
            final(orderer).history_table() == with_history(old(orderer).history_table(), mv, depth as int),
    {
        orderer.update_history(mv, depth);
    }

    pub fn get_history_score(orderer: &MoveOrderer, mv: ChessMove) -> (h: u32)
        requires
            orderer.wf(),
            mv.to.0 * 8 + mv.to.1 <= usize::MAX,
        ensures
            h == orderer.history_of(mv),
    {
        orderer.get_history_score(mv)
    }

    pub fn clear_ordering_state(orderer: &mut MoveOrderer)
        requires
            old(orderer).wf(),
        ensures
            final(orderer).wf(),
            final(orderer).depth_limit() == old(orderer).depth_limit(),
            forall|d: int| 0 <= d <= final(orderer).depth_limit() ==> #[trigger] final(orderer).killers()[d] == (None::<ChessMove>, None::<ChessMove>),
            forall|i: int| 0 <= i < 12 * 64 ==> #[trigger] final(orderer).history_table()[i] == 0,
    {
        orderer.clear();
    }
}

} // verus!
